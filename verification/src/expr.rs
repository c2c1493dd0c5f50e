//! Terms as they are stored.
use crate::hash::{fx_hash, fx_hash_of, Node};
use crate::ptr::{BigUintPtr, ExprPtr, LevelPtr, LevelsPtr, NamePtr, StringPtr};
use crate::tree::{depth_bound, has_local, loose, BinderStyle, FVarId, Tm};
use vstd::prelude::*;

verus! {

/// The first word that is hashed for a bound variable.
pub const VAR_HASH: u64 = 281;

/// The first word that is hashed for a sort.
pub const SORT_HASH: u64 = 563;

/// The first word that is hashed for a constant.
pub const CONST_HASH: u64 = 1129;

/// The first word that is hashed for an application.
pub const APP_HASH: u64 = 233;

/// The first word that is hashed for a function.
pub const LAMBDA_HASH: u64 = 431;

/// The first word that is hashed for a function type.
pub const PI_HASH: u64 = 719;

/// The first word that is hashed for a local definition.
pub const LET_HASH: u64 = 241;

/// The first word that is hashed for a free variable.
pub const LOCAL_HASH: u64 = 211;

/// The first word that is hashed for a projection.
pub const PROJ_HASH: u64 = 17;

/// The first word that is hashed for a string literal.
pub const STRING_LIT_HASH: u64 = 1493;

/// The first word that is hashed for a number literal.
pub const NAT_LIT_HASH: u64 = 1583;

/// A term: its parts, its hash, and for compound terms the number of loose bound variables,
/// whether free variables occur, and a bound on the depths of those that do.
#[derive(Clone, Copy)]
#[allow(inconsistent_fields)]
pub enum Expr {
    Var { dbj_idx: u16, hash: u64 },
    Sort { level: LevelPtr, hash: u64 },
    Const { name: NamePtr, levels: LevelsPtr, hash: u64 },
    App { fun: ExprPtr, arg: ExprPtr, num_loose_bvars: u32, has_fvars: bool, depth: u32, hash: u64 },
    Lambda {
        binder_name: NamePtr,
        binder_style: BinderStyle,
        binder_type: ExprPtr,
        body: ExprPtr,
        num_loose_bvars: u32,
        has_fvars: bool,
        depth: u32,
        hash: u64,
    },
    Pi {
        binder_name: NamePtr,
        binder_style: BinderStyle,
        binder_type: ExprPtr,
        body: ExprPtr,
        num_loose_bvars: u32,
        has_fvars: bool,
        depth: u32,
        hash: u64,
    },
    Let {
        binder_name: NamePtr,
        binder_type: ExprPtr,
        val: ExprPtr,
        body: ExprPtr,
        num_loose_bvars: u32,
        has_fvars: bool,
        depth: u32,
        nondep: bool,
        hash: u64,
    },
    Local { binder_name: NamePtr, binder_style: BinderStyle, binder_type: ExprPtr, id: FVarId, depth: u32, hash: u64 },
    Proj {
        ty_name: NamePtr,
        idx: usize,
        structure: ExprPtr,
        num_loose_bvars: u32,
        has_fvars: bool,
        depth: u32,
        hash: u64,
    },
    NatLit { ptr: BigUintPtr, hash: u64 },
    StringLit { ptr: StringPtr, hash: u64 },
}

/// The word that a binder style contributes to a hash.
pub open spec fn style_word(s: BinderStyle) -> u64 {
    match s {
        BinderStyle::Default => 0,
        BinderStyle::Implicit => 1,
        BinderStyle::StrictImplicit => 2,
        BinderStyle::InstanceImplicit => 3,
    }
}

fn style_hash(s: BinderStyle) -> (r: u64)
    ensures
        r == style_word(s),
{
    match s {
        BinderStyle::Default => 0,
        BinderStyle::Implicit => 1,
        BinderStyle::StrictImplicit => 2,
        BinderStyle::InstanceImplicit => 3,
    }
}

/// The words that the identity of a free variable contributes to a hash.
pub open spec fn id_words(id: FVarId) -> (u64, u64) {
    match id {
        FVarId::DbjLevel(k) => (0, k as u64),
        FVarId::Unique(k) => (1, k as u64),
    }
}

fn id_hash(id: FVarId) -> (r: (u64, u64))
    ensures
        r == id_words(id),
{
    match id {
        FVarId::DbjLevel(k) => (0, k as u64),
        FVarId::Unique(k) => (1, k as u64),
    }
}

/// The word that a truth value contributes to a hash.
pub open spec fn bool_word(b: bool) -> u64 {
    if b {
        1
    } else {
        0
    }
}

fn bool_hash(b: bool) -> (r: u64)
    ensures
        r == bool_word(b),
{
    if b {
        1
    } else {
        0
    }
}

fn hash_words(words: Vec<u64>) -> (r: u64)
    ensures
        r == fx_hash_of(words@),
{
    fx_hash(&words)
}

impl Expr {
    /// The term as a tree.
    pub open spec fn tree(self) -> Tm {
        match self {
            Expr::Var { dbj_idx, .. } => Tm::Var(dbj_idx as nat),
            Expr::Sort { level, .. } => Tm::Sort(level@),
            Expr::Const { name, levels, .. } => Tm::Const(name@, levels@),
            Expr::App { fun, arg, .. } => Tm::App(Box::new(fun@), Box::new(arg@)),
            Expr::Lambda { binder_name, binder_style, binder_type, body, .. } => Tm::Lam(binder_name@, binder_style, Box::new(binder_type@), Box::new(body@)),
            Expr::Pi { binder_name, binder_style, binder_type, body, .. } => Tm::Pi(binder_name@, binder_style, Box::new(binder_type@), Box::new(body@)),
            Expr::Let { binder_name, binder_type, val, body, nondep, .. } => Tm::Let(binder_name@, Box::new(binder_type@), Box::new(val@), Box::new(body@), nondep),
            Expr::Local { binder_name, binder_style, binder_type, id, .. } => Tm::Local(binder_name@, binder_style, Box::new(binder_type@), id),
            Expr::Proj { ty_name, idx, structure, .. } => Tm::Proj(ty_name@, idx as nat, Box::new(structure@)),
            Expr::NatLit { ptr, .. } => Tm::NatLit(ptr@),
            Expr::StringLit { ptr, .. } => Tm::StrLit(ptr@),
        }
    }

    /// The words that are hashed for the term.
    pub open spec fn words(self) -> Seq<u64> {
        match self {
            Expr::Var { dbj_idx, .. } => seq![VAR_HASH, dbj_idx as u64],
            Expr::Sort { level, .. } => seq![SORT_HASH, level.word()],
            Expr::Const { name, levels, .. } => seq![CONST_HASH, name.word(), levels.word()],
            Expr::App { fun, arg, .. } => seq![APP_HASH, fun.word(), arg.word()],
            Expr::Lambda { binder_name, binder_style, binder_type, body, .. } => seq![LAMBDA_HASH, binder_name.word(), style_word(binder_style), binder_type.word(), body.word()],
            Expr::Pi { binder_name, binder_style, binder_type, body, .. } => seq![PI_HASH, binder_name.word(), style_word(binder_style), binder_type.word(), body.word()],
            Expr::Let { binder_name, binder_type, val, body, nondep, .. } => seq![LET_HASH, binder_name.word(), binder_type.word(), val.word(), body.word(), bool_word(nondep)],
            Expr::Local { binder_name, binder_style, binder_type, id, .. } => seq![LOCAL_HASH, binder_name.word(), style_word(binder_style), binder_type.word(), id_words(id).0, id_words(id).1],
            Expr::Proj { ty_name, idx, structure, .. } => seq![PROJ_HASH, ty_name.word(), idx as u64, structure.word()],
            Expr::NatLit { ptr, .. } => seq![NAT_LIT_HASH, ptr.word()],
            Expr::StringLit { ptr, .. } => seq![STRING_LIT_HASH, ptr.word()],
        }
    }

    /// The hash that the term holds.
    pub open spec fn stored_hash(self) -> u64 {
        match self {
            Expr::Var { hash, .. } => hash,
            Expr::Sort { hash, .. } => hash,
            Expr::Const { hash, .. } => hash,
            Expr::App { hash, .. } => hash,
            Expr::Lambda { hash, .. } => hash,
            Expr::Pi { hash, .. } => hash,
            Expr::Let { hash, .. } => hash,
            Expr::Local { hash, .. } => hash,
            Expr::Proj { hash, .. } => hash,
            Expr::NatLit { hash, .. } => hash,
            Expr::StringLit { hash, .. } => hash,
        }
    }

    /// The hash that the term holds is that of its parts.
    pub open spec fn hash_ok(self) -> bool {
        self.stored_hash() == fx_hash_of(self.words())
    }

    /// What the term says of its variables is so.
    pub open spec fn info_ok(self) -> bool {
        match self {
            Expr::App { num_loose_bvars, has_fvars, depth, .. } => {
                &&& num_loose_bvars == loose(self.tree())
                &&& has_fvars == has_local(self.tree())
                &&& depth == depth_bound(self.tree())
            },
            Expr::Lambda { num_loose_bvars, has_fvars, depth, .. } => {
                &&& num_loose_bvars == loose(self.tree())
                &&& has_fvars == has_local(self.tree())
                &&& depth == depth_bound(self.tree())
            },
            Expr::Pi { num_loose_bvars, has_fvars, depth, .. } => {
                &&& num_loose_bvars == loose(self.tree())
                &&& has_fvars == has_local(self.tree())
                &&& depth == depth_bound(self.tree())
            },
            Expr::Let { num_loose_bvars, has_fvars, depth, .. } => {
                &&& num_loose_bvars == loose(self.tree())
                &&& has_fvars == has_local(self.tree())
                &&& depth == depth_bound(self.tree())
            },
            Expr::Proj { num_loose_bvars, has_fvars, depth, .. } => {
                &&& num_loose_bvars == loose(self.tree())
                &&& has_fvars == has_local(self.tree())
                &&& depth == depth_bound(self.tree())
            },
            Expr::Local { depth, .. } => depth == depth_bound(self.tree()),
            _ => true,
        }
    }

    /// The hash of the term.
    pub fn get_hash(&self) -> (r: u64)
        ensures
            r == self.stored_hash(),
    {
        match self {
            Expr::Var { hash, .. } => *hash,
            Expr::Sort { hash, .. } => *hash,
            Expr::Const { hash, .. } => *hash,
            Expr::App { hash, .. } => *hash,
            Expr::Lambda { hash, .. } => *hash,
            Expr::Pi { hash, .. } => *hash,
            Expr::Let { hash, .. } => *hash,
            Expr::Local { hash, .. } => *hash,
            Expr::Proj { hash, .. } => *hash,
            Expr::NatLit { hash, .. } => *hash,
            Expr::StringLit { hash, .. } => *hash,
        }
    }

    /// The number of loose bound variables.
    pub fn num_loose_bvars(&self) -> (r: u32)
        requires
            self.info_ok(),
        ensures
            r == loose(self.tree()),
    {
        match self {
            Expr::Var { dbj_idx, .. } => *dbj_idx as u32 + 1,
            Expr::App { num_loose_bvars, .. } => *num_loose_bvars,
            Expr::Lambda { num_loose_bvars, .. } => *num_loose_bvars,
            Expr::Pi { num_loose_bvars, .. } => *num_loose_bvars,
            Expr::Let { num_loose_bvars, .. } => *num_loose_bvars,
            Expr::Proj { num_loose_bvars, .. } => *num_loose_bvars,
            _ => 0,
        }
    }

    /// Whether free variables occur.
    pub fn has_fvars(&self) -> (r: bool)
        requires
            self.info_ok(),
        ensures
            r == has_local(self.tree()),
    {
        match self {
            Expr::Local { .. } => true,
            Expr::App { has_fvars, .. } => *has_fvars,
            Expr::Lambda { has_fvars, .. } => *has_fvars,
            Expr::Pi { has_fvars, .. } => *has_fvars,
            Expr::Let { has_fvars, .. } => *has_fvars,
            Expr::Proj { has_fvars, .. } => *has_fvars,
            _ => false,
        }
    }

    /// A bound on the depths of the free variables.
    pub fn depth(&self) -> (r: u32)
        requires
            self.info_ok(),
        ensures
            r == depth_bound(self.tree()),
    {
        match self {
            Expr::Local { depth, .. } => *depth,
            Expr::App { depth, .. } => *depth,
            Expr::Lambda { depth, .. } => *depth,
            Expr::Pi { depth, .. } => *depth,
            Expr::Let { depth, .. } => *depth,
            Expr::Proj { depth, .. } => *depth,
            _ => 0,
        }
    }

    /// The hash of the parts of a term.
    pub fn hash_parts(&self) -> (r: u64)
        ensures
            r == fx_hash_of(self.words()),
    {
        let mut w: Vec<u64> = Vec::new();
        match self {
            Expr::Var { dbj_idx, .. } => {
                w.push(VAR_HASH);
                w.push(*dbj_idx as u64);
            },
            Expr::Sort { level, .. } => {
                w.push(SORT_HASH);
                w.push(level.get_hash());
            },
            Expr::Const { name, levels, .. } => {
                w.push(CONST_HASH);
                w.push(name.get_hash());
                w.push(levels.get_hash());
            },
            Expr::App { fun, arg, .. } => {
                w.push(APP_HASH);
                w.push(fun.get_hash());
                w.push(arg.get_hash());
            },
            Expr::Lambda { binder_name, binder_style, binder_type, body, .. } => {
                w.push(LAMBDA_HASH);
                w.push(binder_name.get_hash());
                w.push(style_hash(*binder_style));
                w.push(binder_type.get_hash());
                w.push(body.get_hash());
            },
            Expr::Pi { binder_name, binder_style, binder_type, body, .. } => {
                w.push(PI_HASH);
                w.push(binder_name.get_hash());
                w.push(style_hash(*binder_style));
                w.push(binder_type.get_hash());
                w.push(body.get_hash());
            },
            Expr::Let { binder_name, binder_type, val, body, nondep, .. } => {
                w.push(LET_HASH);
                w.push(binder_name.get_hash());
                w.push(binder_type.get_hash());
                w.push(val.get_hash());
                w.push(body.get_hash());
                w.push(bool_hash(*nondep));
            },
            Expr::Local { binder_name, binder_style, binder_type, id, .. } => {
                w.push(LOCAL_HASH);
                w.push(binder_name.get_hash());
                w.push(style_hash(*binder_style));
                w.push(binder_type.get_hash());
                let (a, b) = id_hash(*id);
                w.push(a);
                w.push(b);
            },
            Expr::Proj { ty_name, idx, structure, .. } => {
                w.push(PROJ_HASH);
                w.push(ty_name.get_hash());
                w.push(*idx as u64);
                w.push(structure.get_hash());
            },
            Expr::NatLit { ptr, .. } => {
                w.push(NAT_LIT_HASH);
                w.push(ptr.get_hash());
            },
            Expr::StringLit { ptr, .. } => {
                w.push(STRING_LIT_HASH);
                w.push(ptr.get_hash());
            },
        }
        assert(w@ =~= self.words());
        hash_words(w)
    }

    /// The term with the hash of its parts.
    pub fn hashed(self) -> (r: Expr)
        ensures
            r.hash_ok(),
            r.tree() == self.tree(),
            r.same_parts(self),
            self.info_ok() ==> r.info_ok(),
    {
        let hash = self.hash_parts();
        let r = match self {
            Expr::Var { dbj_idx, .. } => Expr::Var { dbj_idx, hash },
            Expr::Sort { level, .. } => Expr::Sort { level, hash },
            Expr::Const { name, levels, .. } => Expr::Const { name, levels, hash },
            Expr::App { fun, arg, num_loose_bvars, has_fvars, depth, .. } => Expr::App { fun, arg, num_loose_bvars, has_fvars, depth, hash },
            Expr::Lambda { binder_name, binder_style, binder_type, body, num_loose_bvars, has_fvars, depth, .. } => Expr::Lambda { binder_name, binder_style, binder_type, body, num_loose_bvars, has_fvars, depth, hash },
            Expr::Pi { binder_name, binder_style, binder_type, body, num_loose_bvars, has_fvars, depth, .. } => Expr::Pi { binder_name, binder_style, binder_type, body, num_loose_bvars, has_fvars, depth, hash },
            Expr::Let { binder_name, binder_type, val, body, nondep, num_loose_bvars, has_fvars, depth, .. } => Expr::Let { binder_name, binder_type, val, body, nondep, num_loose_bvars, has_fvars, depth, hash },
            Expr::Local { binder_name, binder_style, binder_type, id, depth, .. } => Expr::Local { binder_name, binder_style, binder_type, id, depth, hash },
            Expr::Proj { ty_name, idx, structure, num_loose_bvars, has_fvars, depth, .. } => Expr::Proj { ty_name, idx, structure, num_loose_bvars, has_fvars, depth, hash },
            Expr::NatLit { ptr, .. } => Expr::NatLit { ptr, hash },
            Expr::StringLit { ptr, .. } => Expr::StringLit { ptr, hash },
        };
        assert(r.words() =~= self.words());
        r
    }

    /// The two terms differ in their hashes at most.
    pub open spec fn same_parts(self, other: Expr) -> bool {
        match (self, other) {
            (Expr::Var { dbj_idx: dbj_idx0, .. }, Expr::Var { dbj_idx: dbj_idx1, .. }) => dbj_idx0 == dbj_idx1,
            (Expr::Sort { level: level0, .. }, Expr::Sort { level: level1, .. }) => level0 == level1,
            (Expr::Const { name: name0, levels: levels0, .. }, Expr::Const { name: name1, levels: levels1, .. }) => name0 == name1 && levels0 == levels1,
            (Expr::App { fun: fun0, arg: arg0, num_loose_bvars: num_loose_bvars0, has_fvars: has_fvars0, depth: depth0, .. }, Expr::App { fun: fun1, arg: arg1, num_loose_bvars: num_loose_bvars1, has_fvars: has_fvars1, depth: depth1, .. }) => fun0 == fun1 && arg0 == arg1 && num_loose_bvars0 == num_loose_bvars1 && has_fvars0 == has_fvars1 && depth0 == depth1,
            (Expr::Lambda { binder_name: binder_name0, binder_style: binder_style0, binder_type: binder_type0, body: body0, num_loose_bvars: num_loose_bvars0, has_fvars: has_fvars0, depth: depth0, .. }, Expr::Lambda { binder_name: binder_name1, binder_style: binder_style1, binder_type: binder_type1, body: body1, num_loose_bvars: num_loose_bvars1, has_fvars: has_fvars1, depth: depth1, .. }) => binder_name0 == binder_name1 && binder_style0 == binder_style1 && binder_type0 == binder_type1 && body0 == body1 && num_loose_bvars0 == num_loose_bvars1 && has_fvars0 == has_fvars1 && depth0 == depth1,
            (Expr::Pi { binder_name: binder_name0, binder_style: binder_style0, binder_type: binder_type0, body: body0, num_loose_bvars: num_loose_bvars0, has_fvars: has_fvars0, depth: depth0, .. }, Expr::Pi { binder_name: binder_name1, binder_style: binder_style1, binder_type: binder_type1, body: body1, num_loose_bvars: num_loose_bvars1, has_fvars: has_fvars1, depth: depth1, .. }) => binder_name0 == binder_name1 && binder_style0 == binder_style1 && binder_type0 == binder_type1 && body0 == body1 && num_loose_bvars0 == num_loose_bvars1 && has_fvars0 == has_fvars1 && depth0 == depth1,
            (Expr::Let { binder_name: binder_name0, binder_type: binder_type0, val: val0, body: body0, nondep: nondep0, num_loose_bvars: num_loose_bvars0, has_fvars: has_fvars0, depth: depth0, .. }, Expr::Let { binder_name: binder_name1, binder_type: binder_type1, val: val1, body: body1, nondep: nondep1, num_loose_bvars: num_loose_bvars1, has_fvars: has_fvars1, depth: depth1, .. }) => binder_name0 == binder_name1 && binder_type0 == binder_type1 && val0 == val1 && body0 == body1 && nondep0 == nondep1 && num_loose_bvars0 == num_loose_bvars1 && has_fvars0 == has_fvars1 && depth0 == depth1,
            (Expr::Local { binder_name: binder_name0, binder_style: binder_style0, binder_type: binder_type0, id: id0, depth: depth0, .. }, Expr::Local { binder_name: binder_name1, binder_style: binder_style1, binder_type: binder_type1, id: id1, depth: depth1, .. }) => binder_name0 == binder_name1 && binder_style0 == binder_style1 && binder_type0 == binder_type1 && id0 == id1 && depth0 == depth1,
            (Expr::Proj { ty_name: ty_name0, idx: idx0, structure: structure0, num_loose_bvars: num_loose_bvars0, has_fvars: has_fvars0, depth: depth0, .. }, Expr::Proj { ty_name: ty_name1, idx: idx1, structure: structure1, num_loose_bvars: num_loose_bvars1, has_fvars: has_fvars1, depth: depth1, .. }) => ty_name0 == ty_name1 && idx0 == idx1 && structure0 == structure1 && num_loose_bvars0 == num_loose_bvars1 && has_fvars0 == has_fvars1 && depth0 == depth1,
            (Expr::NatLit { ptr: ptr0, .. }, Expr::NatLit { ptr: ptr1, .. }) => ptr0 == ptr1,
            (Expr::StringLit { ptr: ptr0, .. }, Expr::StringLit { ptr: ptr1, .. }) => ptr0 == ptr1,
            _ => false,
        }
    }
}

impl Node for Expr {
    open spec fn like(&self, other: &Self) -> bool {
        &&& self.stored_hash() == other.stored_hash()
        &&& match (*self, *other) {
            (Expr::Var { dbj_idx: dbj_idx0, .. }, Expr::Var { dbj_idx: dbj_idx1, .. }) => dbj_idx0 == dbj_idx1,
            (Expr::Sort { level: level0, .. }, Expr::Sort { level: level1, .. }) => level0.at(level1),
            (Expr::Const { name: name0, levels: levels0, .. }, Expr::Const { name: name1, levels: levels1, .. }) => name0.at(name1) && levels0.at(levels1),
            (Expr::App { fun: fun0, arg: arg0, .. }, Expr::App { fun: fun1, arg: arg1, .. }) => fun0.at(fun1) && arg0.at(arg1),
            (Expr::Lambda { binder_name: binder_name0, binder_style: binder_style0, binder_type: binder_type0, body: body0, .. }, Expr::Lambda { binder_name: binder_name1, binder_style: binder_style1, binder_type: binder_type1, body: body1, .. }) => binder_name0.at(binder_name1) && binder_style0 == binder_style1 && binder_type0.at(binder_type1) && body0.at(body1),
            (Expr::Pi { binder_name: binder_name0, binder_style: binder_style0, binder_type: binder_type0, body: body0, .. }, Expr::Pi { binder_name: binder_name1, binder_style: binder_style1, binder_type: binder_type1, body: body1, .. }) => binder_name0.at(binder_name1) && binder_style0 == binder_style1 && binder_type0.at(binder_type1) && body0.at(body1),
            (Expr::Let { binder_name: binder_name0, binder_type: binder_type0, val: val0, body: body0, nondep: nondep0, .. }, Expr::Let { binder_name: binder_name1, binder_type: binder_type1, val: val1, body: body1, nondep: nondep1, .. }) => binder_name0.at(binder_name1) && binder_type0.at(binder_type1) && val0.at(val1) && body0.at(body1) && nondep0 == nondep1,
            (Expr::Local { binder_name: binder_name0, binder_style: binder_style0, binder_type: binder_type0, id: id0, .. }, Expr::Local { binder_name: binder_name1, binder_style: binder_style1, binder_type: binder_type1, id: id1, .. }) => binder_name0.at(binder_name1) && binder_style0 == binder_style1 && binder_type0.at(binder_type1) && id0 == id1,
            (Expr::Proj { ty_name: ty_name0, idx: idx0, structure: structure0, .. }, Expr::Proj { ty_name: ty_name1, idx: idx1, structure: structure1, .. }) => ty_name0.at(ty_name1) && idx0 == idx1 && structure0.at(structure1),
            (Expr::NatLit { ptr: ptr0, .. }, Expr::NatLit { ptr: ptr1, .. }) => ptr0.at(ptr1),
            (Expr::StringLit { ptr: ptr0, .. }, Expr::StringLit { ptr: ptr1, .. }) => ptr0.at(ptr1),
            _ => false,
        }
    }

    open spec fn digest(&self) -> u64 {
        fx_hash_of(seq![self.stored_hash()])
    }

    proof fn digest_of_like(&self, other: &Self) {
    }

    fn is_like(&self, other: &Self) -> (r: bool) {
        if self.get_hash() != other.get_hash() {
            return false;
        }
        match (self, other) {
            (Expr::Var { dbj_idx: dbj_idx0, .. }, Expr::Var { dbj_idx: dbj_idx1, .. }) => *dbj_idx0 == *dbj_idx1,
            (Expr::Sort { level: level0, .. }, Expr::Sort { level: level1, .. }) => level0.is_at(*level1),
            (Expr::Const { name: name0, levels: levels0, .. }, Expr::Const { name: name1, levels: levels1, .. }) => name0.is_at(*name1) && levels0.is_at(*levels1),
            (Expr::App { fun: fun0, arg: arg0, .. }, Expr::App { fun: fun1, arg: arg1, .. }) => fun0.is_at(*fun1) && arg0.is_at(*arg1),
            (Expr::Lambda { binder_name: binder_name0, binder_style: binder_style0, binder_type: binder_type0, body: body0, .. }, Expr::Lambda { binder_name: binder_name1, binder_style: binder_style1, binder_type: binder_type1, body: body1, .. }) => binder_name0.is_at(*binder_name1) && *binder_style0 == *binder_style1 && binder_type0.is_at(*binder_type1) && body0.is_at(*body1),
            (Expr::Pi { binder_name: binder_name0, binder_style: binder_style0, binder_type: binder_type0, body: body0, .. }, Expr::Pi { binder_name: binder_name1, binder_style: binder_style1, binder_type: binder_type1, body: body1, .. }) => binder_name0.is_at(*binder_name1) && *binder_style0 == *binder_style1 && binder_type0.is_at(*binder_type1) && body0.is_at(*body1),
            (Expr::Let { binder_name: binder_name0, binder_type: binder_type0, val: val0, body: body0, nondep: nondep0, .. }, Expr::Let { binder_name: binder_name1, binder_type: binder_type1, val: val1, body: body1, nondep: nondep1, .. }) => binder_name0.is_at(*binder_name1) && binder_type0.is_at(*binder_type1) && val0.is_at(*val1) && body0.is_at(*body1) && *nondep0 == *nondep1,
            (Expr::Local { binder_name: binder_name0, binder_style: binder_style0, binder_type: binder_type0, id: id0, .. }, Expr::Local { binder_name: binder_name1, binder_style: binder_style1, binder_type: binder_type1, id: id1, .. }) => binder_name0.is_at(*binder_name1) && *binder_style0 == *binder_style1 && binder_type0.is_at(*binder_type1) && *id0 == *id1,
            (Expr::Proj { ty_name: ty_name0, idx: idx0, structure: structure0, .. }, Expr::Proj { ty_name: ty_name1, idx: idx1, structure: structure1, .. }) => ty_name0.is_at(*ty_name1) && *idx0 == *idx1 && structure0.is_at(*structure1),
            (Expr::NatLit { ptr: ptr0, .. }, Expr::NatLit { ptr: ptr1, .. }) => ptr0.is_at(*ptr1),
            (Expr::StringLit { ptr: ptr0, .. }, Expr::StringLit { ptr: ptr1, .. }) => ptr0.is_at(*ptr1),
            _ => false,
        }
    }

    fn struct_hash(&self) -> (r: u64) {
        let mut w: Vec<u64> = Vec::new();
        w.push(self.get_hash());
        assert(w@ =~= seq![self.stored_hash()]);
        fx_hash(&w)
    }
}

/// The term refers to something that only the session has.
pub open spec fn refers_to_session(e: Expr) -> bool {
    match e {
        Expr::StringLit { ptr, .. } => ptr.local,
        Expr::NatLit { ptr, .. } => ptr.local,
        Expr::Proj { ty_name, structure, .. } => ty_name.local || structure.local,
        Expr::Var { .. } => false,
        Expr::Sort { level, .. } => level.local,
        Expr::Const { name, levels, .. } => name.local || levels.local,
        Expr::App { fun, arg, .. } => fun.local || arg.local,
        Expr::Pi { binder_name, binder_type, body, .. } => {
            binder_name.local || binder_type.local || body.local
        },
        Expr::Lambda { binder_name, binder_type, body, .. } => {
            binder_name.local || binder_type.local || body.local
        },
        Expr::Let { binder_name, binder_type, val, body, .. } => {
            binder_name.local || binder_type.local || val.local || body.local
        },
        Expr::Local { .. } => true,
    }
}

/// Whether the term refers to something that only the session has.
pub fn is_expr_local_only(e: &Expr) -> (r: bool)
    ensures
        r == refers_to_session(*e),
{
    match *e {
        Expr::StringLit { ptr, .. } => ptr.is_local(),
        Expr::NatLit { ptr, .. } => ptr.is_local(),
        Expr::Proj { ty_name, structure, .. } => ty_name.is_local() || structure.is_local(),
        Expr::Var { .. } => false,
        Expr::Sort { level, .. } => level.is_local(),
        Expr::Const { name, levels, .. } => name.is_local() || levels.is_local(),
        Expr::App { fun, arg, .. } => fun.is_local() || arg.is_local(),
        Expr::Pi { binder_name, binder_type, body, .. } => {
            binder_name.is_local() || binder_type.is_local() || body.is_local()
        },
        Expr::Lambda { binder_name, binder_type, body, .. } => {
            binder_name.is_local() || binder_type.is_local() || body.is_local()
        },
        Expr::Let { binder_name, binder_type, val, body, .. } => {
            binder_name.is_local() || binder_type.is_local() || val.is_local() || body.is_local()
        },
        Expr::Local { .. } => true,
    }
}

} // verus!
