//! Building names, levels and terms in a context.
use crate::bignum::BigNat;
use crate::ctx::TcCtx;
use crate::expr::Expr;
use crate::level::Level;
use crate::name::Name;
use crate::ptr::{BigUintPtr, ExprPtr, LevelPtr, LevelsPtr, NamePtr, StringPtr};
use crate::tree::{
    depth_bound, has_local, loose, nm_concat, nm_replace_pfx, BinderStyle, FVarId, Lv, Nm, Tm,
};
use vstd::prelude::*;

verus! {

/// The digits of a number.
pub open spec fn decimal(n: nat) -> Seq<char>
    decreases n,
{
    if n < 10 {
        seq![digit_char(n)]
    } else {
        decimal(n / 10).push(digit_char(n % 10))
    }
}

/// The digit of a number below ten.
pub open spec fn digit_char(d: nat) -> char {
    if d == 0 {
        '0'
    } else if d == 1 {
        '1'
    } else if d == 2 {
        '2'
    } else if d == 3 {
        '3'
    } else if d == 4 {
        '4'
    } else if d == 5 {
        '5'
    } else if d == 6 {
        '6'
    } else if d == 7 {
        '7'
    } else if d == 8 {
        '8'
    } else {
        '9'
    }
}

fn append_digit(s: &mut String, d: u64)
    requires
        d < 10,
    ensures
        final(s)@ == old(s)@.push(digit_char(d as nat)),
{
    proof {
        reveal_strlit("0");
        reveal_strlit("1");
        reveal_strlit("2");
        reveal_strlit("3");
        reveal_strlit("4");
        reveal_strlit("5");
        reveal_strlit("6");
        reveal_strlit("7");
        reveal_strlit("8");
        reveal_strlit("9");
    }
    let lit = if d == 0 {
        "0"
    } else if d == 1 {
        "1"
    } else if d == 2 {
        "2"
    } else if d == 3 {
        "3"
    } else if d == 4 {
        "4"
    } else if d == 5 {
        "5"
    } else if d == 6 {
        "6"
    } else if d == 7 {
        "7"
    } else if d == 8 {
        "8"
    } else {
        "9"
    };
    s.append(lit);
    assert(s@ =~= old(s)@.push(digit_char(d as nat)));
}

fn append_decimal(s: &mut String, n: u64)
    ensures
        final(s)@ == old(s)@ + decimal(n as nat),
    decreases n,
{
    if n < 10 {
        append_digit(s, n);
        assert(s@ =~= old(s)@ + decimal(n as nat));
    } else {
        append_decimal(s, n / 10);
        append_digit(s, n % 10);
        assert(s@ =~= old(s)@ + decimal(n as nat));
    }
}

/// The name with `_` and the index behind its last component.
pub open spec fn nm_indexed(n: Nm, idx: nat) -> Nm {
    match n {
        Nm::Str(p, s) => Nm::Str(p, s + seq!['_'] + decimal(idx)),
        _ => Nm::Str(Box::new(n), seq!['_'] + decimal(idx)),
    }
}

impl<'t> TcCtx<'t> {
    /// Whether two names are equal.
    pub fn eq_name(&self, p: NamePtr, q: NamePtr) -> (r: bool)
        requires
            self.wf(),
            self.has_name(p),
            self.has_name(q),
        ensures
            r == (p@ == q@),
    {
        proof {
            self.names_unique(p, q);
        }
        p.is_at(q)
    }

    /// Whether two levels are equal.
    pub fn eq_level(&self, p: LevelPtr, q: LevelPtr) -> (r: bool)
        requires
            self.wf(),
            self.has_level(p),
            self.has_level(q),
        ensures
            r == (p@ == q@),
    {
        proof {
            self.levels_unique(p, q);
        }
        p.is_at(q)
    }

    /// Whether two lists of levels are equal.
    pub fn eq_levels(&self, p: LevelsPtr, q: LevelsPtr) -> (r: bool)
        requires
            self.wf(),
            self.has_levels(p),
            self.has_levels(q),
        ensures
            r == (p@ == q@),
    {
        proof {
            self.lists_unique(p, q);
        }
        p.is_at(q)
    }

    /// Whether two terms are equal.
    pub fn eq_expr(&self, p: ExprPtr, q: ExprPtr) -> (r: bool)
        requires
            self.wf(),
            self.has_expr(p),
            self.has_expr(q),
        ensures
            r == (p@ == q@),
    {
        proof {
            self.exprs_unique(p, q);
        }
        p.is_at(q)
    }

    /// Whether a name is the known one.
    pub fn is_known(&self, p: NamePtr, known: Option<NamePtr>) -> (r: bool)
        requires
            self.wf(),
            self.has_name(p),
            known matches Some(q) ==> self.has_name(q),
        ensures
            r <==> (known matches Some(q) && q@ == p@),
    {
        match known {
            Some(q) => self.eq_name(p, q),
            None => false,
        }
    }

    /// The anonymous name.
    pub fn anonymous(&self) -> (r: NamePtr)
        requires
            self.wf(),
        ensures
            self.has_name(r),
            r@ == Nm::Anon,
    {
        proof {
            self.fixed_nodes();
        }
        self.anon
    }

    /// A name with one more component.
    pub fn str(&mut self, pfx: NamePtr, sfx: StringPtr) -> (r: NamePtr)
        requires
            old(self).wf(),
            old(self).has_name(pfx),
            old(self).has_string(sfx),
        ensures
            final(self).wf(),
            old(self).grows_to(*final(self)),
            final(self).has_name(r),
            r@ == Nm::Str(Box::new(pfx@), sfx@),
    {
        self.alloc_name(Name::mk_str(pfx, sfx))
    }

    /// A name of one component.
    pub fn str1_owned(&mut self, s: String) -> (r: NamePtr)
        requires
            old(self).wf(),
        ensures
            final(self).wf(),
            old(self).grows_to(*final(self)),
            final(self).has_name(r),
            r@ == Nm::Str(Box::new(Nm::Anon), s@),
    {
        let anon = self.alloc_name(Name::Anon);
        let s = self.alloc_string(s);
        self.str(anon, s)
    }

    /// A name of one component.
    pub fn str1(&mut self, s: &str) -> (r: NamePtr)
        requires
            old(self).wf(),
        ensures
            final(self).wf(),
            old(self).grows_to(*final(self)),
            final(self).has_name(r),
            r@ == Nm::Str(Box::new(Nm::Anon), s@),
    {
        self.str1_owned(s.to_owned())
    }

    /// A name of two components.
    pub fn str2(&mut self, s1: &str, s2: &str) -> (r: NamePtr)
        requires
            old(self).wf(),
        ensures
            final(self).wf(),
            old(self).grows_to(*final(self)),
            final(self).has_name(r),
            r@ == Nm::Str(Box::new(Nm::Str(Box::new(Nm::Anon), s1@)), s2@),
    {
        let s1 = self.alloc_string(s1.to_owned());
        let s2 = self.alloc_string(s2.to_owned());
        let n = self.anonymous();
        let n = self.str(n, s1);
        self.str(n, s2)
    }

    /// A name with one more component, a number.
    pub fn num(&mut self, pfx: NamePtr, sfx: u64) -> (r: NamePtr)
        requires
            old(self).wf(),
            old(self).has_name(pfx),
        ensures
            final(self).wf(),
            old(self).grows_to(*final(self)),
            final(self).has_name(r),
            r@ == Nm::Num(Box::new(pfx@), sfx),
    {
        self.alloc_name(Name::mk_num(pfx, sfx))
    }

    /// The components of one name behind those of another.
    pub fn concat_name(&mut self, n1: NamePtr, n2: NamePtr) -> (r: NamePtr)
        requires
            old(self).wf(),
            old(self).has_name(n1),
            old(self).has_name(n2),
        ensures
            final(self).wf(),
            old(self).grows_to(*final(self)),
            final(self).has_name(r),
            r@ == nm_concat(n1@, n2@),
        decreases n2@,
    {
        match self.read_name(n2) {
            Name::Anon => n1,
            Name::Str(pfx, sfx, _) => {
                let pfx = self.concat_name(n1, pfx);
                self.str(pfx, sfx)
            },
            Name::Num(pfx, sfx, _) => {
                let pfx = self.concat_name(n1, pfx);
                self.num(pfx, sfx)
            },
        }
    }

    /// The name with `_` and an index behind its last component.
    pub fn append_index_after(&mut self, n: NamePtr, idx: u64) -> (r: NamePtr)
        requires
            old(self).wf(),
            old(self).has_name(n),
        ensures
            final(self).wf(),
            old(self).grows_to(*final(self)),
            final(self).has_name(r),
            r@ == nm_indexed(n@, idx as nat),
    {
        proof {
            reveal_strlit("_");
        }
        match self.read_name(n) {
            Name::Str(pfx, sfx, _) => {
                let mut s: String = self.read_string(sfx).clone();
                s.append("_");
                append_decimal(&mut s, idx);
                assert(s@ =~= sfx@ + seq!['_'] + decimal(idx as nat));
                let s = self.alloc_string(s);
                self.str(pfx, s)
            },
            _ => {
                let mut s: String = "_".to_owned();
                append_decimal(&mut s, idx);
                assert(s@ =~= seq!['_'] + decimal(idx as nat));
                let s = self.alloc_string(s);
                self.str(n, s)
            },
        }
    }

    /// The name with one prefix replaced by another.
    pub fn replace_pfx(&mut self, n: NamePtr, outgoing: NamePtr, incoming: NamePtr) -> (r: NamePtr)
        requires
            old(self).wf(),
            old(self).has_name(n),
            old(self).has_name(outgoing),
            old(self).has_name(incoming),
        ensures
            final(self).wf(),
            old(self).grows_to(*final(self)),
            final(self).has_name(r),
            r@ == nm_replace_pfx(n@, outgoing@, incoming@),
        decreases n@,
    {
        match self.read_name(n) {
            Name::Anon => match self.read_name(outgoing) {
                Name::Anon => incoming,
                _ => self.anonymous(),
            },
            Name::Str(pfx, sfx, _) => {
                if self.eq_name(n, outgoing) {
                    return incoming;
                }
                let pfx = self.replace_pfx(pfx, outgoing, incoming);
                self.str(pfx, sfx)
            },
            Name::Num(pfx, sfx, _) => {
                if self.eq_name(n, outgoing) {
                    return incoming;
                }
                let pfx = self.replace_pfx(pfx, outgoing, incoming);
                self.num(pfx, sfx)
            },
        }
    }

    /// The level zero.
    pub fn zero(&self) -> (r: LevelPtr)
        requires
            self.wf(),
        ensures
            self.has_level(r),
            r@ == Lv::Zero,
    {
        proof {
            self.fixed_nodes();
        }
        self.zero
    }

    /// The level one above.
    pub fn succ(&mut self, l: LevelPtr) -> (r: LevelPtr)
        requires
            old(self).wf(),
            old(self).has_level(l),
        ensures
            final(self).wf(),
            old(self).grows_to(*final(self)),
            final(self).has_level(r),
            r@ == Lv::Succ(Box::new(l@)),
    {
        self.alloc_level(Level::mk_succ(l))
    }

    /// The larger of two levels.
    pub fn max(&mut self, l: LevelPtr, r: LevelPtr) -> (out: LevelPtr)
        requires
            old(self).wf(),
            old(self).has_level(l),
            old(self).has_level(r),
        ensures
            final(self).wf(),
            old(self).grows_to(*final(self)),
            final(self).has_level(out),
            out@ == Lv::Max(Box::new(l@), Box::new(r@)),
    {
        self.alloc_level(Level::mk_max(l, r))
    }

    /// The larger of two levels, or zero where the second is zero.
    pub fn imax(&mut self, l: LevelPtr, r: LevelPtr) -> (out: LevelPtr)
        requires
            old(self).wf(),
            old(self).has_level(l),
            old(self).has_level(r),
        ensures
            final(self).wf(),
            old(self).grows_to(*final(self)),
            final(self).has_level(out),
            out@ == Lv::IMax(Box::new(l@), Box::new(r@)),
    {
        self.alloc_level(Level::mk_imax(l, r))
    }

    /// A universe parameter.
    pub fn param(&mut self, n: NamePtr) -> (r: LevelPtr)
        requires
            old(self).wf(),
            old(self).has_name(n),
        ensures
            final(self).wf(),
            old(self).grows_to(*final(self)),
            final(self).has_level(r),
            r@ == Lv::Param(n@),
    {
        self.alloc_level(Level::mk_param(n))
    }

    /// The number of bound variables that a term leaves to binders around it.
    pub fn num_loose_bvars(&self, e: ExprPtr) -> (r: u32)
        requires
            self.wf(),
            self.has_expr(e),
        ensures
            r == loose(e@),
    {
        self.read_expr_ref(e).num_loose_bvars()
    }

    /// Whether free variables occur in a term.
    pub fn has_fvars(&self, e: ExprPtr) -> (r: bool)
        requires
            self.wf(),
            self.has_expr(e),
        ensures
            r == has_local(e@),
    {
        self.read_expr_ref(e).has_fvars()
    }

    /// A bound on the depths of the free variables in a term.
    pub fn depth(&self, e: ExprPtr) -> (r: u32)
        requires
            self.wf(),
            self.has_expr(e),
        ensures
            r == depth_bound(e@),
    {
        self.read_expr_ref(e).depth()
    }

    /// A bound variable.
    pub fn mk_var(&mut self, dbj_idx: u16) -> (r: ExprPtr)
        requires
            old(self).wf(),
        ensures
            final(self).wf(),
            old(self).grows_to(*final(self)),
            final(self).has_expr(r),
            r@ == Tm::Var(dbj_idx as nat),
    {
        let e = Expr::Var { dbj_idx, hash: 0 };
        self.alloc_expr(e.hashed())
    }

    /// A universe.
    pub fn mk_sort(&mut self, level: LevelPtr) -> (r: ExprPtr)
        requires
            old(self).wf(),
            old(self).has_level(level),
        ensures
            final(self).wf(),
            old(self).grows_to(*final(self)),
            final(self).has_expr(r),
            r@ == Tm::Sort(level@),
    {
        let e = Expr::Sort { level, hash: 0 };
        self.alloc_expr(e.hashed())
    }

    /// A constant.
    pub fn mk_const(&mut self, name: NamePtr, levels: LevelsPtr) -> (r: ExprPtr)
        requires
            old(self).wf(),
            old(self).has_name(name),
            old(self).has_levels(levels),
        ensures
            final(self).wf(),
            old(self).grows_to(*final(self)),
            final(self).has_expr(r),
            r@ == Tm::Const(name@, levels@),
    {
        let e = Expr::Const { name, levels, hash: 0 };
        self.alloc_expr(e.hashed())
    }

    /// An application.
    pub fn mk_app(&mut self, fun: ExprPtr, arg: ExprPtr) -> (r: ExprPtr)
        requires
            old(self).wf(),
            old(self).has_expr(fun),
            old(self).has_expr(arg),
        ensures
            final(self).wf(),
            old(self).grows_to(*final(self)),
            final(self).has_expr(r),
            r@ == Tm::App(Box::new(fun@), Box::new(arg@)),
    {
        let num_loose_bvars: u32 = wider(self.num_loose_bvars(fun), self.num_loose_bvars(arg));
        let has_fvars = self.has_fvars(fun) || self.has_fvars(arg);
        let depth: u32 = wider(self.depth(fun), self.depth(arg));
        let e = Expr::App { fun, arg, num_loose_bvars, has_fvars, depth, hash: 0 };
        self.alloc_expr(e.hashed())
    }

    /// A function.
    pub fn mk_lambda(
        &mut self,
        binder_name: NamePtr,
        binder_style: BinderStyle,
        binder_type: ExprPtr,
        body: ExprPtr,
    ) -> (r: ExprPtr)
        requires
            old(self).wf(),
            old(self).has_name(binder_name),
            old(self).has_expr(binder_type),
            old(self).has_expr(body),
        ensures
            final(self).wf(),
            old(self).grows_to(*final(self)),
            final(self).has_expr(r),
            r@ == Tm::Lam(binder_name@, binder_style, Box::new(binder_type@), Box::new(body@)),
    {
        let num_loose_bvars: u32 = wider(
            self.num_loose_bvars(binder_type),
            one_off(self.num_loose_bvars(body)),
        );
        let has_fvars = self.has_fvars(binder_type) || self.has_fvars(body);
        let depth: u32 = wider(self.depth(binder_type), self.depth(body));
        let e = Expr::Lambda {
            binder_name,
            binder_style,
            binder_type,
            body,
            num_loose_bvars,
            has_fvars,
            depth,
            hash: 0,
        };
        self.alloc_expr(e.hashed())
    }

    /// A function type.
    pub fn mk_pi(
        &mut self,
        binder_name: NamePtr,
        binder_style: BinderStyle,
        binder_type: ExprPtr,
        body: ExprPtr,
    ) -> (r: ExprPtr)
        requires
            old(self).wf(),
            old(self).has_name(binder_name),
            old(self).has_expr(binder_type),
            old(self).has_expr(body),
        ensures
            final(self).wf(),
            old(self).grows_to(*final(self)),
            final(self).has_expr(r),
            r@ == Tm::Pi(binder_name@, binder_style, Box::new(binder_type@), Box::new(body@)),
    {
        let num_loose_bvars: u32 = wider(
            self.num_loose_bvars(binder_type),
            one_off(self.num_loose_bvars(body)),
        );
        let has_fvars = self.has_fvars(binder_type) || self.has_fvars(body);
        let depth: u32 = wider(self.depth(binder_type), self.depth(body));
        let e = Expr::Pi {
            binder_name,
            binder_style,
            binder_type,
            body,
            num_loose_bvars,
            has_fvars,
            depth,
            hash: 0,
        };
        self.alloc_expr(e.hashed())
    }

    /// A local definition.
    pub fn mk_let(
        &mut self,
        binder_name: NamePtr,
        binder_type: ExprPtr,
        val: ExprPtr,
        body: ExprPtr,
        nondep: bool,
    ) -> (r: ExprPtr)
        requires
            old(self).wf(),
            old(self).has_name(binder_name),
            old(self).has_expr(binder_type),
            old(self).has_expr(val),
            old(self).has_expr(body),
        ensures
            final(self).wf(),
            old(self).grows_to(*final(self)),
            final(self).has_expr(r),
            r@ == Tm::Let(
                binder_name@,
                Box::new(binder_type@),
                Box::new(val@),
                Box::new(body@),
                nondep,
            ),
    {
        let num_loose_bvars: u32 = wider(
            self.num_loose_bvars(binder_type),
            wider(self.num_loose_bvars(val), one_off(self.num_loose_bvars(body))),
        );
        let has_fvars = self.has_fvars(binder_type) || self.has_fvars(val) || self.has_fvars(body);
        let depth: u32 = wider(
            self.depth(binder_type),
            wider(self.depth(val), self.depth(body)),
        );
        let e = Expr::Let {
            binder_name,
            binder_type,
            val,
            body,
            num_loose_bvars,
            has_fvars,
            depth,
            nondep,
            hash: 0,
        };
        self.alloc_expr(e.hashed())
    }

    /// A projection.
    pub fn mk_proj(&mut self, ty_name: NamePtr, idx: usize, structure: ExprPtr) -> (r: ExprPtr)
        requires
            old(self).wf(),
            old(self).has_name(ty_name),
            old(self).has_expr(structure),
        ensures
            final(self).wf(),
            old(self).grows_to(*final(self)),
            final(self).has_expr(r),
            r@ == Tm::Proj(ty_name@, idx as nat, Box::new(structure@)),
    {
        let num_loose_bvars: u32 = self.num_loose_bvars(structure);
        let has_fvars = self.has_fvars(structure);
        let depth: u32 = self.depth(structure);
        let e = Expr::Proj { ty_name, idx, structure, num_loose_bvars, has_fvars, depth, hash: 0 };
        self.alloc_expr(e.hashed())
    }

    /// A string literal, where there are such.
    pub fn mk_string_lit(&mut self, string_ptr: StringPtr) -> (r: Option<ExprPtr>)
        requires
            old(self).wf(),
            old(self).has_string(string_ptr),
        ensures
            final(self).wf(),
            old(self).grows_to(*final(self)),
            r is Some <==> old(self).string_extension,
            r matches Some(p) ==> final(self).has_expr(p) && p@ == Tm::StrLit(string_ptr@),
    {
        if !self.string_extension {
            return None;
        }
        let e = Expr::StringLit { ptr: string_ptr, hash: 0 };
        Some(self.alloc_expr(e.hashed()))
    }

    /// A string literal, where there are such.
    pub fn mk_string_lit_quick(&mut self, s: String) -> (r: Option<ExprPtr>)
        requires
            old(self).wf(),
        ensures
            final(self).wf(),
            old(self).grows_to(*final(self)),
            r is Some <==> old(self).string_extension,
            r matches Some(p) ==> final(self).has_expr(p) && p@ == Tm::StrLit(s@),
    {
        if !self.string_extension {
            return None;
        }
        let string_ptr = self.alloc_string(s);
        self.mk_string_lit(string_ptr)
    }

    /// A number literal, where there are such.
    pub fn mk_nat_lit(&mut self, num_ptr: BigUintPtr) -> (r: Option<ExprPtr>)
        requires
            old(self).wf(),
            old(self).has_big(num_ptr),
        ensures
            final(self).wf(),
            old(self).grows_to(*final(self)),
            r is Some <==> old(self).nat_extension,
            r matches Some(p) ==> final(self).has_expr(p) && p@ == Tm::NatLit(num_ptr@),
    {
        if !self.nat_extension {
            return None;
        }
        let e = Expr::NatLit { ptr: num_ptr, hash: 0 };
        Some(self.alloc_expr(e.hashed()))
    }

    /// A number literal, where there are such.
    pub fn mk_nat_lit_quick(&mut self, n: BigNat) -> (r: Option<ExprPtr>)
        requires
            old(self).wf(),
            n.wf(),
        ensures
            final(self).wf(),
            old(self).grows_to(*final(self)),
            r is Some <==> old(self).nat_extension,
            r matches Some(p) ==> final(self).has_expr(p) && p@ == Tm::NatLit(n@),
    {
        let num_ptr = match self.alloc_bignum(n) {
            Some(p) => p,
            None => {
                return None;
            },
        };
        self.mk_nat_lit(num_ptr)
    }

    /// The free variable of the binder that is opened next, which is then open.
    pub fn mk_dbj_level(
        &mut self,
        binder_name: NamePtr,
        binder_style: BinderStyle,
        binder_type: ExprPtr,
    ) -> (r: ExprPtr)
        requires
            old(self).wf(),
            old(self).base is Some,
            old(self).has_name(binder_name),
            old(self).has_expr(binder_type),
            old(self).dbj_level_counter < u16::MAX,
        ensures
            final(self).wf(),
            old(self).extended_by(*final(self)),
            final(self).unique_counter == old(self).unique_counter,
            final(self).dbj_level_counter == old(self).dbj_level_counter + 1,
            final(self).has_expr(r),
            r@ == Tm::Local(
                binder_name@,
                binder_style,
                Box::new(binder_type@),
                FVarId::DbjLevel(old(self).dbj_level_counter),
            ),
    {
        let level: u16 = self.dbj_level_counter;
        let r = self.remake_dbj_level(binder_name, binder_style, binder_type, level);
        self.set_depth(level + 1);
        r
    }

    /// The free variable of a binder at a given depth.
    pub fn remake_dbj_level(
        &mut self,
        binder_name: NamePtr,
        binder_style: BinderStyle,
        binder_type: ExprPtr,
        level: u16,
    ) -> (r: ExprPtr)
        requires
            old(self).wf(),
            old(self).base is Some,
            old(self).has_name(binder_name),
            old(self).has_expr(binder_type),
        ensures
            final(self).wf(),
            old(self).grows_to(*final(self)),
            final(self).has_expr(r),
            r@ == Tm::Local(
                binder_name@,
                binder_style,
                Box::new(binder_type@),
                FVarId::DbjLevel(level),
            ),
    {
        let depth: u32 = wider(level as u32 + 1, self.depth(binder_type));
        let e = Expr::Local {
            binder_name,
            binder_style,
            binder_type,
            id: FVarId::DbjLevel(level),
            depth,
            hash: 0,
        };
        self.alloc_expr(e.hashed())
    }

    /// A free variable with a number that no other has.
    pub fn mk_unique(
        &mut self,
        binder_name: NamePtr,
        binder_style: BinderStyle,
        binder_type: ExprPtr,
    ) -> (r: ExprPtr)
        requires
            old(self).wf(),
            old(self).base is Some,
            old(self).has_name(binder_name),
            old(self).has_expr(binder_type),
            old(self).unique_counter < u32::MAX,
        ensures
            final(self).wf(),
            old(self).extended_by(*final(self)),
            final(self).dbj_level_counter == old(self).dbj_level_counter,
            final(self).unique_counter == old(self).unique_counter + 1,
            final(self).has_expr(r),
            r@ == Tm::Local(
                binder_name@,
                binder_style,
                Box::new(binder_type@),
                FVarId::Unique(old(self).unique_counter),
            ),
    {
        let unique_id: u32 = self.unique_counter;
        let depth: u32 = self.depth(binder_type);
        let e = Expr::Local {
            binder_name,
            binder_style,
            binder_type,
            id: FVarId::Unique(unique_id),
            depth,
            hash: 0,
        };
        let r = self.alloc_expr(e.hashed());
        self.set_unique(unique_id + 1);
        r
    }

    /// Closes the binder that was opened last. The term is its variable.
    pub fn replace_dbj_level(&mut self, e: ExprPtr)
        requires
            old(self).wf(),
            old(self).has_expr(e),
            e@ matches Tm::Local(_, _, _, FVarId::DbjLevel(l)) && l + 1
                == old(self).dbj_level_counter,
        ensures
            final(self).wf(),
            old(self).extended_by(*final(self)),
            final(self).unique_counter == old(self).unique_counter,
            final(self).dbj_level_counter == old(self).dbj_level_counter - 1,
    {
        match self.read_expr(e) {
            Expr::Local { id: FVarId::DbjLevel(level), .. } => {
                self.set_depth(level);
            },
            _ => {},
        }
    }

    /// The bound variable for the free variable at a given depth.
    pub fn fvar_to_bvar(&mut self, num_open_binders: u16, dbj_level: u16) -> (r: ExprPtr)
        requires
            old(self).wf(),
            dbj_level < num_open_binders,
        ensures
            final(self).wf(),
            old(self).grows_to(*final(self)),
            final(self).has_expr(r),
            r@ == Tm::Var((num_open_binders - dbj_level - 1) as nat),
    {
        self.mk_var((num_open_binders - dbj_level) - 1)
    }
}

fn wider(x: u32, y: u32) -> (r: u32)
    ensures
        r == crate::tree::larger(x as nat, y as nat),
{
    if x <= y {
        y
    } else {
        x
    }
}

fn one_off(x: u32) -> (r: u32)
    ensures
        r == crate::tree::less_one(x as nat),
{
    if x == 0 {
        0
    } else {
        x - 1
    }
}

} // verus!
