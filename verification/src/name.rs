//! Hierarchical names as they are stored.
use crate::hash::{fx_hash, fx_hash_of, Node};
use crate::ptr::{NamePtr, StringPtr};
use crate::tree::Nm;
use vstd::prelude::*;

verus! {

/// The hash of the anonymous name.
pub const ANON_HASH: u64 = 43;

/// The first word that is hashed for a name that ends in a string.
pub const STR_HASH: u64 = 911;

/// The first word that is hashed for a name that ends in a number.
pub const NUM_HASH: u64 = 103;

/// A name: nothing, or a prefix followed by a string or by a number, with its hash.
#[derive(Clone, Copy)]
pub enum Name {
    Anon,
    Str(NamePtr, StringPtr, u64),
    Num(NamePtr, u64, u64),
}

impl Name {
    /// The name as a tree.
    pub open spec fn tree(self) -> Nm {
        match self {
            Name::Anon => Nm::Anon,
            Name::Str(p, s, _) => Nm::Str(Box::new(p@), s@),
            Name::Num(p, n, _) => Nm::Num(Box::new(p@), n),
        }
    }

    /// The hash that the name holds.
    pub open spec fn stored_hash(self) -> u64 {
        match self {
            Name::Anon => ANON_HASH,
            Name::Str(_, _, h) => h,
            Name::Num(_, _, h) => h,
        }
    }

    /// The hash that the name holds is that of its parts.
    pub open spec fn hash_ok(self) -> bool {
        match self {
            Name::Anon => true,
            Name::Str(p, s, h) => h == fx_hash_of(seq![STR_HASH, p.word(), s.word()]),
            Name::Num(p, n, h) => h == fx_hash_of(seq![NUM_HASH, p.word(), n]),
        }
    }

    /// The hash of the name.
    pub fn get_hash(&self) -> (r: u64)
        ensures
            r == self.stored_hash(),
    {
        match self {
            Name::Anon => ANON_HASH,
            Name::Str(_, _, hash) => *hash,
            Name::Num(_, _, hash) => *hash,
        }
    }

    /// The name that ends in a string.
    pub fn mk_str(pfx: NamePtr, sfx: StringPtr) -> (r: Name)
        ensures
            r.hash_ok(),
            r matches Name::Str(p, s, _) && p == pfx && s == sfx,
    {
        let mut w: Vec<u64> = Vec::new();
        w.push(STR_HASH);
        w.push(pfx.get_hash());
        w.push(sfx.get_hash());
        assert(w@ =~= seq![STR_HASH, pfx.word(), sfx.word()]);
        Name::Str(pfx, sfx, fx_hash(&w))
    }

    /// The name that ends in a number.
    pub fn mk_num(pfx: NamePtr, sfx: u64) -> (r: Name)
        ensures
            r.hash_ok(),
            r matches Name::Num(p, n, _) && p == pfx && n == sfx,
    {
        let mut w: Vec<u64> = Vec::new();
        w.push(NUM_HASH);
        w.push(pfx.get_hash());
        w.push(sfx);
        assert(w@ =~= seq![NUM_HASH, pfx.word(), sfx]);
        Name::Num(pfx, sfx, fx_hash(&w))
    }
}

impl Node for Name {
    open spec fn like(&self, other: &Self) -> bool {
        match (*self, *other) {
            (Name::Anon, Name::Anon) => true,
            (Name::Str(p, s, h), Name::Str(q, t, k)) => p.at(q) && s.at(t) && h == k,
            (Name::Num(p, m, h), Name::Num(q, n, k)) => p.at(q) && m == n && h == k,
            _ => false,
        }
    }

    open spec fn digest(&self) -> u64 {
        fx_hash_of(seq![self.stored_hash()])
    }

    proof fn digest_of_like(&self, other: &Self) {
    }

    fn is_like(&self, other: &Self) -> (r: bool) {
        match (self, other) {
            (Name::Anon, Name::Anon) => true,
            (Name::Str(p, s, h), Name::Str(q, t, k)) => p.is_at(*q) && s.is_at(*t) && *h == *k,
            (Name::Num(p, m, h), Name::Num(q, n, k)) => p.is_at(*q) && *m == *n && *h == *k,
            _ => false,
        }
    }

    fn struct_hash(&self) -> (r: u64) {
        let mut w: Vec<u64> = Vec::new();
        w.push(self.get_hash());
        assert(w@ =~= seq![self.stored_hash()]);
        fx_hash(&w)
    }
}

/// The declaration index of a name that names no declaration.
pub const NO_DECL: u32 = 0xffff_ffff;

/// The code of a name that names no operation on natural numbers.
pub const NO_NAT_RED: u8 = 0xff;

/// An operation on natural numbers that is computed on literals.
#[derive(Debug, Clone, Copy, PartialEq, Eq, Structural)]
pub enum NatRed {
    Succ,
    DivGo,
    ModCoreGo,
    Add,
    Sub,
    Mul,
    Pow,
    Mod,
    Div,
    Beq,
    Ble,
    LAnd,
    LOr,
    XOr,
    Gcd,
    Shl,
    Shr,
}

impl NatRed {
    /// The code of the operation.
    pub open spec fn code(self) -> u8 {
        match self {
            NatRed::Succ => 0,
            NatRed::DivGo => 1,
            NatRed::ModCoreGo => 2,
            NatRed::Add => 3,
            NatRed::Sub => 4,
            NatRed::Mul => 5,
            NatRed::Pow => 6,
            NatRed::Mod => 7,
            NatRed::Div => 8,
            NatRed::Beq => 9,
            NatRed::Ble => 10,
            NatRed::LAnd => 11,
            NatRed::LOr => 12,
            NatRed::XOr => 13,
            NatRed::Gcd => 14,
            NatRed::Shl => 15,
            NatRed::Shr => 16,
        }
    }

    /// The code of the operation.
    pub fn to_u8(self) -> (r: u8)
        ensures
            r == self.code(),
    {
        match self {
            NatRed::Succ => 0,
            NatRed::DivGo => 1,
            NatRed::ModCoreGo => 2,
            NatRed::Add => 3,
            NatRed::Sub => 4,
            NatRed::Mul => 5,
            NatRed::Pow => 6,
            NatRed::Mod => 7,
            NatRed::Div => 8,
            NatRed::Beq => 9,
            NatRed::Ble => 10,
            NatRed::LAnd => 11,
            NatRed::LOr => 12,
            NatRed::XOr => 13,
            NatRed::Gcd => 14,
            NatRed::Shl => 15,
            NatRed::Shr => 16,
        }
    }

    /// The operation with the given code.
    pub fn from_u8(k: u8) -> (r: Option<NatRed>)
        ensures
            r matches Some(op) ==> op.code() == k,
            r is Some <==> k <= 16,
    {
        Some(
            match k {
                0 => NatRed::Succ,
                1 => NatRed::DivGo,
                2 => NatRed::ModCoreGo,
                3 => NatRed::Add,
                4 => NatRed::Sub,
                5 => NatRed::Mul,
                6 => NatRed::Pow,
                7 => NatRed::Mod,
                8 => NatRed::Div,
                9 => NatRed::Beq,
                10 => NatRed::Ble,
                11 => NatRed::LAnd,
                12 => NatRed::LOr,
                13 => NatRed::XOr,
                14 => NatRed::Gcd,
                15 => NatRed::Shl,
                16 => NatRed::Shr,
                _ => return None,
            },
        )
    }
}

/// Two operations with one code are one operation.
pub proof fn nat_red_code_unique(a: NatRed, b: NatRed)
    requires
        a.code() == b.code(),
    ensures
        a == b,
{
}

/// A name together with what is known of the thing it names.
pub struct NameNode {
    kind: Name,
    decl_idx: u32,
    nat_red: u8,
}

impl NameNode {
    /// The name.
    pub closed spec fn name(self) -> Name {
        self.kind
    }

    /// The declaration index of the name.
    pub closed spec fn decl(self) -> u32 {
        self.decl_idx
    }

    /// The operation that the name stands for.
    pub closed spec fn red(self) -> Option<NatRed> {
        if exists|op: NatRed| op.code() == self.nat_red {
            Some(choose|op: NatRed| op.code() == self.nat_red)
        } else {
            None
        }
    }

    /// The stored code is that of an operation or the code for none.
    #[verifier::type_invariant]
    spec fn code_ok(self) -> bool {
        self.nat_red <= 16 || self.nat_red == NO_NAT_RED
    }

    proof fn red_of_code(self, op: NatRed)
        requires
            op.code() == self.nat_red,
        ensures
            self.red() == Some(op),
    {
        let c = choose|o: NatRed| o.code() == self.nat_red;
        nat_red_code_unique(c, op);
    }

    /// A name of which nothing is known yet.
    pub fn new(kind: Name) -> (r: Self)
        ensures
            r.name() == kind,
            r.decl() == NO_DECL,
            r.red() == None::<NatRed>,
    {
        NameNode { kind, decl_idx: NO_DECL, nat_red: NO_NAT_RED }
    }

    /// The name.
    pub fn kind(&self) -> (r: Name)
        ensures
            r == self.name(),
    {
        self.kind
    }

    /// The declaration index of the name.
    pub fn decl_idx(&self) -> (r: u32)
        ensures
            r == self.decl(),
    {
        self.decl_idx
    }

    /// Sets the declaration index of the name.
    pub fn set_decl_idx(&mut self, idx: u32)
        ensures
            final(self).decl() == idx,
            final(self).name() == old(self).name(),
            final(self).red() == old(self).red(),
    {
        proof {
            use_type_invariant(&*self);
        }
        self.decl_idx = idx;
    }

    /// Whether the name stands for an operation on natural numbers.
    pub fn is_nat_red(&self) -> (r: bool)
        ensures
            r == (self.red() is Some),
    {
        proof {
            use_type_invariant(&*self);
            if self.nat_red != NO_NAT_RED {
                self.red_of_code(NatRed::from_code(self.nat_red));
            }
        }
        self.nat_red != NO_NAT_RED
    }

    /// The operation that the name stands for.
    pub fn nat_red(&self) -> (r: Option<NatRed>)
        ensures
            r == self.red(),
    {
        let r = NatRed::from_u8(self.nat_red);
        proof {
            if let Some(op) = r {
                self.red_of_code(op);
            }
        }
        r
    }

    /// Sets the operation that the name stands for.
    pub fn set_nat_red(&mut self, k: NatRed)
        ensures
            final(self).red() == Some(k),
            final(self).name() == old(self).name(),
            final(self).decl() == old(self).decl(),
    {
        proof {
            use_type_invariant(&*self);
        }
        self.nat_red = k.to_u8();
        proof {
            self.red_of_code(k);
        }
    }
}

impl NatRed {
    spec fn from_code(k: u8) -> NatRed {
        match k {
            0 => NatRed::Succ,
            1 => NatRed::DivGo,
            2 => NatRed::ModCoreGo,
            3 => NatRed::Add,
            4 => NatRed::Sub,
            5 => NatRed::Mul,
            6 => NatRed::Pow,
            7 => NatRed::Mod,
            8 => NatRed::Div,
            9 => NatRed::Beq,
            10 => NatRed::Ble,
            11 => NatRed::LAnd,
            12 => NatRed::LOr,
            13 => NatRed::XOr,
            14 => NatRed::Gcd,
            15 => NatRed::Shl,
            _ => NatRed::Shr,
        }
    }
}

} // verus!
