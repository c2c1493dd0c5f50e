//! Universe levels as they are stored.
use crate::hash::{fx_hash, fx_hash_of, Node};
use crate::ptr::{LevelPtr, NamePtr};
use crate::tree::Lv;
use vstd::prelude::*;

verus! {

/// The hash of the level zero.
pub const ZERO_HASH: u64 = 2281;

/// The first word that is hashed for a successor.
pub const SUCC_HASH: u64 = 1103;

/// The first word that is hashed for a maximum.
pub const MAX_HASH: u64 = 9049;

/// The first word that is hashed for an impredicative maximum.
pub const IMAX_HASH: u64 = 1777;

/// The first word that is hashed for a parameter.
pub const PARAM_HASH: u64 = 3613;

/// A universe level with its hash.
#[derive(Clone, Copy)]
pub enum Level {
    Zero,
    Succ(LevelPtr, u64),
    Max(LevelPtr, LevelPtr, u64),
    IMax(LevelPtr, LevelPtr, u64),
    Param(NamePtr, u64),
}

impl Level {
    /// The level as a tree.
    pub open spec fn tree(self) -> Lv {
        match self {
            Level::Zero => Lv::Zero,
            Level::Succ(a, _) => Lv::Succ(Box::new(a@)),
            Level::Max(a, b, _) => Lv::Max(Box::new(a@), Box::new(b@)),
            Level::IMax(a, b, _) => Lv::IMax(Box::new(a@), Box::new(b@)),
            Level::Param(n, _) => Lv::Param(n@),
        }
    }

    /// The hash that the level holds.
    pub open spec fn stored_hash(self) -> u64 {
        match self {
            Level::Zero => ZERO_HASH,
            Level::Succ(_, h) => h,
            Level::Max(_, _, h) => h,
            Level::IMax(_, _, h) => h,
            Level::Param(_, h) => h,
        }
    }

    /// The hash that the level holds is that of its parts.
    pub open spec fn hash_ok(self) -> bool {
        match self {
            Level::Zero => true,
            Level::Succ(a, h) => h == fx_hash_of(seq![SUCC_HASH, a.word()]),
            Level::Max(a, b, h) => h == fx_hash_of(seq![MAX_HASH, a.word(), b.word()]),
            Level::IMax(a, b, h) => h == fx_hash_of(seq![IMAX_HASH, a.word(), b.word()]),
            Level::Param(n, h) => h == fx_hash_of(seq![PARAM_HASH, n.word()]),
        }
    }

    /// The hash of the level.
    pub fn get_hash(&self) -> (r: u64)
        ensures
            r == self.stored_hash(),
    {
        match self {
            Level::Zero => ZERO_HASH,
            Level::Succ(_, h) => *h,
            Level::Max(_, _, h) => *h,
            Level::IMax(_, _, h) => *h,
            Level::Param(_, h) => *h,
        }
    }

    /// The successor of a level.
    pub fn mk_succ(l: LevelPtr) -> (r: Level)
        ensures
            r.hash_ok(),
            r matches Level::Succ(a, _) && a == l,
    {
        let mut w: Vec<u64> = Vec::new();
        w.push(SUCC_HASH);
        w.push(l.get_hash());
        assert(w@ =~= seq![SUCC_HASH, l.word()]);
        Level::Succ(l, fx_hash(&w))
    }

    /// The maximum of two levels.
    pub fn mk_max(l: LevelPtr, r: LevelPtr) -> (out: Level)
        ensures
            out.hash_ok(),
            out matches Level::Max(a, b, _) && a == l && b == r,
    {
        let mut w: Vec<u64> = Vec::new();
        w.push(MAX_HASH);
        w.push(l.get_hash());
        w.push(r.get_hash());
        assert(w@ =~= seq![MAX_HASH, l.word(), r.word()]);
        Level::Max(l, r, fx_hash(&w))
    }

    /// The maximum of two levels that is zero where the second is.
    pub fn mk_imax(l: LevelPtr, r: LevelPtr) -> (out: Level)
        ensures
            out.hash_ok(),
            out matches Level::IMax(a, b, _) && a == l && b == r,
    {
        let mut w: Vec<u64> = Vec::new();
        w.push(IMAX_HASH);
        w.push(l.get_hash());
        w.push(r.get_hash());
        assert(w@ =~= seq![IMAX_HASH, l.word(), r.word()]);
        Level::IMax(l, r, fx_hash(&w))
    }

    /// A level parameter.
    pub fn mk_param(n: NamePtr) -> (r: Level)
        ensures
            r.hash_ok(),
            r matches Level::Param(m, _) && m == n,
    {
        let mut w: Vec<u64> = Vec::new();
        w.push(PARAM_HASH);
        w.push(n.get_hash());
        assert(w@ =~= seq![PARAM_HASH, n.word()]);
        Level::Param(n, fx_hash(&w))
    }
}

impl Node for Level {
    open spec fn like(&self, other: &Self) -> bool {
        match (*self, *other) {
            (Level::Zero, Level::Zero) => true,
            (Level::Succ(a, h), Level::Succ(c, k)) => a.at(c) && h == k,
            (Level::Max(a, b, h), Level::Max(c, d, k)) => a.at(c) && b.at(d) && h == k,
            (Level::IMax(a, b, h), Level::IMax(c, d, k)) => a.at(c) && b.at(d) && h == k,
            (Level::Param(m, h), Level::Param(n, k)) => m.at(n) && h == k,
            _ => false,
        }
    }

    open spec fn digest(&self) -> u64 {
        fx_hash_of(seq![self.stored_hash()])
    }

    proof fn digest_of_like(&self, other: &Self) {
    }

    fn is_like(&self, other: &Self) -> (r: bool) {
        match (self, other) {
            (Level::Zero, Level::Zero) => true,
            (Level::Succ(a, h), Level::Succ(c, k)) => a.is_at(*c) && *h == *k,
            (Level::Max(a, b, h), Level::Max(c, d, k)) => a.is_at(*c) && b.is_at(*d) && *h == *k,
            (Level::IMax(a, b, h), Level::IMax(c, d, k)) => a.is_at(*c) && b.is_at(*d) && *h == *k,
            (Level::Param(m, h), Level::Param(n, k)) => m.is_at(*n) && *h == *k,
            _ => false,
        }
    }

    fn struct_hash(&self) -> (r: u64) {
        let mut w: Vec<u64> = Vec::new();
        w.push(self.get_hash());
        assert(w@ =~= seq![self.stored_hash()]);
        fx_hash(&w)
    }
}

} // verus!
