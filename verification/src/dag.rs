//! The stores of interned nodes: the shared one and the one of a session on top of it.
use crate::bignum::BigNat;
use crate::expr::Expr;
use crate::hash::{fx_hash, fx_hash_of, Interner, Node};
use crate::level::Level;
use crate::name::Name;
use crate::ptr::{BigUintPtr, ExprPtr, LevelPtr, LevelsPtr, NamePtr, StringPtr};
use crate::tree::Lv;
use vstd::prelude::*;

verus! {

/// Interned names.
pub type NameInterner = Interner<Name>;

/// Interned universe levels.
pub type LevelInterner = Interner<Level>;

/// Interned terms.
pub type ExprInterner = Interner<Expr>;

/// Interned strings.
pub type StringInterner = Interner<String>;

/// Interned natural numbers.
pub type BigUintInterner = Interner<BigNat>;

/// Interned lists of universe levels.
pub type LevelsInterner = Interner<LevelList>;

/// A list of universe levels.
pub struct LevelList {
    pub items: Vec<LevelPtr>,
}

/// The trees of a list of pointers.
pub open spec fn level_trees(items: Seq<LevelPtr>) -> Seq<Lv> {
    Seq::new(items.len(), |i: int| items[i]@)
}

impl LevelList {
    /// The list as trees.
    pub open spec fn tree(self) -> Seq<Lv> {
        level_trees(self.items@)
    }

    /// The words that are hashed for the list.
    pub open spec fn words(self) -> Seq<u64> {
        Seq::new(self.items@.len(), |i: int| self.items@[i].word())
    }
}

impl Node for LevelList {
    open spec fn like(&self, other: &Self) -> bool {
        &&& self.items@.len() == other.items@.len()
        &&& forall|i: int|
            0 <= i < self.items@.len() ==> (#[trigger] self.items@[i]).at(other.items@[i])
    }

    open spec fn digest(&self) -> u64 {
        fx_hash_of(self.words())
    }

    proof fn digest_of_like(&self, other: &Self) {
        assert(self.words() =~= other.words());
    }

    fn is_like(&self, other: &Self) -> (r: bool) {
        if self.items.len() != other.items.len() {
            return false;
        }
        let mut i: usize = 0;
        while i < self.items.len()
            invariant
                i <= self.items@.len(),
                self.items@.len() == other.items@.len(),
                forall|j: int| 0 <= j < i ==> (#[trigger] self.items@[j]).at(other.items@[j]),
            decreases self.items@.len() - i,
        {
            if !self.items[i].is_at(other.items[i]) {
                return false;
            }
            i = i + 1;
        }
        true
    }

    fn struct_hash(&self) -> (r: u64) {
        let mut w: Vec<u64> = Vec::new();
        let mut i: usize = 0;
        while i < self.items.len()
            invariant
                i <= self.items@.len(),
                w@ == self.words().take(i as int),
            decreases self.items@.len() - i,
        {
            w.push(self.items[i].get_hash());
            assert(w@ =~= self.words().take(i + 1));
            i = i + 1;
        }
        assert(w@ =~= self.words());
        fx_hash(&w)
    }
}

/// The words that are hashed for a string.
pub open spec fn char_words(s: Seq<char>) -> Seq<u64> {
    Seq::new(s.len(), |i: int| s[i] as u64)
}

impl Node for String {
    open spec fn like(&self, other: &Self) -> bool {
        self@ == other@
    }

    open spec fn digest(&self) -> u64 {
        fx_hash_of(char_words(self@))
    }

    proof fn digest_of_like(&self, other: &Self) {
    }

    fn is_like(&self, other: &Self) -> (r: bool) {
        *self == *other
    }

    fn struct_hash(&self) -> (r: u64) {
        let s: &str = self.as_str();
        let n: usize = s.unicode_len();
        let mut w: Vec<u64> = Vec::new();
        let mut i: usize = 0;
        while i < n
            invariant
                i <= n,
                n == s@.len(),
                w@ == char_words(s@).take(i as int),
            decreases n - i,
        {
            w.push(s.get_char(i) as u64);
            assert(w@ =~= char_words(s@).take(i + 1));
            i = i + 1;
        }
        assert(w@ =~= char_words(s@));
        fx_hash(&w)
    }
}

/// The words that are hashed for a number.
pub open spec fn digit_words(s: Seq<u32>) -> Seq<u64> {
    Seq::new(s.len(), |i: int| s[i] as u64)
}

impl Node for BigNat {
    open spec fn like(&self, other: &Self) -> bool {
        self.digits@ == other.digits@
    }

    open spec fn digest(&self) -> u64 {
        fx_hash_of(digit_words(self.digits@))
    }

    proof fn digest_of_like(&self, other: &Self) {
    }

    fn is_like(&self, other: &Self) -> (r: bool) {
        if self.digits.len() != other.digits.len() {
            return false;
        }
        let mut i: usize = 0;
        while i < self.digits.len()
            invariant
                i <= self.digits@.len(),
                self.digits@.len() == other.digits@.len(),
                forall|j: int| 0 <= j < i ==> self.digits@[j] == other.digits@[j],
            decreases self.digits@.len() - i,
        {
            if self.digits[i] != other.digits[i] {
                return false;
            }
            i = i + 1;
        }
        assert(self.digits@ =~= other.digits@);
        true
    }

    fn struct_hash(&self) -> (r: u64) {
        let mut w: Vec<u64> = Vec::new();
        let mut i: usize = 0;
        while i < self.digits.len()
            invariant
                i <= self.digits@.len(),
                w@ == digit_words(self.digits@).take(i as int),
            decreases self.digits@.len() - i,
        {
            w.push(self.digits[i] as u64);
            assert(w@ =~= digit_words(self.digits@).take(i + 1));
            i = i + 1;
        }
        assert(w@ =~= digit_words(self.digits@));
        fx_hash(&w)
    }
}

impl Interner<String> {
    /// The index of a string.
    pub fn get_str(&self, s: &str) -> (r: Option<usize>)
        requires
            self.wf(),
        ensures
            r matches Some(i) ==> i < self.nodes@.len() && self.nodes@[i as int]@ == s@,
            r is None ==> forall|i: int|
                0 <= i < self.nodes@.len() ==> (#[trigger] self.nodes@[i])@ != s@,
    {
        let owned = s.to_owned();
        let r = self.get(&owned);
        proof {
            if r is None {
                assert forall|i: int| 0 <= i < self.nodes@.len() implies (
                #[trigger] self.nodes@[i])@ != s@ by {
                    assert(!self.nodes@[i].like(&owned));
                }
            }
        }
        r
    }
}

/// One store of interned nodes of every kind.
pub struct Dag {
    pub names: NameInterner,
    pub levels: LevelInterner,
    pub exprs: ExprInterner,
    pub uparams: LevelsInterner,
    pub strings: StringInterner,
    pub bignums: Option<BigUintInterner>,
}

impl Dag {
    /// The interners are well formed.
    pub open spec fn tables_ok(self) -> bool {
        &&& self.names.wf()
        &&& self.levels.wf()
        &&& self.exprs.wf()
        &&& self.uparams.wf()
        &&& self.strings.wf()
        &&& self.bignums matches Some(b) ==> b.wf()
    }

    /// The numbers of the store.
    pub open spec fn nums(self) -> Seq<BigNat> {
        match self.bignums {
            Some(b) => b.nodes@,
            None => Seq::empty(),
        }
    }

    /// The string with the pointer's index is the pointer's.
    pub open spec fn string_at(self, p: StringPtr) -> bool {
        p.idx < self.strings.nodes@.len() && self.strings.nodes@[p.idx as int]@ == p@
    }

    /// The name with the pointer's index is the pointer's.
    pub open spec fn name_at(self, p: NamePtr) -> bool {
        p.idx < self.names.nodes@.len() && self.names.nodes@[p.idx as int].tree() == p@
    }

    /// The level with the pointer's index is the pointer's.
    pub open spec fn level_at(self, p: LevelPtr) -> bool {
        p.idx < self.levels.nodes@.len() && self.levels.nodes@[p.idx as int].tree() == p@
    }

    /// The list of levels with the pointer's index is the pointer's.
    pub open spec fn levels_at(self, p: LevelsPtr) -> bool {
        p.idx < self.uparams.nodes@.len() && self.uparams.nodes@[p.idx as int].tree() == p@
    }

    /// The number with the pointer's index is the pointer's.
    pub open spec fn big_at(self, p: BigUintPtr) -> bool {
        p.idx < self.nums().len() && self.nums()[p.idx as int]@ == p@
    }

    /// The term with the pointer's index is the pointer's.
    pub open spec fn expr_at(self, p: ExprPtr) -> bool {
        p.idx < self.exprs.nodes@.len() && self.exprs.nodes@[p.idx as int].tree() == p@
    }

    /// A store without nodes, with room for numbers where the extension is on.
    pub fn new(nat_extension: bool) -> (r: Self)
        ensures
            r.tables_ok(),
            r.names.nodes@.len() == 0,
            r.levels.nodes@.len() == 0,
            r.exprs.nodes@.len() == 0,
            r.uparams.nodes@.len() == 0,
            r.strings.nodes@.len() == 0,
            r.nums().len() == 0,
            r.bignums is Some <==> nat_extension,
    {
        Dag {
            names: Interner::new(),
            levels: Interner::new(),
            exprs: Interner::new(),
            uparams: Interner::new(),
            strings: Interner::new(),
            bignums: if nat_extension {
                Some(Interner::new())
            } else {
                None
            },
        }
    }
}

/// A shared store, if there is one, and the store on top of it. Without a shared store the
/// other is the one that will be shared.
pub struct Stores {
    pub shared: Option<Dag>,
    pub own: Dag,
}

impl Stores {
    /// The pointer is valid.
    pub open spec fn has_string(self, p: StringPtr) -> bool {
        if p.local == (self.shared is Some) {
            self.own.string_at(p)
        } else {
            self.shared matches Some(d) && d.string_at(p)
        }
    }

    /// The pointer is valid.
    pub open spec fn has_name(self, p: NamePtr) -> bool {
        if p.local == (self.shared is Some) {
            self.own.name_at(p)
        } else {
            self.shared matches Some(d) && d.name_at(p)
        }
    }

    /// The pointer is valid.
    pub open spec fn has_level(self, p: LevelPtr) -> bool {
        if p.local == (self.shared is Some) {
            self.own.level_at(p)
        } else {
            self.shared matches Some(d) && d.level_at(p)
        }
    }

    /// The pointer is valid.
    pub open spec fn has_levels(self, p: LevelsPtr) -> bool {
        if p.local == (self.shared is Some) {
            self.own.levels_at(p)
        } else {
            self.shared matches Some(d) && d.levels_at(p)
        }
    }

    /// The pointer is valid.
    pub open spec fn has_big(self, p: BigUintPtr) -> bool {
        if p.local == (self.shared is Some) {
            self.own.big_at(p)
        } else {
            self.shared matches Some(d) && d.big_at(p)
        }
    }

    /// The pointer is valid.
    pub open spec fn has_expr(self, p: ExprPtr) -> bool {
        if p.local == (self.shared is Some) {
            self.own.expr_at(p)
        } else {
            self.shared matches Some(d) && d.expr_at(p)
        }
    }

    /// The parts of the name are valid, and so is its hash.
    pub open spec fn name_ok(self, n: Name) -> bool {
        &&& n.hash_ok()
        &&& match n {
            Name::Anon => true,
            Name::Str(p, s, _) => self.has_name(p) && self.has_string(s),
            Name::Num(p, _, _) => self.has_name(p),
        }
    }

    /// The parts of the level are valid, and so is its hash.
    pub open spec fn level_ok(self, l: Level) -> bool {
        &&& l.hash_ok()
        &&& match l {
            Level::Zero => true,
            Level::Succ(a, _) => self.has_level(a),
            Level::Max(a, b, _) => self.has_level(a) && self.has_level(b),
            Level::IMax(a, b, _) => self.has_level(a) && self.has_level(b),
            Level::Param(n, _) => self.has_name(n),
        }
    }

    /// The levels of the list are valid.
    pub open spec fn list_ok(self, ls: Seq<LevelPtr>) -> bool {
        forall|i: int| 0 <= i < ls.len() ==> self.has_level(#[trigger] ls[i])
    }

    /// The pointers in the term are valid.
    pub open spec fn has_parts(self, e: Expr) -> bool {
        match e {
            Expr::Var { .. } => true,
            Expr::Sort { level, .. } => self.has_level(level),
            Expr::Const { name, levels, .. } => self.has_name(name) && self.has_levels(levels),
            Expr::App { fun, arg, .. } => self.has_expr(fun) && self.has_expr(arg),
            Expr::Lambda { binder_name, binder_type, body, .. } => {
                self.has_name(binder_name) && self.has_expr(binder_type) && self.has_expr(body)
            },
            Expr::Pi { binder_name, binder_type, body, .. } => {
                self.has_name(binder_name) && self.has_expr(binder_type) && self.has_expr(body)
            },
            Expr::Let { binder_name, binder_type, val, body, .. } => {
                self.has_name(binder_name) && self.has_expr(binder_type) && self.has_expr(val)
                    && self.has_expr(body)
            },
            Expr::Local { binder_name, binder_type, .. } => {
                self.has_name(binder_name) && self.has_expr(binder_type)
            },
            Expr::Proj { ty_name, structure, .. } => {
                self.has_name(ty_name) && self.has_expr(structure)
            },
            Expr::NatLit { ptr, .. } => self.has_big(ptr),
            Expr::StringLit { ptr, .. } => self.has_string(ptr),
        }
    }

    /// The parts of the term are valid, and so is what it says of them. Free variables
    /// belong to a session.
    pub open spec fn expr_ok(self, e: Expr) -> bool {
        &&& e.hash_ok()
        &&& e.info_ok()
        &&& self.has_parts(e)
        &&& e is Local ==> self.shared is Some
    }

    /// Every node of the upper store is valid.
    pub open spec fn own_ok(self) -> bool {
        &&& self.own.tables_ok()
        &&& forall|i: int|
            0 <= i < self.own.names.nodes@.len() ==> self.name_ok(
                #[trigger] self.own.names.nodes@[i],
            )
        &&& forall|i: int|
            0 <= i < self.own.levels.nodes@.len() ==> self.level_ok(
                #[trigger] self.own.levels.nodes@[i],
            )
        &&& forall|i: int|
            0 <= i < self.own.uparams.nodes@.len() ==> self.list_ok(
                (#[trigger] self.own.uparams.nodes@[i]).items@,
            )
        &&& forall|i: int|
            0 <= i < self.own.exprs.nodes@.len() ==> self.expr_ok(
                #[trigger] self.own.exprs.nodes@[i],
            )
        &&& forall|i: int| 0 <= i < self.own.nums().len() ==> (#[trigger] self.own.nums()[i]).wf()
    }

    /// No tree is stored twice.
    pub open spec fn unique(self) -> bool {
        &&& forall|p: StringPtr, q: StringPtr| #[trigger]
            self.has_string(p) && #[trigger] self.has_string(q) && p@ == q@ ==> p.at(q)
        &&& forall|p: NamePtr, q: NamePtr| #[trigger]
            self.has_name(p) && #[trigger] self.has_name(q) && p@ == q@ ==> p.at(q)
        &&& forall|p: LevelPtr, q: LevelPtr| #[trigger]
            self.has_level(p) && #[trigger] self.has_level(q) && p@ == q@ ==> p.at(q)
        &&& forall|p: LevelsPtr, q: LevelsPtr| #[trigger]
            self.has_levels(p) && #[trigger] self.has_levels(q) && p@ == q@ ==> p.at(q)
        &&& forall|p: BigUintPtr, q: BigUintPtr| #[trigger]
            self.has_big(p) && #[trigger] self.has_big(q) && p@ == q@ ==> p.at(q)
        &&& forall|p: ExprPtr, q: ExprPtr| #[trigger]
            self.has_expr(p) && #[trigger] self.has_expr(q) && p@ == q@ ==> p.at(q)
    }

    /// The stores are well formed: every node is valid, and no tree is stored twice.
    pub open spec fn ok(self) -> bool {
        &&& self.own_ok()
        &&& self.unique()
        &&& self.shared matches Some(d) ==> (Stores { shared: None, own: d }).own_ok()
    }

    /// Whatever is valid here is valid there.
    pub open spec fn within(self, other: Stores) -> bool {
        &&& self.shared == other.shared
        &&& forall|p: StringPtr| self.has_string(p) ==> #[trigger] other.has_string(p)
        &&& forall|p: NamePtr| self.has_name(p) ==> #[trigger] other.has_name(p)
        &&& forall|p: LevelPtr| self.has_level(p) ==> #[trigger] other.has_level(p)
        &&& forall|p: LevelsPtr| self.has_levels(p) ==> #[trigger] other.has_levels(p)
        &&& forall|p: BigUintPtr| self.has_big(p) ==> #[trigger] other.has_big(p)
        &&& forall|p: ExprPtr| self.has_expr(p) ==> #[trigger] other.has_expr(p)
    }

    /// One more string that was not there keeps the stores well formed.
    pub proof fn add_string(self, other: Stores, s: String)
        requires
            self.ok(),
            other.shared == self.shared,
            other.own == (Dag { strings: other.own.strings, ..self.own }),
            other.own.strings.wf(),
            other.own.strings.nodes@ == self.own.strings.nodes@.push(s),
            forall|p: StringPtr| #[trigger] self.has_string(p) ==> p@ != s@,
        ensures
            other.ok(),
            self.within(other),
    {
        assert forall|p: StringPtr| self.has_string(p) implies #[trigger] other.has_string(p) by {}
        assert(self.within(other));
        assert(forall|p: NamePtr| #[trigger] other.has_name(p) ==> self.has_name(p));
        assert(forall|p: LevelPtr| #[trigger] other.has_level(p) ==> self.has_level(p));
        assert(forall|p: LevelsPtr| #[trigger] other.has_levels(p) ==> self.has_levels(p));
        assert(forall|p: BigUintPtr| #[trigger] other.has_big(p) ==> self.has_big(p));
        assert(forall|p: ExprPtr| #[trigger] other.has_expr(p) ==> self.has_expr(p));
        assert forall|p: StringPtr, q: StringPtr| #[trigger]
            other.has_string(p) && #[trigger] other.has_string(q) && p@ == q@ implies p.at(q) by {
            let n = self.own.strings.nodes@.len();
            assert(p.local == (self.shared is Some) && p.idx == n || self.has_string(p));
            assert(q.local == (self.shared is Some) && q.idx == n || self.has_string(q));
        }
    }

    /// One more name that was not there keeps the stores well formed.
    pub proof fn add_name(self, other: Stores, n: Name)
        requires
            self.ok(),
            self.name_ok(n),
            other.shared == self.shared,
            other.own == (Dag { names: other.own.names, ..self.own }),
            other.own.names.wf(),
            other.own.names.nodes@ == self.own.names.nodes@.push(n),
            forall|p: NamePtr| #[trigger] self.has_name(p) ==> p@ != n.tree(),
        ensures
            other.ok(),
            self.within(other),
    {
        assert forall|p: NamePtr| self.has_name(p) implies #[trigger] other.has_name(p) by {}
        assert(self.within(other));
        assert(forall|p: StringPtr| #[trigger] other.has_string(p) ==> self.has_string(p));
        assert(forall|p: LevelPtr| #[trigger] other.has_level(p) ==> self.has_level(p));
        assert(forall|p: LevelsPtr| #[trigger] other.has_levels(p) ==> self.has_levels(p));
        assert(forall|p: BigUintPtr| #[trigger] other.has_big(p) ==> self.has_big(p));
        assert(forall|p: ExprPtr| #[trigger] other.has_expr(p) ==> self.has_expr(p));
        assert forall|p: NamePtr, q: NamePtr| #[trigger]
            other.has_name(p) && #[trigger] other.has_name(q) && p@ == q@ implies p.at(q) by {
            let n = self.own.names.nodes@.len();
            assert(p.local == (self.shared is Some) && p.idx == n || self.has_name(p));
            assert(q.local == (self.shared is Some) && q.idx == n || self.has_name(q));
        }
    }

    /// One more level that was not there keeps the stores well formed.
    pub proof fn add_level(self, other: Stores, n: Level)
        requires
            self.ok(),
            self.level_ok(n),
            other.shared == self.shared,
            other.own == (Dag { levels: other.own.levels, ..self.own }),
            other.own.levels.wf(),
            other.own.levels.nodes@ == self.own.levels.nodes@.push(n),
            forall|p: LevelPtr| #[trigger] self.has_level(p) ==> p@ != n.tree(),
        ensures
            other.ok(),
            self.within(other),
    {
        assert forall|p: LevelPtr| self.has_level(p) implies #[trigger] other.has_level(p) by {}
        assert(self.within(other));
        assert(forall|p: StringPtr| #[trigger] other.has_string(p) ==> self.has_string(p));
        assert(forall|p: NamePtr| #[trigger] other.has_name(p) ==> self.has_name(p));
        assert(forall|p: LevelsPtr| #[trigger] other.has_levels(p) ==> self.has_levels(p));
        assert(forall|p: BigUintPtr| #[trigger] other.has_big(p) ==> self.has_big(p));
        assert(forall|p: ExprPtr| #[trigger] other.has_expr(p) ==> self.has_expr(p));
        assert forall|p: LevelPtr, q: LevelPtr| #[trigger]
            other.has_level(p) && #[trigger] other.has_level(q) && p@ == q@ implies p.at(q) by {
            let n = self.own.levels.nodes@.len();
            assert(p.local == (self.shared is Some) && p.idx == n || self.has_level(p));
            assert(q.local == (self.shared is Some) && q.idx == n || self.has_level(q));
        }
    }

    /// One more list of levels that was not there keeps the stores well formed.
    pub proof fn add_levels(self, other: Stores, n: LevelList)
        requires
            self.ok(),
            self.list_ok(n.items@),
            other.shared == self.shared,
            other.own == (Dag { uparams: other.own.uparams, ..self.own }),
            other.own.uparams.wf(),
            other.own.uparams.nodes@ == self.own.uparams.nodes@.push(n),
            forall|p: LevelsPtr| #[trigger] self.has_levels(p) ==> p@ != n.tree(),
        ensures
            other.ok(),
            self.within(other),
    {
        assert forall|p: LevelsPtr| self.has_levels(p) implies #[trigger] other.has_levels(p) by {}
        assert(self.within(other));
        assert(forall|p: StringPtr| #[trigger] other.has_string(p) ==> self.has_string(p));
        assert(forall|p: NamePtr| #[trigger] other.has_name(p) ==> self.has_name(p));
        assert(forall|p: LevelPtr| #[trigger] other.has_level(p) ==> self.has_level(p));
        assert(forall|p: BigUintPtr| #[trigger] other.has_big(p) ==> self.has_big(p));
        assert(forall|p: ExprPtr| #[trigger] other.has_expr(p) ==> self.has_expr(p));
        assert forall|p: LevelsPtr, q: LevelsPtr| #[trigger]
            other.has_levels(p) && #[trigger] other.has_levels(q) && p@ == q@ implies p.at(q) by {
            let n = self.own.uparams.nodes@.len();
            assert(p.local == (self.shared is Some) && p.idx == n || self.has_levels(p));
            assert(q.local == (self.shared is Some) && q.idx == n || self.has_levels(q));
        }
    }

    /// One more number that was not there keeps the stores well formed.
    pub proof fn add_big(self, other: Stores, n: BigNat)
        requires
            self.ok(),
            n.wf(),
            other.shared == self.shared,
            other.own == (Dag { bignums: other.own.bignums, ..self.own }),
            other.own.tables_ok(),
            other.own.nums() == self.own.nums().push(n),
            forall|p: BigUintPtr| #[trigger] self.has_big(p) ==> p@ != n@,
        ensures
            other.ok(),
            self.within(other),
    {
        assert forall|p: BigUintPtr| self.has_big(p) implies #[trigger] other.has_big(p) by {}
        assert(self.within(other));
        assert(forall|p: StringPtr| #[trigger] other.has_string(p) ==> self.has_string(p));
        assert(forall|p: NamePtr| #[trigger] other.has_name(p) ==> self.has_name(p));
        assert(forall|p: LevelPtr| #[trigger] other.has_level(p) ==> self.has_level(p));
        assert(forall|p: LevelsPtr| #[trigger] other.has_levels(p) ==> self.has_levels(p));
        assert(forall|p: ExprPtr| #[trigger] other.has_expr(p) ==> self.has_expr(p));
        assert forall|p: BigUintPtr, q: BigUintPtr| #[trigger]
            other.has_big(p) && #[trigger] other.has_big(q) && p@ == q@ implies p.at(q) by {
            let n = self.own.nums().len();
            assert(p.local == (self.shared is Some) && p.idx == n || self.has_big(p));
            assert(q.local == (self.shared is Some) && q.idx == n || self.has_big(q));
        }
    }

    /// One more term that was not there keeps the stores well formed.
    pub proof fn add_expr(self, other: Stores, n: Expr)
        requires
            self.ok(),
            self.expr_ok(n),
            other.shared == self.shared,
            other.own == (Dag { exprs: other.own.exprs, ..self.own }),
            other.own.exprs.wf(),
            other.own.exprs.nodes@ == self.own.exprs.nodes@.push(n),
            forall|p: ExprPtr| #[trigger] self.has_expr(p) ==> p@ != n.tree(),
        ensures
            other.ok(),
            self.within(other),
    {
        assert forall|p: ExprPtr| self.has_expr(p) implies #[trigger] other.has_expr(p) by {}
        assert(self.within(other));
        assert(forall|p: StringPtr| #[trigger] other.has_string(p) ==> self.has_string(p));
        assert(forall|p: NamePtr| #[trigger] other.has_name(p) ==> self.has_name(p));
        assert(forall|p: LevelPtr| #[trigger] other.has_level(p) ==> self.has_level(p));
        assert(forall|p: LevelsPtr| #[trigger] other.has_levels(p) ==> self.has_levels(p));
        assert(forall|p: BigUintPtr| #[trigger] other.has_big(p) ==> self.has_big(p));
        assert forall|p: ExprPtr, q: ExprPtr| #[trigger]
            other.has_expr(p) && #[trigger] other.has_expr(q) && p@ == q@ implies p.at(q) by {
            let n = self.own.exprs.nodes@.len();
            assert(p.local == (self.shared is Some) && p.idx == n || self.has_expr(p));
            assert(q.local == (self.shared is Some) && q.idx == n || self.has_expr(q));
        }
    }

    /// The node that a valid pointer leads to.
    pub open spec fn name_node(self, p: NamePtr) -> Name {
        if p.local == (self.shared is Some) {
            self.own.names.nodes@[p.idx as int]
        } else {
            self.shared->0.names.nodes@[p.idx as int]
        }
    }

    /// A valid pointer leads to a valid node, whose tree it stands for.
    pub proof fn name_node_ok(self, p: NamePtr)
        requires
            self.ok(),
            self.has_name(p),
        ensures
            self.name_ok(self.name_node(p)),
            self.name_node(p).tree() == p@,
    {
        if p.local != (self.shared is Some) {
            let below = Stores { shared: None, own: self.shared->0 };
            assert(below.name_ok(below.own.names.nodes@[p.idx as int]));
        }
    }

    /// Valid nodes are alike exactly if their trees are equal.
    pub proof fn name_like(self, a: Name, b: Name)
        requires
            self.ok(),
            self.name_ok(a),
            self.name_ok(b),
        ensures
            a.like(&b) <==> a.tree() == b.tree(),
    {
    }

    /// The node that a valid pointer leads to.
    pub open spec fn level_node(self, p: LevelPtr) -> Level {
        if p.local == (self.shared is Some) {
            self.own.levels.nodes@[p.idx as int]
        } else {
            self.shared->0.levels.nodes@[p.idx as int]
        }
    }

    /// A valid pointer leads to a valid node, whose tree it stands for.
    pub proof fn level_node_ok(self, p: LevelPtr)
        requires
            self.ok(),
            self.has_level(p),
        ensures
            self.level_ok(self.level_node(p)),
            self.level_node(p).tree() == p@,
    {
        if p.local != (self.shared is Some) {
            let below = Stores { shared: None, own: self.shared->0 };
            assert(below.level_ok(below.own.levels.nodes@[p.idx as int]));
        }
    }

    /// Valid nodes are alike exactly if their trees are equal.
    pub proof fn level_like(self, a: Level, b: Level)
        requires
            self.ok(),
            self.level_ok(a),
            self.level_ok(b),
        ensures
            a.like(&b) <==> a.tree() == b.tree(),
    {
    }

    /// The node that a valid pointer leads to.
    pub open spec fn expr_node(self, p: ExprPtr) -> Expr {
        if p.local == (self.shared is Some) {
            self.own.exprs.nodes@[p.idx as int]
        } else {
            self.shared->0.exprs.nodes@[p.idx as int]
        }
    }

    /// A valid pointer leads to a valid node, whose tree it stands for.
    pub proof fn expr_node_ok(self, p: ExprPtr)
        requires
            self.ok(),
            self.has_expr(p),
        ensures
            self.expr_ok(self.expr_node(p)),
            self.expr_node(p).tree() == p@,
    {
        if p.local != (self.shared is Some) {
            let below = Stores { shared: None, own: self.shared->0 };
            assert(below.expr_ok(below.own.exprs.nodes@[p.idx as int]));
        }
    }

    /// Valid nodes are alike exactly if their trees are equal.
    pub proof fn expr_like(self, a: Expr, b: Expr)
        requires
            self.ok(),
            self.expr_ok(a),
            self.expr_ok(b),
        ensures
            a.like(&b) <==> a.tree() == b.tree(),
    {
        if a.tree() == b.tree() {
            assert(a.words() =~= b.words());
        }
    }

    /// The levels of the list that a valid pointer leads to.
    pub open spec fn list_node(self, p: LevelsPtr) -> LevelList {
        if p.local == (self.shared is Some) {
            self.own.uparams.nodes@[p.idx as int]
        } else {
            self.shared->0.uparams.nodes@[p.idx as int]
        }
    }

    /// A valid pointer leads to a list of valid levels, whose trees it stands for.
    pub proof fn list_node_ok(self, p: LevelsPtr)
        requires
            self.ok(),
            self.has_levels(p),
        ensures
            self.list_ok(self.list_node(p).items@),
            self.list_node(p).tree() == p@,
    {
        if p.local != (self.shared is Some) {
            let below = Stores { shared: None, own: self.shared->0 };
            let ls = below.own.uparams.nodes@[p.idx as int].items@;
            assert(below.list_ok(ls));
            assert forall|i: int| 0 <= i < ls.len() implies self.has_level(#[trigger] ls[i]) by {
                assert(below.has_level(ls[i]));
            }
        }
    }

    /// Lists of valid levels are alike exactly if their trees are equal.
    pub proof fn list_like(self, a: LevelList, b: LevelList)
        requires
            self.ok(),
            self.list_ok(a.items@),
            self.list_ok(b.items@),
        ensures
            a.like(&b) <==> a.tree() == b.tree(),
    {
        if a.like(&b) {
            assert forall|i: int| 0 <= i < a.items@.len() implies a.items@[i]@ == b.items@[i]@ by {
                assert(a.items@[i].at(b.items@[i]));
                assert(self.has_level(a.items@[i]) && self.has_level(b.items@[i]));
            }
            assert(a.tree() =~= b.tree());
        }
        if a.tree() == b.tree() {
            assert(a.tree().len() == b.tree().len());
            assert forall|i: int| 0 <= i < a.items@.len() implies (#[trigger] a.items@[i]).at(
                b.items@[i],
            ) by {
                assert(a.tree()[i] == b.tree()[i]);
                assert(self.has_level(a.items@[i]) && self.has_level(b.items@[i]));
            }
        }
    }

    /// The number that a valid pointer leads to.
    pub open spec fn big_node(self, p: BigUintPtr) -> BigNat {
        if p.local == (self.shared is Some) {
            self.own.nums()[p.idx as int]
        } else {
            self.shared->0.nums()[p.idx as int]
        }
    }

    /// A valid pointer leads to a number in canonical form.
    pub proof fn big_node_ok(self, p: BigUintPtr)
        requires
            self.ok(),
            self.has_big(p),
        ensures
            self.big_node(p).wf(),
            self.big_node(p)@ == p@,
    {
        if p.local != (self.shared is Some) {
            let below = Stores { shared: None, own: self.shared->0 };
            assert(below.own.nums()[p.idx as int].wf());
        }
    }

    /// Where a store starts empty, the stores are well formed.
    pub proof fn fresh(self)
        requires
            self.own.tables_ok(),
            self.own.names.nodes@.len() == 0,
            self.own.levels.nodes@.len() == 0,
            self.own.exprs.nodes@.len() == 0,
            self.own.uparams.nodes@.len() == 0,
            self.own.strings.nodes@.len() == 0,
            self.own.nums().len() == 0,
            self.shared matches Some(d) ==> (Stores { shared: None, own: d }).ok(),
        ensures
            self.ok(),
    {
        if self.shared is Some {
            let below = Stores { shared: None, own: self.shared->0 };
            assert(forall|p: StringPtr| #[trigger] self.has_string(p) ==> below.has_string(p));
            assert(forall|p: NamePtr| #[trigger] self.has_name(p) ==> below.has_name(p));
            assert(forall|p: LevelPtr| #[trigger] self.has_level(p) ==> below.has_level(p));
            assert(forall|p: LevelsPtr| #[trigger] self.has_levels(p) ==> below.has_levels(p));
            assert(forall|p: BigUintPtr| #[trigger] self.has_big(p) ==> below.has_big(p));
            assert(forall|p: ExprPtr| #[trigger] self.has_expr(p) ==> below.has_expr(p));
        }
    }
}

} // verus!
