//! Literals and the constants that belong to them.
use crate::bignum::BigNat;
use crate::ctx::TcCtx;
use crate::dag::level_trees;
use crate::env::RecursorData;
use crate::expr::Expr;
use crate::judge::{chars_tm, is_named, major_induct, nat_ctor, pi_drop, plain, str_ctor};
use crate::ptr::{BigUintPtr, ExprPtr, LevelPtr, LevelsPtr, NamePtr, StringPtr};
use crate::tree::{Lv, Tm};
use vstd::prelude::*;

verus! {

impl<'t> TcCtx<'t> {
    /// The empty list of levels.
    pub fn no_levels(&mut self) -> (r: LevelsPtr)
        requires
            old(self).wf(),
        ensures
            final(self).wf(),
            old(self).grows_to(*final(self)),
            final(self).has_levels(r),
            r@ == Seq::<Lv>::empty(),
    {
        let none: Vec<LevelPtr> = Vec::new();
        assert(level_trees(none@) =~= Seq::<Lv>::empty());
        self.alloc_levels(none)
    }

    /// The constant without universe arguments.
    pub fn mk_plain(&mut self, n: NamePtr) -> (r: ExprPtr)
        requires
            old(self).wf(),
            old(self).has_name(n),
        ensures
            final(self).wf(),
            old(self).grows_to(*final(self)),
            final(self).has_expr(r),
            r@ == plain(n@),
    {
        let ls = self.no_levels();
        self.mk_const(n, ls)
    }

    /// The universe of propositions.
    pub fn prop(&mut self) -> (r: ExprPtr)
        requires
            old(self).wf(),
        ensures
            final(self).wf(),
            old(self).grows_to(*final(self)),
            final(self).has_expr(r),
            r@ == Tm::Sort(Lv::Zero),
    {
        let z = self.zero();
        self.mk_sort(z)
    }

    /// The type of number literals, where its name is known.
    pub fn nat_type(&mut self) -> (r: Option<ExprPtr>)
        requires
            old(self).wf(),
        ensures
            final(self).wf(),
            old(self).grows_to(*final(self)),
            match old(self).name_cache.nat {
                Some(n) => r matches Some(p) && final(self).has_expr(p) && p@ == plain(n@),
                None => r is None,
            },
    {
        proof {
            self.known_names();
        }
        match self.name_cache.nat {
            Some(n) => Some(self.mk_plain(n)),
            None => None,
        }
    }

    /// The type of string literals, where its name is known.
    pub fn string_type(&mut self) -> (r: Option<ExprPtr>)
        requires
            old(self).wf(),
        ensures
            final(self).wf(),
            old(self).grows_to(*final(self)),
            match old(self).name_cache.string {
                Some(n) => r matches Some(p) && final(self).has_expr(p) && p@ == plain(n@),
                None => r is None,
            },
    {
        proof {
            self.known_names();
        }
        match self.name_cache.string {
            Some(n) => Some(self.mk_plain(n)),
            None => None,
        }
    }

    /// A truth value as a term, where its name is known.
    pub fn bool_to_expr(&mut self, b: bool) -> (r: Option<ExprPtr>)
        requires
            old(self).wf(),
        ensures
            final(self).wf(),
            old(self).grows_to(*final(self)),
            match if b {
                old(self).name_cache.bool_true
            } else {
                old(self).name_cache.bool_false
            } {
                Some(n) => r matches Some(p) && final(self).has_expr(p) && p@ == plain(n@),
                None => r is None,
            },
    {
        proof {
            self.known_names();
        }
        let name = if b {
            self.name_cache.bool_true
        } else {
            self.name_cache.bool_false
        };
        match name {
            Some(n) => Some(self.mk_plain(n)),
            None => None,
        }
    }

    /// The number that a term is: a literal, or the constant zero.
    pub fn get_bignum_from_expr(&self, e: ExprPtr) -> (r: Option<BigNat>)
        requires
            self.wf(),
            self.has_expr(e),
        ensures
            self.nat_extension ==> match e@ {
                Tm::NatLit(n) => r matches Some(b) && b.wf() && b@ == n,
                Tm::Const(c, _) => if is_named(self.name_cache.nat_zero, c) {
                    r matches Some(b) && b.wf() && b@ == 0
                } else {
                    r is None
                },
                _ => r is None,
            },
            !self.nat_extension ==> r is None,
    {
        proof {
            self.known_names();
        }
        if !self.nat_extension {
            return None;
        }
        match self.read_expr(e) {
            Expr::NatLit { ptr, .. } => match self.read_bignum(ptr) {
                Some(n) => Some(n.dup()),
                None => None,
            },
            Expr::Const { name, .. } => {
                if self.is_known(name, self.name_cache.nat_zero) {
                    Some(BigNat::from_u64(0))
                } else {
                    None
                }
            },
            _ => None,
        }
    }

    /// The literal of the number one above what a term is.
    pub fn get_bignum_succ_from_expr(&mut self, e: ExprPtr) -> (r: Option<ExprPtr>)
        requires
            old(self).wf(),
            old(self).has_expr(e),
        ensures
            final(self).wf(),
            old(self).grows_to(*final(self)),
            old(self).nat_extension ==> match e@ {
                Tm::NatLit(n) => r matches Some(p) && final(self).has_expr(p) && p@ == Tm::NatLit(
                    n + 1,
                ),
                Tm::Const(c, _) => if is_named(old(self).name_cache.nat_zero, c) {
                    r matches Some(p) && final(self).has_expr(p) && p@ == Tm::NatLit(1)
                } else {
                    r is None
                },
                _ => r is None,
            },
            !old(self).nat_extension ==> r is None,
    {
        match self.get_bignum_from_expr(e) {
            Some(n) => {
                let one = BigNat::from_u64(1);
                self.mk_nat_lit_quick(n.plus(&one))
            },
            None => None,
        }
    }

    /// The term that a number literal stands for, where the names in it are known.
    pub fn nat_lit_to_constructor(&mut self, n: BigUintPtr) -> (r: Option<ExprPtr>)
        requires
            old(self).wf(),
            old(self).has_big(n),
        ensures
            final(self).wf(),
            old(self).grows_to(*final(self)),
            old(self).nat_extension ==> match nat_ctor(old(self).name_cache, n@) {
                Some(t) => r matches Some(p) && final(self).has_expr(p) && p@ == t,
                None => r is None,
            },
            !old(self).nat_extension ==> r is None,
    {
        proof {
            self.known_names();
        }
        if !self.nat_extension {
            return None;
        }
        let num = match self.read_bignum(n) {
            Some(b) => b.dup(),
            None => {
                return None;
            },
        };
        if num.is_zero() {
            match self.name_cache.nat_zero {
                Some(z) => Some(self.mk_plain(z)),
                None => None,
            }
        } else {
            match self.name_cache.nat_succ {
                Some(s) => {
                    let pred = crate::bignum::nat_sub(num, BigNat::from_u64(1));
                    match self.mk_nat_lit_quick(pred) {
                        Some(lit) => {
                            let f = self.mk_plain(s);
                            Some(self.mk_app(f, lit))
                        },
                        None => None,
                    }
                },
                None => None,
            }
        }
    }

    /// The term that a string literal stands for, where the names in it are known and there
    /// are number literals.
    pub fn str_lit_to_constructor(&mut self, s: StringPtr) -> (r: Option<ExprPtr>)
        requires
            old(self).wf(),
            old(self).has_string(s),
        ensures
            final(self).wf(),
            old(self).grows_to(*final(self)),
            old(self).nat_extension ==> match str_ctor(old(self).name_cache, s@) {
                Some(t) => r matches Some(p) && final(self).has_expr(p) && p@ == t,
                None => r is None,
            },
            !old(self).nat_extension ==> r is None,
    {
        proof {
            self.known_names();
        }
        if !self.nat_extension {
            return None;
        }
        let c = self.name_cache;
        match (c.string_of_list, c.list_cons, c.list_nil, c.char, c.char_of_nat) {
            (Some(of_list), Some(cons), Some(nil), Some(ch), Some(of_nat)) => {
                let mut zeros: Vec<LevelPtr> = Vec::new();
                zeros.push(self.zero());
                assert(level_trees(zeros@) =~= seq![Lv::Zero]);
                let zeros = self.alloc_levels(zeros);
                let char_t = self.mk_plain(ch);
                let cons_t = self.mk_const(cons, zeros);
                let cons_t = self.mk_app(cons_t, char_t);
                let nil_t = self.mk_const(nil, zeros);
                let nil_t = self.mk_app(nil_t, char_t);
                let of_nat_t = self.mk_plain(of_nat);
                let text: String = self.read_string(s).clone();
                let chars: &str = text.as_str();
                let n: usize = chars.unicode_len();
                let mut i: usize = n;
                let mut out = nil_t;
                while i > 0
                    invariant
                        i <= n,
                        n == s@.len(),
                        chars@ == s@,
                        self.wf(),
                        old(self).grows_to(*self),
                        self.nat_extension,
                        self.has_expr(cons_t),
                        self.has_expr(of_nat_t),
                        self.has_expr(out),
                        out@ == chars_tm(cons_t@, nil_t@, of_nat_t@, s@, i as nat),
                    decreases i,
                {
                    i = i - 1;
                    let code: u64 = chars.get_char(i) as u64;
                    let lit = match self.mk_nat_lit_quick(BigNat::from_u64(code)) {
                        Some(p) => p,
                        None => {
                            return None;
                        },
                    };
                    let x = self.mk_app(of_nat_t, lit);
                    let x = self.mk_app(cons_t, x);
                    out = self.mk_app(x, out);
                }
                let f = self.mk_plain(of_list);
                Some(self.mk_app(f, out))
            },
            _ => None,
        }
    }

    /// The inductive type that the major premise of a recursor belongs to.
    pub fn get_major_induct(&self, rec: &RecursorData) -> (r: Option<NamePtr>)
        requires
            self.wf(),
            self.has_expr(rec.info.ty),
        ensures
            match major_induct(*rec) {
                Some(n) => r matches Some(p) && self.has_name(p) && p@ == n,
                None => r is None,
            },
    {
        let mut k: usize = rec.major_idx();
        let mut e = rec.info.ty;
        while k > 0
            invariant
                self.wf(),
                self.has_expr(e),
                pi_drop(rec.info.ty@, rec.major_pos()) == pi_drop(e@, k as nat),
            decreases k,
        {
            match self.read_expr(e) {
                Expr::Pi { body, .. } => {
                    e = body;
                    k = k - 1;
                },
                _ => {
                    return None;
                },
            }
        }
        match self.read_expr(e) {
            Expr::Pi { binder_type, .. } => {
                let f = self.unfold_apps_fun(binder_type);
                match self.read_expr(f) {
                    Expr::Const { name, .. } => Some(name),
                    _ => None,
                }
            },
            _ => None,
        }
    }
}

} // verus!
