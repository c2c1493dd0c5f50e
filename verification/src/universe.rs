//! Operations on universe levels.
use crate::ctx::TcCtx;
use crate::dag::level_trees;
use crate::level::Level;
use crate::ptr::{LevelPtr, LevelsPtr};
use crate::tree::{
    distinct_params, lv_combine, lv_defined, lv_is_zero, lv_lookup, lv_simplify, lv_subst,
    lvs_defined, lvs_subst, Lv,
};
use vstd::prelude::*;

verus! {

impl<'t> TcCtx<'t> {
    /// The maximum of two levels, with common successors taken out and zeros dropped.
    pub fn combine(&mut self, l: LevelPtr, r: LevelPtr) -> (out: LevelPtr)
        requires
            old(self).wf(),
            old(self).has_level(l),
            old(self).has_level(r),
        ensures
            final(self).wf(),
            old(self).grows_to(*final(self)),
            final(self).has_level(out),
            out@ == lv_combine(l@, r@),
        decreases l@,
    {
        match self.read_level_pair(l, r) {
            (Level::Zero, _) => r,
            (_, Level::Zero) => l,
            (Level::Succ(a, _), Level::Succ(b, _)) => {
                let c = self.combine(a, b);
                self.succ(c)
            },
            _ => self.max(l, r),
        }
    }

    /// The level in simpler form.
    pub fn simplify(&mut self, l: LevelPtr) -> (r: LevelPtr)
        requires
            old(self).wf(),
            old(self).has_level(l),
        ensures
            final(self).wf(),
            old(self).grows_to(*final(self)),
            final(self).has_level(r),
            r@ == lv_simplify(l@),
        decreases l@,
    {
        match self.read_level(l) {
            Level::Zero => l,
            Level::Param(..) => l,
            Level::Succ(a, _) => {
                let a = self.simplify(a);
                self.succ(a)
            },
            Level::Max(a, b, _) => {
                let a = self.simplify(a);
                let b = self.simplify(b);
                self.combine(a, b)
            },
            Level::IMax(a, b, _) => {
                let y = self.simplify(b);
                match self.read_level(y) {
                    Level::Zero => y,
                    Level::Succ(..) => {
                        let a = self.simplify(a);
                        self.combine(a, y)
                    },
                    _ => {
                        let a = self.simplify(a);
                        self.imax(a, y)
                    },
                }
            },
        }
    }

    /// Whether the level is zero whatever its parameters are.
    pub fn is_zero(&self, l: LevelPtr) -> (r: bool)
        requires
            self.wf(),
            self.has_level(l),
        ensures
            r == lv_is_zero(l@),
        decreases l@,
    {
        match self.read_level(l) {
            Level::Zero => true,
            Level::Succ(..) => false,
            Level::Param(..) => false,
            Level::Max(a, b, _) => {
                assert(l@ matches Lv::Max(x, y) && *x == a@ && *y == b@);
                self.is_zero(a) && self.is_zero(b)
            },
            Level::IMax(_, b, _) => {
                assert(l@ matches Lv::IMax(_, y) && *y == b@);
                self.is_zero(b)
            },
        }
    }

    /// Whether every parameter of the level is one of `ps`.
    pub fn all_uparams_defined(&self, l: LevelPtr, ps: LevelsPtr) -> (r: bool)
        requires
            self.wf(),
            self.has_level(l),
            self.has_levels(ps),
        ensures
            r == lv_defined(l@, ps@),
        decreases l@,
    {
        match self.read_level(l) {
            Level::Zero => true,
            Level::Succ(a, _) => {
                assert(l@ matches Lv::Succ(x) && *x == a@);
                self.all_uparams_defined(a, ps)
            },
            Level::Max(a, b, _) => {
                assert(l@ matches Lv::Max(x, y) && *x == a@ && *y == b@);
                self.all_uparams_defined(a, ps) && self.all_uparams_defined(b, ps)
            },
            Level::IMax(a, b, _) => {
                assert(l@ matches Lv::IMax(x, y) && *x == a@ && *y == b@);
                self.all_uparams_defined(a, ps) && self.all_uparams_defined(b, ps)
            },
            Level::Param(..) => {
                let items = self.read_levels(ps);
                let mut i: usize = 0;
                while i < items.len()
                    invariant
                        i <= items@.len(),
                        self.wf(),
                        self.has_level(l),
                        self.list_fits(items@),
                        level_trees(items@) == ps@,
                        l@ is Param,
                        forall|j: int| 0 <= j < i ==> ps@[j] != l@,
                    decreases items@.len() - i,
                {
                    assert(ps@[i as int] == items@[i as int]@);
                    if self.eq_level(items[i], l) {
                        return true;
                    }
                    i = i + 1;
                }
                false
            },
        }
    }

    /// Whether every level of a list has its parameters among `ps`.
    pub fn all_levels_defined(&self, ls: LevelsPtr, ps: LevelsPtr) -> (r: bool)
        requires
            self.wf(),
            self.has_levels(ls),
            self.has_levels(ps),
        ensures
            r == lvs_defined(ls@, ps@),
    {
        let items = self.read_levels(ls);
        let mut i: usize = 0;
        while i < items.len()
            invariant
                i <= items@.len(),
                self.wf(),
                self.has_levels(ps),
                self.list_fits(items@),
                level_trees(items@) == ls@,
                forall|j: int| 0 <= j < i ==> lv_defined(#[trigger] ls@[j], ps@),
            decreases items@.len() - i,
        {
            assert(ls@[i as int] == items@[i as int]@);
            if !self.all_uparams_defined(items[i], ps) {
                return false;
            }
            i = i + 1;
        }
        true
    }

    /// Whether the levels are parameters, each named once.
    pub fn no_dupes_all_params(&self, ls: LevelsPtr) -> (r: bool)
        requires
            self.wf(),
            self.has_levels(ls),
        ensures
            r == distinct_params(ls@),
    {
        let items = self.read_levels(ls);
        let mut i: usize = 0;
        while i < items.len()
            invariant
                i <= items@.len(),
                self.wf(),
                self.list_fits(items@),
                level_trees(items@) == ls@,
                forall|j: int| 0 <= j < i ==> (#[trigger] ls@[j]) is Param,
                forall|j: int, k: int| 0 <= j < k < i ==> ls@[j] != ls@[k],
            decreases items@.len() - i,
        {
            assert(ls@[i as int] == items@[i as int]@);
            match self.read_level(items[i]) {
                Level::Param(..) => {},
                _ => {
                    return false;
                },
            }
            let mut j: usize = 0;
            while j < i
                invariant
                    j <= i < items@.len(),
                    self.wf(),
                    self.list_fits(items@),
                    level_trees(items@) == ls@,
                    forall|k: int| 0 <= k < j ==> ls@[k] != ls@[i as int],
                decreases i - j,
            {
                assert(ls@[i as int] == items@[i as int]@);
                assert(ls@[j as int] == items@[j as int]@);
                if self.eq_level(items[j], items[i]) {
                    return false;
                }
                j = j + 1;
            }
            i = i + 1;
        }
        true
    }

    /// The level with the parameters `ks` replaced by `vs`.
    pub fn subst_level(&mut self, l: LevelPtr, ks: LevelsPtr, vs: LevelsPtr) -> (r: LevelPtr)
        requires
            old(self).wf(),
            old(self).has_level(l),
            old(self).has_levels(ks),
            old(self).has_levels(vs),
        ensures
            final(self).wf(),
            old(self).grows_to(*final(self)),
            final(self).has_level(r),
            r@ == lv_subst(l@, ks@, vs@),
        decreases l@,
    {
        match self.read_level(l) {
            Level::Zero => l,
            Level::Succ(a, _) => {
                let a = self.subst_level(a, ks, vs);
                self.succ(a)
            },
            Level::Max(a, b, _) => {
                let a = self.subst_level(a, ks, vs);
                let b = self.subst_level(b, ks, vs);
                self.max(a, b)
            },
            Level::IMax(a, b, _) => {
                let a = self.subst_level(a, ks, vs);
                let b = self.subst_level(b, ks, vs);
                self.imax(a, b)
            },
            Level::Param(n, _) => {
                let keys = self.read_levels(ks);
                let vals = self.read_levels(vs);
                let mut i: usize = 0;
                proof {
                    assert(ks@.skip(0) =~= ks@);
                    assert(vs@.skip(0) =~= vs@);
                }
                while i < keys.len() && i < vals.len()
                    invariant
                        i <= keys@.len(),
                        i <= vals@.len(),
                        self.wf(),
                        self.has_level(l),
                        l@ == Lv::Param(n@),
                        self.list_fits(keys@),
                        self.list_fits(vals@),
                        level_trees(keys@) == ks@,
                        level_trees(vals@) == vs@,
                        lv_lookup(n@, ks@, vs@) == lv_lookup(
                            n@,
                            ks@.skip(i as int),
                            vs@.skip(i as int),
                        ),
                    decreases keys@.len() - i,
                {
                    assert(ks@[i as int] == keys@[i as int]@);
                    assert(vs@[i as int] == vals@[i as int]@);
                    assert(ks@.skip(i as int).drop_first() =~= ks@.skip(i + 1));
                    assert(vs@.skip(i as int).drop_first() =~= vs@.skip(i + 1));
                    if self.eq_level(keys[i], l) {
                        return vals[i];
                    }
                    i = i + 1;
                }
                l
            },
        }
    }

    /// Each level of a list with the parameters `ks` replaced by `vs`.
    pub fn subst_levels(&mut self, ls: LevelsPtr, ks: LevelsPtr, vs: LevelsPtr) -> (r: LevelsPtr)
        requires
            old(self).wf(),
            old(self).has_levels(ls),
            old(self).has_levels(ks),
            old(self).has_levels(vs),
        ensures
            final(self).wf(),
            old(self).grows_to(*final(self)),
            final(self).has_levels(r),
            r@ == lvs_subst(ls@, ks@, vs@),
    {
        let n: usize = self.read_levels(ls).len();
        let mut out: Vec<LevelPtr> = Vec::new();
        let mut i: usize = 0;
        assert(n == ls@.len());
        while i < n
            invariant
                i <= n,
                n == ls@.len(),
                self.wf(),
                old(self).grows_to(*self),
                self.has_levels(ls),
                self.has_levels(ks),
                self.has_levels(vs),
                self.list_fits(out@),
                out@.len() == i,
                forall|j: int| 0 <= j < i ==> (#[trigger] out@[j])@ == lv_subst(ls@[j], ks@, vs@),
            decreases n - i,
        {
            let items = self.read_levels(ls);
            assert(ls@[i as int] == items@[i as int]@);
            let l = items[i];
            let x = self.subst_level(l, ks, vs);
            out.push(x);
            i = i + 1;
        }
        assert(level_trees(out@) =~= lvs_subst(ls@, ks@, vs@));
        self.alloc_levels(out)
    }
}

} // verus!
