//! Classes of keys that were found to be equal.
use crate::cache::new_fx_hash_map_by_size;
use std::collections::HashMap;
use vstd::prelude::*;

verus! {

broadcast use vstd::std_specs::hash::group_hash_axioms;

/// The nodes of a forest point to nodes of higher rank, or to themselves.
spec fn forest(parent: Seq<u32>, rank: Seq<u8>) -> bool {
    &&& parent.len() == rank.len()
    &&& parent.len() <= 0x1_0000_0000
    &&& forall|i: int| 0 <= i < parent.len() ==> (#[trigger] parent[i]) < parent.len()
    &&& forall|i: int|
        0 <= i < parent.len() && #[trigger] parent[i] != i ==> rank[i] < rank[parent[i] as int]
}

/// The root of the tree that a node is in.
spec fn root_of(parent: Seq<u32>, rank: Seq<u8>, i: int) -> int
    decreases 256 - rank[i],
{
    let p = parent[i] as int;
    if p != i && rank[i] < rank[p] {
        root_of(parent, rank, p)
    } else {
        i
    }
}

/// The number of nodes below `n` whose root is `r`.
spec fn count(parent: Seq<u32>, rank: Seq<u8>, r: int, n: nat) -> nat
    decreases n,
{
    if n == 0 {
        0
    } else {
        count(parent, rank, r, (n - 1) as nat) + if root_of(parent, rank, n - 1) == r {
            1nat
        } else {
            0nat
        }
    }
}

/// Two to the power `k`.
spec fn two_to(k: nat) -> nat
    decreases k,
{
    if k == 0 {
        1
    } else {
        2 * two_to((k - 1) as nat)
    }
}

/// A root of rank `k` is the root of at least two to the power `k` nodes.
spec fn balanced(parent: Seq<u32>, rank: Seq<u8>) -> bool {
    forall|r: int|
        0 <= r < parent.len() && parent[r] == r ==> #[trigger] count(parent, rank, r, parent.len())
            >= two_to(rank[r] as nat)
}

proof fn two_to_grows(j: nat, k: nat)
    requires
        j <= k,
    ensures
        two_to(j) <= two_to(k),
        two_to(j) >= 1,
    decreases k,
{
    if j < k {
        two_to_grows(j, (k - 1) as nat);
    } else if j > 0 {
        two_to_grows((j - 1) as nat, (k - 1) as nat);
    }
}

proof fn two_to_32()
    ensures
        two_to(33) > 0x1_0000_0000,
{
    assert(two_to(33) == 0x2_0000_0000) by {
        reveal_with_fuel(two_to, 34);
    }
}

/// The root is a node that points to itself, and is its own root.
proof fn root_is_root(parent: Seq<u32>, rank: Seq<u8>, i: int)
    requires
        forest(parent, rank),
        0 <= i < parent.len(),
    ensures
        0 <= root_of(parent, rank, i) < parent.len(),
        parent[root_of(parent, rank, i)] == root_of(parent, rank, i),
        root_of(parent, rank, root_of(parent, rank, i)) == root_of(parent, rank, i),
        rank[i] <= rank[root_of(parent, rank, i)],
    decreases 256 - rank[i],
{
    let p = parent[i] as int;
    if p != i {
        root_is_root(parent, rank, p);
    }
}

/// Counts are equal where the roots are.
proof fn count_same(p: Seq<u32>, k: Seq<u8>, q: Seq<u32>, l: Seq<u8>, r: int, n: nat)
    requires
        forall|j: int| 0 <= j < n ==> #[trigger] root_of(p, k, j) == root_of(q, l, j),
    ensures
        count(p, k, r, n) == count(q, l, r, n),
    decreases n,
{
    if n > 0 {
        count_same(p, k, q, l, r, (n - 1) as nat);
        assert(root_of(p, k, n - 1) == root_of(q, l, n - 1));
    }
}

/// Where the nodes of one root come under another, the counts add up.
proof fn count_joined(
    p: Seq<u32>,
    k: Seq<u8>,
    q: Seq<u32>,
    l: Seq<u8>,
    lo: int,
    hi: int,
    n: nat,
)
    requires
        lo != hi,
        forall|j: int|
            0 <= j < n ==> #[trigger] root_of(q, l, j) == if root_of(p, k, j) == lo {
                hi
            } else {
                root_of(p, k, j)
            },
    ensures
        count(q, l, hi, n) == count(p, k, hi, n) + count(p, k, lo, n),
        forall|r: int| r != lo && r != hi ==> #[trigger] count(q, l, r, n) == count(p, k, r, n),
    decreases n,
{
    if n > 0 {
        count_joined(p, k, q, l, lo, hi, (n - 1) as nat);
        assert(root_of(q, l, n - 1) == if root_of(p, k, n - 1) == lo {
            hi
        } else {
            root_of(p, k, n - 1)
        });
        assert forall|r: int| r != lo && r != hi implies #[trigger] count(q, l, r, n) == count(
            p,
            k,
            r,
            n,
        ) by {
            assert(count(q, l, r, (n - 1) as nat) == count(p, k, r, (n - 1) as nat));
        }
    }
}

/// Pointing a node to its grandparent leaves all roots.
proof fn halving(parent: Seq<u32>, rank: Seq<u8>, i: int, j: int)
    requires
        forest(parent, rank),
        0 <= i < parent.len(),
        0 <= j < parent.len(),
    ensures
        ({
            let q = parent.update(i, parent[parent[i] as int]);
            &&& forest(q, rank)
            &&& root_of(q, rank, j) == root_of(parent, rank, j)
        }),
    decreases 256 - rank[j],
{
    let p = parent[i] as int;
    let g = parent[p] as int;
    let q = parent.update(i, parent[p]);
    assert(forest(q, rank)) by {
        assert(parent[p] < parent.len());
        assert(p != i ==> rank[i] < rank[p]);
        assert(g != p ==> rank[p] < rank[g]);
    }
    let pj = parent[j] as int;
    if pj != j {
        if j == i {
            if g != p {
                assert(rank[p] < rank[g]);
                halving(parent, rank, i, g);
                assert(root_of(parent, rank, p) == root_of(parent, rank, g));
            } else {
                halving(parent, rank, i, p);
            }
        } else {
            halving(parent, rank, i, pj);
        }
    }
}

/// Pointing one root to another of at least its rank puts its nodes under the other.
proof fn hooking(parent: Seq<u32>, rank: Seq<u8>, l: Seq<u8>, lo: int, hi: int, j: int)
    requires
        forest(parent, rank),
        0 <= lo < parent.len(),
        0 <= hi < parent.len(),
        lo != hi,
        parent[lo] == lo,
        parent[hi] == hi,
        l.len() == rank.len(),
        l[lo] < l[hi],
        forall|i: int| 0 <= i < rank.len() && i != hi ==> l[i] == rank[i],
        rank[hi] <= l[hi],
        0 <= j < parent.len(),
    ensures
        forest(parent.update(lo, hi as u32), l),
        root_of(parent.update(lo, hi as u32), l, j) == if root_of(parent, rank, j) == lo {
            hi
        } else {
            root_of(parent, rank, j)
        },
    decreases 256 - rank[j],
{
    let q = parent.update(lo, hi as u32);
    assert(q.len() <= 0x1_0000_0000);
    assert(q[lo] == hi);
    assert(forest(q, l)) by {
        assert forall|i: int| 0 <= i < q.len() && #[trigger] q[i] != i implies l[i] < l[q[i] as int] by {
            if i != lo {
                assert(parent[i] != i);
            }
        }
    }
    let p = parent[j] as int;
    if p != j {
        hooking(parent, rank, l, lo, hi, p);
        assert(j != lo && j != hi);
        assert(q[j] == p);
        assert(l[j] < l[p]);
    } else if j == lo {
        assert(root_of(q, l, hi) == hi);
    }
}

/// Classes of keys.
pub struct UnionFind {
    index: HashMap<usize, u32>,
    parent: Vec<u32>,
    rank: Vec<u8>,
}

impl UnionFind {
    /// The classes are well formed.
    pub closed spec fn wf(self) -> bool {
        &&& forest(self.parent@, self.rank@)
        &&& balanced(self.parent@, self.rank@)
        &&& forall|a: usize| #[trigger]
            self.index@.contains_key(a) ==> self.index@[a] < self.parent@.len()
        &&& self.index@.dom().finite()
        &&& self.index@.len() == self.parent@.len()
    }

    /// How many keys are in classes.
    pub closed spec fn keys(self) -> nat {
        self.index@.len()
    }

    /// There are as many places as there are keys in classes, each place leads to a place, a
    /// place that is not a root has a smaller rank than the one it leads to, and a class of a
    /// root of rank `n` has at least two to the `n` members.
    pub proof fn places(self)
        requires
            self.wf(),
        ensures
            self.keys() == self.size(),
            self.sound(),
    {
    }

    /// The places form a forest that is balanced by rank.
    pub closed spec fn sound(self) -> bool {
        forest(self.parent@, self.rank@) && balanced(self.parent@, self.rank@)
    }

    /// The key is in a class.
    pub closed spec fn known(self, a: usize) -> bool {
        self.index@.contains_key(a)
    }

    /// How many keys there were.
    pub closed spec fn size(self) -> nat {
        self.parent@.len()
    }

    /// The keys are in one class.
    pub closed spec fn joined(self, a: usize, b: usize) -> bool {
        &&& self.known(a)
        &&& self.known(b)
        &&& root_of(self.parent@, self.rank@, self.index@[a] as int) == root_of(
            self.parent@,
            self.rank@,
            self.index@[b] as int,
        )
    }

    /// Being in one class is reflexive on the keys that are in classes, symmetric and
    /// transitive.
    pub proof fn joined_is_equivalence(self, a: usize, b: usize, c: usize)
        ensures
            self.known(a) ==> self.joined(a, a),
            self.joined(a, b) ==> self.joined(b, a),
            self.joined(a, b) && self.joined(b, c) ==> self.joined(a, c),
            self.joined(a, b) ==> self.known(a) && self.known(b),
    {
    }

    /// No classes.
    pub fn new() -> (r: Self)
        ensures
            r.wf(),
            r.size() == 0,
            forall|a: usize| !#[trigger] r.known(a),
            forall|a: usize, b: usize| !#[trigger] r.joined(a, b),
    {
        UnionFind { index: new_fx_hash_map_by_size(), parent: Vec::new(), rank: Vec::new() }
    }

    /// Forgets all classes.
    pub fn clear(&mut self)
        ensures
            final(self).wf(),
            final(self).size() == 0,
            forall|a: usize| !#[trigger] final(self).known(a),
            forall|a: usize, b: usize| !#[trigger] final(self).joined(a, b),
    {
        self.index.clear();
        self.parent.clear();
        self.rank.clear();
    }

    /// How many keys there were.
    pub fn len(&self) -> (r: usize)
        ensures
            r == self.size(),
    {
        self.parent.len()
    }

    fn get_or_push(&mut self, a: usize) -> (r: u32)
        requires
            old(self).wf(),
            old(self).size() <= u32::MAX,
        ensures
            final(self).wf(),
            final(self).index@.contains_key(a),
            final(self).index@[a] == r,
            old(self).known(a) ==> *final(self) == *old(self),
            forall|x: usize|
                old(self).index@.contains_key(x) ==> #[trigger] final(self).index@[x]
                    == old(self).index@[x],
            final(self).size() <= old(self).size() + 1,
            forall|x: usize| #[trigger]
                final(self).known(x) <==> old(self).known(x) || x == a,
            forall|x: usize, y: usize| #[trigger]
                final(self).joined(x, y) <==> old(self).joined(x, y) || (x == a && y == a),
    {
        let next: u32 = self.parent.len() as u32;
        match self.index.get(&a) {
            Some(i) => {
                return *i;
            },
            None => {},
        }
        let ghost p = self.parent@;
        let ghost k = self.rank@;
        let ghost before = self.index@;
        self.index.insert(a, next);
        self.parent.push(next);
        self.rank.push(0);
        proof {
            let q = self.parent@;
            let l = self.rank@;
            assert forall|j: int| 0 <= j < p.len() implies #[trigger] root_of(p, k, j) == root_of(
                q,
                l,
                j,
            ) by {
                pushed(p, k, next, j);
            }
            assert(root_of(q, l, p.len() as int) == p.len());
            assert forall|r: int| 0 <= r < q.len() && q[r] == r implies #[trigger] count(
                q,
                l,
                r,
                q.len(),
            ) >= two_to(l[r] as nat) by {
                count_same(p, k, q, l, r, p.len());
                assert(count(q, l, r, q.len()) == count(q, l, r, p.len()) + if root_of(
                    q,
                    l,
                    p.len() as int,
                ) == r {
                    1nat
                } else {
                    0nat
                });
                if r < p.len() {
                    assert(p[r] == r);
                    assert(count(p, k, r, p.len()) >= two_to(k[r] as nat));
                }
            }
            assert forall|x: usize, y: usize| #[trigger] self.joined(x, y) <==> old(self).joined(
                x,
                y,
            ) || (x == a && y == a) by {
                if before.contains_key(x) {
                    root_is_root(p, k, before[x] as int);
                }
                if before.contains_key(y) {
                    root_is_root(p, k, before[y] as int);
                }
            }
        }
        next
    }

    fn root(&mut self, start: u32) -> (r: u32)
        requires
            old(self).wf(),
            start < old(self).size(),
        ensures
            final(self).wf(),
            final(self).index == old(self).index,
            final(self).rank == old(self).rank,
            final(self).parent@.len() == old(self).parent@.len(),
            forall|j: int|
                0 <= j < old(self).parent@.len() ==> #[trigger] root_of(
                    final(self).parent@,
                    final(self).rank@,
                    j,
                ) == root_of(old(self).parent@, old(self).rank@, j),
            r == root_of(old(self).parent@, old(self).rank@, start as int),
            r < final(self).parent@.len(),
            final(self).parent@[r as int] == r,
    {
        let mut i: u32 = start;
        let ghost p0 = self.parent@;
        let ghost k = self.rank@;
        loop
            invariant
                self.wf(),
                self.rank@ == k,
                self.rank == old(self).rank,
                self.index == old(self).index,
                p0 == old(self).parent@,
                k == old(self).rank@,
                self.parent@.len() == p0.len(),
                i < p0.len(),
                start < p0.len(),
                forall|j: int|
                    0 <= j < p0.len() ==> #[trigger] root_of(self.parent@, k, j) == root_of(p0, k, j),
                root_of(self.parent@, k, i as int) == root_of(p0, k, start as int),
            decreases 256 - k[i as int],
        {
            let p: u32 = self.parent[i as usize];
            if p == i {
                return i;
            }
            assert(k[i as int] < k[p as int]);
            let g: u32 = self.parent[p as usize];
            let ghost before = self.parent@;
            self.parent.set(i as usize, g);
            proof {
                assert forall|j: int| 0 <= j < p0.len() implies #[trigger] root_of(
                    self.parent@,
                    k,
                    j,
                ) == root_of(before, k, j) by {
                    halving(before, k, i as int, j);
                }
                halving(before, k, i as int, 0);
                assert forall|r: int|
                    0 <= r < self.parent@.len() && self.parent@[r] == r implies #[trigger] count(
                    self.parent@,
                    k,
                    r,
                    self.parent@.len(),
                ) >= two_to(k[r] as nat) by {
                    count_same(before, k, self.parent@, k, r, before.len());
                    if r == i {
                        assert(g == i);
                        assert(g != p ==> k[p as int] < k[g as int]);
                    }
                    assert(before[r] == r);
                }
                assert(root_of(before, k, i as int) == root_of(before, k, p as int));
                assert(root_of(before, k, p as int) == root_of(before, k, g as int));
            }
            i = g;
        }
    }

    /// Whether two keys are in one class.
    pub fn equiv(&mut self, a: usize, b: usize) -> (r: bool)
        requires
            old(self).wf(),
        ensures
            final(self).wf(),
            r == old(self).joined(a, b),
            final(self).size() == old(self).size(),
            forall|x: usize| #[trigger] final(self).known(x) <==> old(self).known(x),
            forall|x: usize, y: usize| #[trigger]
                final(self).joined(x, y) <==> old(self).joined(x, y),
    {
        let ia: u32 = match self.index.get(&a) {
            Some(i) => *i,
            None => {
                return false;
            },
        };
        let ib: u32 = match self.index.get(&b) {
            Some(i) => *i,
            None => {
                return false;
            },
        };
        if ia == ib {
            return true;
        }
        let ra: u32 = self.root(ia);
        let rb: u32 = self.root(ib);
        ra == rb
    }

    /// Puts the classes of two keys together.
    pub fn union(&mut self, a: usize, b: usize)
        requires
            old(self).wf(),
            old(self).size() < u32::MAX,
        ensures
            final(self).wf(),
            final(self).size() <= old(self).size() + 2,
            forall|x: usize| #[trigger]
                final(self).known(x) <==> old(self).known(x) || x == a || x == b,
            forall|x: usize, y: usize| #[trigger]
                final(self).joined(x, y) <==> {
                    ||| old(self).with(a, b, x, y)
                    ||| old(self).with(a, b, x, a) && old(self).with(a, b, b, y)
                    ||| old(self).with(a, b, x, b) && old(self).with(a, b, a, y)
                },
    {
        let ia: u32 = self.get_or_push(a);
        let ghost one = *self;
        let ib: u32 = self.get_or_push(b);
        assert(self.index@.contains_key(a) && self.index@[a] == ia) by {
            assert(self.known(a));
        }
        assert(forall|x: usize, y: usize| #[trigger]
            self.joined(x, y) <==> old(self).with(a, b, x, y));
        let ghost mid = *self;
        let ra: u32 = self.root(ia);
        let rb: u32 = self.root(ib);
        let ghost p = self.parent@;
        let ghost k = self.rank@;
        assert(forall|x: usize, y: usize| #[trigger] self.joined(x, y) <==> mid.joined(x, y));
        assert(ra == root_of(p, k, ia as int) && rb == root_of(p, k, ib as int));
        proof {
            root_is_root(p, k, ia as int);
            root_is_root(p, k, ib as int);
            assert forall|x: usize| #[trigger] self.known(x) <==> old(self).known(x) || x == a || x
                == b by {
                assert(one.known(x) <==> old(self).known(x) || x == a);
                assert(mid.known(x) <==> one.known(x) || x == b);
            }
        }
        let ghost hooked = *self;
        if ra == rb {
            assert(self.joined(a, b));
            assert forall|x: usize, y: usize| #[trigger] self.joined(x, y) <==> ({
                ||| old(self).with(a, b, x, y)
                ||| old(self).with(a, b, x, a) && old(self).with(a, b, b, y)
                ||| old(self).with(a, b, x, b) && old(self).with(a, b, a, y)
            }) by {
                assert(mid.joined(x, a) <==> old(self).with(a, b, x, a));
                assert(mid.joined(b, y) <==> old(self).with(a, b, b, y));
                assert(mid.joined(x, b) <==> old(self).with(a, b, x, b));
                assert(mid.joined(a, y) <==> old(self).with(a, b, a, y));
                assert(self.joined(x, a) <==> mid.joined(x, a));
                assert(self.joined(b, y) <==> mid.joined(b, y));
                assert(self.joined(x, b) <==> mid.joined(x, b));
                assert(self.joined(a, y) <==> mid.joined(a, y));
            }
            return ;
        }
        let (lo, hi): (u32, u32) = if self.rank[ra as usize] < self.rank[rb as usize] {
            (ra, rb)
        } else {
            (rb, ra)
        };
        let equal = self.rank[lo as usize] == self.rank[hi as usize];
        proof {
            let n = p.len();
            assert(count(p, k, lo as int, n) >= two_to(k[lo as int] as nat));
            assert(count(p, k, hi as int, n) >= two_to(k[hi as int] as nat));
            if equal {
                disjoint_counts(p, k, lo as int, hi as int, n);
                let r = k[hi as int] as nat;
                assert(two_to(r + 1) <= 0x1_0000_0000);
                two_to_32();
                if r + 1 >= 33 {
                    two_to_grows(33, r + 1);
                }
            }
        }
        self.parent.set(lo as usize, hi);
        if equal {
            let up: u8 = self.rank[hi as usize] + 1;
            self.rank.set(hi as usize, up);
        }
        proof {
            let q = self.parent@;
            let l = self.rank@;
            let n = p.len();
            assert forall|j: int| 0 <= j < n implies #[trigger] root_of(q, l, j) == if root_of(
                p,
                k,
                j,
            ) == lo {
                hi as int
            } else {
                root_of(p, k, j)
            } by {
                hooking(p, k, l, lo as int, hi as int, j);
            }
            hooking(p, k, l, lo as int, hi as int, 0);
            count_joined(p, k, q, l, lo as int, hi as int, n);
            assert forall|r: int| 0 <= r < q.len() && q[r] == r implies #[trigger] count(
                q,
                l,
                r,
                q.len(),
            ) >= two_to(l[r] as nat) by {
                if r == hi {
                } else {
                    assert(r != lo);
                    assert(p[r] == r);
                    assert(count(p, k, r, n) >= two_to(k[r] as nat));
                }
            }
            assert forall|x: usize| #[trigger] self.known(x) <==> old(self).known(x) || x == a || x
                == b by {
                assert(hooked.known(x) <==> old(self).known(x) || x == a || x == b);
            }
            assert forall|x: usize, y: usize| #[trigger] self.joined(x, y) <==> ({
                ||| old(self).with(a, b, x, y)
                ||| old(self).with(a, b, x, a) && old(self).with(a, b, b, y)
                ||| old(self).with(a, b, x, b) && old(self).with(a, b, a, y)
            }) by {
                assert(hooked.joined(x, y) <==> mid.joined(x, y));
                assert(hooked.joined(x, a) <==> mid.joined(x, a));
                assert(hooked.joined(b, y) <==> mid.joined(b, y));
                assert(hooked.joined(x, b) <==> mid.joined(x, b));
                assert(hooked.joined(a, y) <==> mid.joined(a, y));
                assert(mid.joined(x, y) <==> old(self).with(a, b, x, y));
                assert(mid.joined(x, a) <==> old(self).with(a, b, x, a));
                assert(mid.joined(b, y) <==> old(self).with(a, b, b, y));
                assert(mid.joined(x, b) <==> old(self).with(a, b, x, b));
                assert(mid.joined(a, y) <==> old(self).with(a, b, a, y));
            }
        }
    }

    /// The keys are in one class once `a` and `b` are in classes.
    pub open spec fn with(self, a: usize, b: usize, x: usize, y: usize) -> bool {
        self.joined(x, y) || (x == y && (x == a || x == b))
    }
}

/// The keys are in one class after the unions of the pairs, from no classes on.
pub open spec fn linked(ps: Seq<(usize, usize)>, x: usize, y: usize) -> bool
    decreases ps.len(), 0nat,
{
    if ps.len() == 0 {
        false
    } else {
        let before = ps.drop_last();
        let a = ps.last().0;
        let b = ps.last().1;
        ||| linked_with(before, a, b, x, y)
        ||| linked_with(before, a, b, x, a) && linked_with(before, a, b, b, y)
        ||| linked_with(before, a, b, x, b) && linked_with(before, a, b, a, y)
    }
}

/// The keys are in one class, or are one key of a new pair.
pub open spec fn linked_with(ps: Seq<(usize, usize)>, a: usize, b: usize, x: usize, y: usize) -> bool
    decreases ps.len(), 1nat,
{
    linked(ps, x, y) || (x == y && (x == a || x == b))
}

/// The second state is what the union of the pair makes of the first.
pub open spec fn unites(u: UnionFind, w: UnionFind, p: (usize, usize)) -> bool {
    forall|x: usize, y: usize| #[trigger]
        w.joined(x, y) <==> {
            ||| u.with(p.0, p.1, x, y)
            ||| u.with(p.0, p.1, x, p.0) && u.with(p.0, p.1, p.1, y)
            ||| u.with(p.0, p.1, x, p.1) && u.with(p.0, p.1, p.0, y)
        }
}

/// After a list of unions, from no classes on, two keys are in one class exactly if the list
/// links them.
pub proof fn joined_after(us: Seq<UnionFind>, ps: Seq<(usize, usize)>, x: usize, y: usize)
    requires
        us.len() == ps.len() + 1,
        forall|a: usize, b: usize| !#[trigger] us[0].joined(a, b),
        forall|i: int| 0 <= i < ps.len() ==> unites(us[i], us[i + 1], #[trigger] ps[i]),
    ensures
        us.last().joined(x, y) <==> linked(ps, x, y),
    decreases ps.len(),
{
    if ps.len() > 0 {
        let before = ps.drop_last();
        let vs = us.drop_last();
        let p = ps.last();
        assert forall|i: int| 0 <= i < before.len() implies unites(
            vs[i],
            vs[i + 1],
            #[trigger] before[i],
        ) by {
            assert(before[i] == ps[i]);
        }
        assert forall|c: usize, d: usize| #[trigger] vs.last().joined(c, d) <==> linked(before, c, d) by {
            joined_after(vs, before, c, d);
        }
        assert(unites(us[ps.len() - 1], us[ps.len() as int], ps[ps.len() - 1]));
        assert(vs.last() == us[ps.len() - 1]);
        assert(us.last() == us[ps.len() as int]);
        let v = vs.last();
        assert(v.joined(x, y) == linked(before, x, y));
        assert(v.joined(x, p.0) == linked(before, x, p.0));
        assert(v.joined(p.1, y) == linked(before, p.1, y));
        assert(v.joined(x, p.1) == linked(before, x, p.1));
        assert(v.joined(p.0, y) == linked(before, p.0, y));
    }
}

proof fn pushed(p: Seq<u32>, k: Seq<u8>, next: u32, j: int)
    requires
        forest(p, k),
        0 <= j < p.len(),
        next == p.len(),
    ensures
        root_of(p, k, j) == root_of(p.push(next), k.push(0), j),
    decreases 256 - k[j],
{
    let q = p[j] as int;
    if q != j {
        pushed(p, k, next, q);
    }
}

proof fn disjoint_counts(p: Seq<u32>, k: Seq<u8>, r: int, s: int, n: nat)
    requires
        r != s,
    ensures
        count(p, k, r, n) + count(p, k, s, n) <= n,
    decreases n,
{
    if n > 0 {
        disjoint_counts(p, k, r, s, (n - 1) as nat);
    }
}

} // verus!
