//! Finding names by their dotted form, and the names that the checker knows.
use crate::ctx::NameCache;
use crate::dag::{Dag, Stores};
use crate::hash::Node;
use crate::name::Name;
use crate::ptr::{NamePtr, Ptr, StringPtr};
use crate::tree::Nm;
use vstd::prelude::*;

verus! {

/// The characters are digits.
pub open spec fn is_digits(s: Seq<char>) -> bool {
    forall|i: int| 0 <= i < s.len() ==> '0' <= #[trigger] s[i] <= '9'
}

/// The number that digits stand for.
pub open spec fn digits_val(s: Seq<char>) -> nat
    decreases s.len(),
{
    if s.len() == 0 {
        0
    } else {
        digits_val(s.drop_last()) * 10 + (s.last() as nat - '0' as nat) as nat
    }
}

/// The characters behind a plus sign, if there is one in front.
pub open spec fn unsigned(s: Seq<char>) -> Seq<char> {
    if s.len() > 0 && s[0] == '+' {
        s.skip(1)
    } else {
        s
    }
}

/// The number that is written: digits, perhaps with a plus sign in front, for a number of
/// at most 64 bits.
pub open spec fn written_number(s: Seq<char>) -> Option<u64> {
    let t = unsigned(s);
    if t.len() > 0 && is_digits(t) && digits_val(t) <= u64::MAX {
        Some(digits_val(t) as u64)
    } else {
        None
    }
}

/// More digits make no smaller number.
proof fn digits_val_grows(s: Seq<char>, i: int)
    requires
        0 <= i <= s.len(),
    ensures
        digits_val(s.take(i)) <= digits_val(s),
    decreases s.len(),
{
    if i < s.len() {
        digits_val_grows(s.drop_last(), i);
        assert(s.drop_last().take(i) =~= s.take(i));
    } else {
        assert(s.take(i) =~= s);
    }
}

/// Reads a number.
pub fn parse_number(s: &str) -> (r: Option<u64>)
    ensures
        r == written_number(s@),
{
    let n: usize = s.unicode_len();
    let from: usize = if n > 0 && s.get_char(0) == '+' {
        1
    } else {
        0
    };
    let ghost t = unsigned(s@);
    assert(t =~= s@.skip(from as int));
    if from >= n {
        return None;
    }
    let mut acc: u64 = 0;
    let mut i: usize = from;
    assert(t.take(0) =~= Seq::<char>::empty());
    while i < n
        invariant
            from <= i <= n,
            n == s@.len(),
            t == unsigned(s@),
            t == s@.skip(from as int),
            acc == digits_val(t.take(i - from)),
            is_digits(t.take(i - from)),
        decreases n - i,
    {
        let c: char = s.get_char(i);
        proof {
            assert(t[i - from] == c);
            assert(t.take(i + 1 - from).drop_last() =~= t.take(i - from));
            assert(t.take(i + 1 - from).last() == c);
        }
        if c < '0' || c > '9' {
            assert(!is_digits(t));
            return None;
        }
        let d: u64 = c as u64 - '0' as u64;
        if acc > 0x1999_9999_9999_9999 || (acc == 0x1999_9999_9999_9999 && d > 5) {
            proof {
                digits_val_grows(t, i + 1 - from);
            }
            return None;
        }
        acc = acc * 10 + d;
        proof {
            let u = t.take(i + 1 - from);
            assert forall|j: int| 0 <= j < u.len() implies '0' <= #[trigger] u[j] <= '9' by {
                if j < i - from {
                    assert(t.take(i - from)[j] == u[j]);
                }
            }
        }
        i = i + 1;
    }
    assert(t.take(n - from) =~= t);
    Some(acc)
}

/// The position of the first dot, or the length where there is none.
pub open spec fn first_dot(s: Seq<char>) -> nat
    decreases s.len(),
{
    if s.len() == 0 || s[0] == '.' {
        0
    } else {
        1 + first_dot(s.skip(1))
    }
}

/// The first dot is where it is said to be.
proof fn first_dot_at(s: Seq<char>, i: int)
    requires
        0 <= i <= s.len(),
        i < s.len() ==> s[i] == '.',
        forall|j: int| 0 <= j < i ==> #[trigger] s[j] != '.',
    ensures
        first_dot(s) == i,
    decreases i,
{
    if i > 0 {
        assert(s[0] != '.');
        let t = s.skip(1);
        assert forall|j: int| 0 <= j < i - 1 implies #[trigger] t[j] != '.' by {
            assert(s[j + 1] != '.');
        }
        first_dot_at(t, i - 1);
    }
}

proof fn first_dot_bound(s: Seq<char>)
    ensures
        first_dot(s) <= s.len(),
    decreases s.len(),
{
    if s.len() > 0 && s[0] != '.' {
        first_dot_bound(s.skip(1));
    }
}

/// The name with one more component: a number where the component is one.
pub open spec fn component(pfx: Nm, s: Seq<char>) -> Nm {
    match written_number(s) {
        Some(n) => Nm::Num(Box::new(pfx), n),
        None => Nm::Str(Box::new(pfx), s),
    }
}

/// The name with the components that dots separate.
pub open spec fn dotted(pfx: Nm, s: Seq<char>) -> Nm
    decreases s.len(),
{
    let i = first_dot(s);
    if i >= s.len() {
        component(pfx, s)
    } else {
        dotted(component(pfx, s.take(i as int)), s.skip(i as int + 1))
    }
}

proof fn first_dot_of(s: Seq<char>)
    ensures
        first_dot(s) < s.len() ==> s[first_dot(s) as int] == '.',
        forall|j: int| 0 <= j < first_dot(s) ==> #[trigger] s[j] != '.',
    decreases s.len(),
{
    if s.len() > 0 && s[0] != '.' {
        let t = s.skip(1);
        first_dot_of(t);
        first_dot_bound(t);
        assert forall|j: int| 0 <= j < first_dot(s) implies #[trigger] s[j] != '.' by {
            if j > 0 {
                assert(t[j - 1] != '.');
            }
        }
    }
}

/// A dotted name with one more dot and a component without dots behind it is the name with
/// one more component.
pub proof fn dotted_snoc(pfx: Nm, s: Seq<char>, c: Seq<char>)
    requires
        forall|j: int| 0 <= j < c.len() ==> #[trigger] c[j] != '.',
    ensures
        dotted(pfx, s.push('.') + c) == component(dotted(pfx, s), c),
    decreases s.len(),
{
    let all = s.push('.') + c;
    let i = first_dot(s) as int;
    first_dot_of(s);
    first_dot_bound(s);
    assert forall|j: int| 0 <= j < i implies #[trigger] all[j] != '.' by {
        assert(s[j] != '.');
    }
    first_dot_at(all, i);
    if i >= s.len() {
        assert(all.take(i) =~= s);
        assert(all.skip(i + 1) =~= c);
        first_dot_at(c, c.len() as int);
        assert(dotted(component(pfx, s), c) == component(component(pfx, s), c));
        assert(dotted(pfx, s) == component(pfx, s));
        assert(dotted(pfx, all) == dotted(component(pfx, s), c));
    } else {
        assert(all.take(i) =~= s.take(i));
        assert(all.skip(i + 1) =~= s.skip(i + 1).push('.') + c);
        dotted_snoc(component(pfx, s.take(i)), s.skip(i + 1), c);
        assert(dotted(pfx, all) == dotted(component(pfx, s.take(i)), all.skip(i + 1)));
        assert(dotted(pfx, s) == dotted(component(pfx, s.take(i)), s.skip(i + 1)));
    }
}

/// A name is stored.
pub open spec fn stored(st: Stores, n: Nm) -> bool {
    exists|p: NamePtr| #[trigger] st.has_name(p) && p@ == n
}

/// With a name its prefix is stored.
proof fn prefix_stored(st: Stores, pfx: Nm, s: Seq<char>)
    requires
        st.ok(),
        stored(st, component(pfx, s)),
    ensures
        stored(st, pfx),
{
    let p = choose|p: NamePtr| #[trigger] st.has_name(p) && p@ == component(pfx, s);
    st.name_node_ok(p);
    match st.name_node(p) {
        Name::Str(q, _, _) => {
            assert(st.has_name(q) && q@ == pfx);
        },
        Name::Num(q, _, _) => {
            assert(st.has_name(q) && q@ == pfx);
        },
        Name::Anon => {},
    }
}

/// With a dotted name what it begins with is stored.
proof fn dotted_stored(st: Stores, pfx: Nm, s: Seq<char>)
    requires
        st.ok(),
        stored(st, dotted(pfx, s)),
    ensures
        stored(st, pfx),
    decreases s.len(),
{
    let i = first_dot(s);
    if i >= s.len() {
        prefix_stored(st, pfx, s);
    } else {
        let next = component(pfx, s.take(i as int));
        dotted_stored(st, next, s.skip(i as int + 1));
        prefix_stored(st, pfx, s.take(i as int));
    }
}

impl Dag {
    /// The store alone.
    pub open spec fn alone(self) -> Stores {
        Stores { shared: None, own: self }
    }

    /// The pointer to a string of the store.
    pub fn get_string_ptr(&self, s: &str) -> (r: Option<StringPtr>)
        requires
            self.alone().ok(),
        ensures
            r matches Some(p) ==> self.alone().has_string(p) && p@ == s@,
            r is None ==> forall|p: StringPtr| #[trigger] self.alone().has_string(p) ==> p@ != s@,
    {
        match self.strings.get_str(s) {
            Some(i) => Some(Ptr::global(i, Ghost(s@))),
            None => None,
        }
    }

    /// The pointer to the name with one more component.
    fn find_component(&self, pfx: NamePtr, s: &str) -> (r: Option<NamePtr>)
        requires
            self.alone().ok(),
            self.alone().has_name(pfx),
        ensures
            r matches Some(p) ==> self.alone().has_name(p) && p@ == component(pfx@, s@),
            r is None ==> !stored(self.alone(), component(pfx@, s@)),
    {
        let ghost st = self.alone();
        let n = match parse_number(s) {
            Some(num) => Name::mk_num(pfx, num),
            None => match self.get_string_ptr(s) {
                Some(sfx) => Name::mk_str(pfx, sfx),
                None => {
                    proof {
                        if stored(st, component(pfx@, s@)) {
                            let p = choose|p: NamePtr| #[trigger]
                                st.has_name(p) && p@ == component(pfx@, s@);
                            st.name_node_ok(p);
                            assert(st.name_node(p) is Str);
                            assert(st.has_string(st.name_node(p)->Str_1));
                        }
                    }
                    return None;
                },
            },
        };
        assert(st.name_ok(n));
        match self.names.get(&n) {
            Some(i) => {
                let p = Ptr::global(i, Ghost(self.names.nodes@[i as int].tree()));
                proof {
                    assert(st.has_name(p));
                    st.name_node_ok(p);
                    st.name_like(st.name_node(p), n);
                }
                Some(p)
            },
            None => {
                proof {
                    if stored(st, component(pfx@, s@)) {
                        let p = choose|p: NamePtr| #[trigger]
                            st.has_name(p) && p@ == component(pfx@, s@);
                        st.name_node_ok(p);
                        st.name_like(st.name_node(p), n);
                        assert(!self.names.nodes@[p.idx as int].like(&n));
                    }
                }
                None
            },
        }
    }

    /// The pointer to the name whose components dots separate.
    pub fn find_name(&self, anon: NamePtr, dot_separated_name: &str) -> (r: Option<NamePtr>)
        requires
            self.alone().ok(),
            self.alone().has_name(anon),
        ensures
            r matches Some(p) ==> self.alone().has_name(p) && p@ == dotted(
                anon@,
                dot_separated_name@,
            ),
            r is None ==> !stored(self.alone(), dotted(anon@, dot_separated_name@)),
    {
        let ghost st = self.alone();
        let s = dot_separated_name;
        let n: usize = s.unicode_len();
        let mut pfx = anon;
        let mut from: usize = 0;
        let mut i: usize = 0;
        assert(s@.skip(0) =~= s@);
        loop
            invariant
                st == self.alone(),
                st.ok(),
                st.has_name(pfx),
                s == dot_separated_name,
                n == s@.len(),
                from <= i <= n,
                forall|j: int| from <= j < i ==> #[trigger] s@[j] != '.',
                dotted(anon@, s@) == dotted(pfx@, s@.skip(from as int)),
            decreases n - i, n - from + 1,
        {
            if i < n && s.get_char(i) != '.' {
                i = i + 1;
            } else {
                let part = s.substring_char(from, i);
                let ghost rest = s@.skip(from as int);
                proof {
                    assert forall|j: int| 0 <= j < i - from implies #[trigger] rest[j] != '.' by {
                        assert(s@[from + j] != '.');
                    }
                    first_dot_at(rest, i - from);
                    assert(part@ =~= rest.take(i - from));
                    if i == n {
                        assert(part@ =~= rest);
                    } else {
                        assert(rest.skip(i - from + 1) =~= s@.skip(i + 1));
                    }
                }
                match self.find_component(pfx, part) {
                    Some(p) => {
                        if i == n {
                            return Some(p);
                        }
                        pfx = p;
                        i = i + 1;
                        from = i;
                    },
                    None => {
                        proof {
                            if i < n && stored(st, dotted(anon@, s@)) {
                                dotted_stored(st, component(pfx@, part@), s@.skip(i + 1));
                            }
                        }
                        return None;
                    },
                }
            }
        }
    }

    /// The name is the one whose components dots separate, if that is stored.
    pub open spec fn known_as(self, n: Option<NamePtr>, s: Seq<char>) -> bool {
        match n {
            Some(p) => self.alone().has_name(p) && p@ == dotted(Nm::Anon, s),
            None => !stored(self.alone(), dotted(Nm::Anon, s)),
        }
    }

    /// The names that the checker knows, as far as they are stored.
    pub open spec fn knows_names(self, c: NameCache) -> bool {
        &&& self.known_as(c.quot, "Quot"@)
        &&& self.known_as(c.quot_mk, "Quot.mk"@)
        &&& self.known_as(c.quot_lift, "Quot.lift"@)
        &&& self.known_as(c.quot_ind, "Quot.ind"@)
        &&& self.known_as(c.string, "String"@)
        &&& self.known_as(c.string_of_list, "String.ofList"@)
        &&& self.known_as(c.nat, "Nat"@)
        &&& self.known_as(c.nat_zero, "Nat.zero"@)
        &&& self.known_as(c.nat_succ, "Nat.succ"@)
        &&& self.known_as(c.nat_add, "Nat.add"@)
        &&& self.known_as(c.nat_sub, "Nat.sub"@)
        &&& self.known_as(c.nat_mul, "Nat.mul"@)
        &&& self.known_as(c.nat_pow, "Nat.pow"@)
        &&& self.known_as(c.nat_mod, "Nat.mod"@)
        &&& self.known_as(c.nat_div, "Nat.div"@)
        &&& self.known_as(c.nat_div_go, "Nat.div.go"@)
        &&& self.known_as(c.nat_mod_core_go, "Nat.modCore.go"@)
        &&& self.known_as(c.nat_beq, "Nat.beq"@)
        &&& self.known_as(c.nat_ble, "Nat.ble"@)
        &&& self.known_as(c.nat_gcd, "Nat.gcd"@)
        &&& self.known_as(c.nat_xor, "Nat.xor"@)
        &&& self.known_as(c.nat_land, "Nat.land"@)
        &&& self.known_as(c.nat_lor, "Nat.lor"@)
        &&& self.known_as(c.nat_shl, "Nat.shiftLeft"@)
        &&& self.known_as(c.nat_shr, "Nat.shiftRight"@)
        &&& self.known_as(c.bool_true, "Bool.true"@)
        &&& self.known_as(c.bool_false, "Bool.false"@)
        &&& self.known_as(c.char, "Char"@)
        &&& self.known_as(c.char_of_nat, "Char.ofNat"@)
        &&& self.known_as(c.list, "List"@)
        &&& self.known_as(c.list_nil, "List.nil"@)
        &&& self.known_as(c.list_cons, "List.cons"@)
    }

    /// The names that the checker knows, as far as they are stored.
    pub fn mk_name_cache(&self, anon: NamePtr) -> (r: NameCache)
        requires
            self.alone().ok(),
            self.alone().has_name(anon),
            anon@ == Nm::Anon,
        ensures
            self.knows_names(r),
            r.fits(self.alone()),
    {
        NameCache {
            quot: self.find_name(anon, "Quot"),
            quot_mk: self.find_name(anon, "Quot.mk"),
            quot_lift: self.find_name(anon, "Quot.lift"),
            quot_ind: self.find_name(anon, "Quot.ind"),
            string: self.find_name(anon, "String"),
            string_of_list: self.find_name(anon, "String.ofList"),
            nat: self.find_name(anon, "Nat"),
            nat_zero: self.find_name(anon, "Nat.zero"),
            nat_succ: self.find_name(anon, "Nat.succ"),
            nat_add: self.find_name(anon, "Nat.add"),
            nat_sub: self.find_name(anon, "Nat.sub"),
            nat_mul: self.find_name(anon, "Nat.mul"),
            nat_pow: self.find_name(anon, "Nat.pow"),
            nat_mod: self.find_name(anon, "Nat.mod"),
            nat_div: self.find_name(anon, "Nat.div"),
            nat_div_go: self.find_name(anon, "Nat.div.go"),
            nat_mod_core_go: self.find_name(anon, "Nat.modCore.go"),
            nat_beq: self.find_name(anon, "Nat.beq"),
            nat_ble: self.find_name(anon, "Nat.ble"),
            nat_gcd: self.find_name(anon, "Nat.gcd"),
            nat_xor: self.find_name(anon, "Nat.xor"),
            nat_land: self.find_name(anon, "Nat.land"),
            nat_lor: self.find_name(anon, "Nat.lor"),
            nat_shl: self.find_name(anon, "Nat.shiftLeft"),
            nat_shr: self.find_name(anon, "Nat.shiftRight"),
            bool_true: self.find_name(anon, "Bool.true"),
            bool_false: self.find_name(anon, "Bool.false"),
            char: self.find_name(anon, "Char"),
            char_of_nat: self.find_name(anon, "Char.ofNat"),
            list: self.find_name(anon, "List"),
            list_nil: self.find_name(anon, "List.nil"),
            list_cons: self.find_name(anon, "List.cons"),
        }
    }
}

} // verus!
