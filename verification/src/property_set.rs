//! A set of property names that is walked in a fixed order.
use vstd::prelude::*;
use vstd::string::*;
use vstd::utf8::*;
use crate::strings::{lemma_push_to_set, lemma_run_end, run_end, str_equal};

verus! {

/// Lexicographic order on byte strings: the order of Rust's `str`.
pub open spec fn lex_less(a: Seq<u8>, b: Seq<u8>) -> bool
    decreases a.len(),
{
    if b.len() == 0 {
        false
    } else if a.len() == 0 {
        true
    } else if a[0] != b[0] {
        a[0] < b[0]
    } else {
        lex_less(a.skip(1), b.skip(1))
    }
}

/// No byte string is less than itself.
pub proof fn lemma_lex_irreflexive(a: Seq<u8>)
    ensures
        !lex_less(a, a),
    decreases a.len(),
{
    if a.len() > 0 {
        lemma_lex_irreflexive(a.skip(1));
    }
}

/// The order is transitive.
pub proof fn lemma_lex_transitive(a: Seq<u8>, b: Seq<u8>, c: Seq<u8>)
    requires
        lex_less(a, b),
        lex_less(b, c),
    ensures
        lex_less(a, c),
    decreases a.len(),
{
    if a.len() > 0 && a[0] == b[0] && b[0] == c[0] {
        lemma_lex_transitive(a.skip(1), b.skip(1), c.skip(1));
    }
}

/// Of two different byte strings one is less than the other.
pub proof fn lemma_lex_total(a: Seq<u8>, b: Seq<u8>)
    ensures
        lex_less(a, b) || lex_less(b, a) || a == b,
    decreases a.len(),
{
    if a.len() > 0 && b.len() > 0 && a[0] == b[0] {
        lemma_lex_total(a.skip(1), b.skip(1));
        if a.skip(1) == b.skip(1) {
            assert(a =~= seq![a[0]] + a.skip(1));
            assert(b =~= seq![b[0]] + b.skip(1));
        }
    } else if a.len() == 0 && b.len() == 0 {
        assert(a =~= b);
    }
}

/// The bytes by which a name is ordered: its UTF-8 encoding.
pub open spec fn name_key(name: Seq<char>) -> Seq<u8> {
    encode_utf8(name)
}

/// Different names have different keys.
pub proof fn lemma_name_key_injective(a: Seq<char>, b: Seq<char>)
    requires
        name_key(a) == name_key(b),
    ensures
        a == b,
{
    encode_utf8_decode_utf8(a);
    encode_utf8_decode_utf8(b);
}

/// Whether the names stand in strictly ascending order.
pub open spec fn strictly_ascending(names: Seq<Seq<char>>) -> bool {
    forall|i: int, j: int|
        0 <= i < j < names.len() ==> lex_less(
            name_key(#[trigger] names[i]),
            name_key(#[trigger] names[j]),
        )
}

/// Names in strictly ascending order are all different, so there are as
/// many of them as their set holds.
pub proof fn lemma_ascending_counts(names: Seq<Seq<char>>)
    requires
        strictly_ascending(names),
    ensures
        names.no_duplicates(),
        names.to_set().finite(),
        names.len() == names.to_set().len(),
{
    assert forall|i: int, j: int| 0 <= i < names.len() && 0 <= j < names.len() && i
        != j implies names[i] != names[j] by {
        lemma_lex_irreflexive(name_key(names[i]));
        if i < j {
            assert(lex_less(name_key(names[i]), name_key(names[j])));
        } else {
            assert(lex_less(name_key(names[j]), name_key(names[i])));
        }
    }
    names.unique_seq_to_set();
    vstd::seq_lib::seq_to_set_is_finite(names);
}

/// The names with `name` put in its place: behind the names that are less
/// than it. Names that hold it already stay as they are.
pub open spec fn with_name(names: Seq<Seq<char>>, name: Seq<char>) -> Seq<Seq<char>> {
    let at = run_end(names, 0, |n: Seq<char>| lex_less(name_key(n), name_key(name)));
    if 0 <= at < names.len() && names[at] == name {
        names
    } else if 0 <= at <= names.len() {
        names.insert(at, name)
    } else {
        names
    }
}

/// A name put in its place leaves the order ascending and adds that name,
/// and no other, to the set.
pub proof fn lemma_with_name(names: Seq<Seq<char>>, name: Seq<char>)
    requires
        strictly_ascending(names),
    ensures
        strictly_ascending(with_name(names, name)),
        with_name(names, name).to_set() == names.to_set().insert(name),
{
    let key = name_key(name);
    let p = |n: Seq<char>| lex_less(name_key(n), name_key(name));
    let at = run_end(names, 0, p);
    lemma_run_end(names, 0, p);
    let after = with_name(names, name);
    if at < names.len() && names[at] == name {
        assert(names.to_set().contains(name));
        assert(names.to_set().insert(name) =~= names.to_set());
    } else {
        assert(after == names.insert(at, name));
        assert forall|k: int| at <= k < names.len() implies lex_less(
            key,
            name_key(#[trigger] names[k]),
        ) by {
            assert(!p(names[at]));
            lemma_lex_total(key, name_key(names[at]));
            if name_key(names[at]) == key {
                lemma_name_key_injective(names[at], name);
            }
            if k > at {
                lemma_lex_transitive(key, name_key(names[at]), name_key(names[k]));
            }
        }
        assert forall|a: int, b: int| 0 <= a < b < after.len() implies lex_less(
            name_key(#[trigger] after[a]),
            name_key(#[trigger] after[b]),
        ) by {
            let x = if a < at {
                a
            } else {
                a - 1
            };
            let y = if b < at {
                b
            } else {
                b - 1
            };
            if a != at && b != at {
                assert(after[a] == names[x] && after[b] == names[y]);
            } else if a == at {
                assert(after[b] == names[y]);
            } else {
                assert(after[a] == names[x]);
                assert(p(names[x]));
            }
        }
        assert(after.to_set() =~= names.to_set().insert(name)) by {
            assert forall|x: Seq<char>| after.to_set().contains(x) <==> names.to_set().insert(
                name,
            ).contains(x) by {
                if after.to_set().contains(x) {
                    let k = choose|k: int| 0 <= k < after.len() && after[k] == x;
                    if k < at {
                        assert(names[k] == x);
                    } else if k > at {
                        assert(names[k - 1] == x);
                    }
                }
                if names.to_set().contains(x) {
                    let k = choose|k: int| 0 <= k < names.len() && names[k] == x;
                    if k < at {
                        assert(after[k] == x);
                    } else {
                        assert(after[k + 1] == x);
                    }
                }
                if x == name {
                    assert(after[at] == x);
                }
            }
        }
    }
}

/// The names of a list in ascending order, each once.
pub open spec fn in_order(names: Seq<Seq<char>>) -> Seq<Seq<char>>
    decreases names.len(),
{
    if names.len() == 0 {
        Seq::empty()
    } else {
        with_name(in_order(names.drop_last()), names.last())
    }
}

/// `in_order` gives the names of the list, and no others, in strictly
/// ascending order.
pub proof fn lemma_in_order(names: Seq<Seq<char>>)
    ensures
        strictly_ascending(in_order(names)),
        in_order(names).to_set() == names.to_set(),
    decreases names.len(),
{
    if names.len() == 0 {
        assert(in_order(names).to_set() =~= names.to_set());
    } else {
        lemma_in_order(names.drop_last());
        lemma_with_name(in_order(names.drop_last()), names.last());
        lemma_push_to_set(names.drop_last(), names.last());
        assert(names.drop_last().push(names.last()) =~= names);
    }
}

/// Whether the keys of the items stand in strictly ascending order.
pub open spec fn ascending_by<T>(items: Seq<T>, key: spec_fn(T) -> Seq<u8>) -> bool {
    forall|i: int, j: int|
        0 <= i < j < items.len() ==> lex_less(key(#[trigger] items[i]), key(#[trigger] items[j]))
}

/// Two sequences in ascending order of their keys that hold the same items
/// are the same sequence: a set of items has one order only.
pub proof fn lemma_ascending_by_unique<T>(a: Seq<T>, b: Seq<T>, key: spec_fn(T) -> Seq<u8>)
    requires
        ascending_by(a, key),
        ascending_by(b, key),
        a.to_set() == b.to_set(),
    ensures
        a == b,
    decreases a.len(),
{
    if a.len() == 0 {
        if b.len() > 0 {
            assert(b.to_set().contains(b[0]));
            assert(a.to_set().contains(b[0]));
        }
        assert(a =~= b);
    } else if b.len() == 0 {
        assert(a.to_set().contains(a[0]));
        assert(b.to_set().contains(a[0]));
    } else {
        // the least item of each is its first
        assert(a.to_set().contains(a[0]));
        assert(b.to_set().contains(a[0]));
        let j = choose|j: int| 0 <= j < b.len() && b[j] == a[0];
        assert(b.to_set().contains(b[0]));
        assert(a.to_set().contains(b[0]));
        let i = choose|i: int| 0 <= i < a.len() && a[i] == b[0];
        if j > 0 && i > 0 {
            lemma_lex_transitive(key(a[0]), key(a[i]), key(b[j]));
            lemma_lex_irreflexive(key(a[0]));
        }
        if j > 0 && i == 0 {
            lemma_lex_irreflexive(key(a[0]));
        }
        if j == 0 && i > 0 {
            lemma_lex_irreflexive(key(a[0]));
        }
        assert(a[0] == b[0]);
        let ta = a.skip(1);
        let tb = b.skip(1);
        assert forall|x: T| ta.to_set().contains(x) <==> tb.to_set().contains(x) by {
            if ta.to_set().contains(x) {
                let k = choose|k: int| 0 <= k < ta.len() && ta[k] == x;
                assert(a[k + 1] == x);
                assert(a.to_set().contains(x));
                assert(b.to_set().contains(x));
                let m = choose|m: int| 0 <= m < b.len() && b[m] == x;
                if m == 0 {
                    lemma_lex_irreflexive(key(a[0]));
                }
                assert(tb[m - 1] == x);
            }
            if tb.to_set().contains(x) {
                let k = choose|k: int| 0 <= k < tb.len() && tb[k] == x;
                assert(b[k + 1] == x);
                assert(b.to_set().contains(x));
                assert(a.to_set().contains(x));
                let m = choose|m: int| 0 <= m < a.len() && a[m] == x;
                if m == 0 {
                    lemma_lex_irreflexive(key(b[0]));
                }
                assert(ta[m - 1] == x);
            }
        }
        assert(ta.to_set() =~= tb.to_set());
        assert forall|i: int, j: int| 0 <= i < j < ta.len() implies lex_less(
            key(#[trigger] ta[i]),
            key(#[trigger] ta[j]),
        ) by {
            assert(ta[i] == a[i + 1] && ta[j] == a[j + 1]);
        }
        assert forall|i: int, j: int| 0 <= i < j < tb.len() implies lex_less(
            key(#[trigger] tb[i]),
            key(#[trigger] tb[j]),
        ) by {
            assert(tb[i] == b[i + 1] && tb[j] == b[j + 1]);
        }
        lemma_ascending_by_unique(ta, tb, key);
        assert(a =~= seq![a[0]] + ta);
        assert(b =~= seq![b[0]] + tb);
    }
}

/// Two ascending sequences that hold the same names are the same sequence:
/// a set of names has one order only.
pub proof fn lemma_ascending_unique(a: Seq<Seq<char>>, b: Seq<Seq<char>>)
    requires
        strictly_ascending(a),
        strictly_ascending(b),
        a.to_set() == b.to_set(),
    ensures
        a == b,
{
    let key = |n: Seq<char>| name_key(n);
    assert(ascending_by(a, key));
    assert(ascending_by(b, key));
    lemma_ascending_by_unique(a, b, key);
}

/// Whether `a` comes before `b` in lexicographic byte order.
pub fn bytes_less(a: &[u8], b: &[u8]) -> (r: bool)
    ensures
        r == lex_less(a@, b@),
{
    let mut i: usize = 0;
    proof {
        assert(a@.skip(0) =~= a@);
        assert(b@.skip(0) =~= b@);
    }
    while i < a.len() && i < b.len()
        invariant
            i <= a.len(),
            i <= b.len(),
            lex_less(a@, b@) == lex_less(a@.skip(i as int), b@.skip(i as int)),
        decreases a.len() - i,
    {
        proof {
            assert(a@.skip(i as int).skip(1) =~= a@.skip(i + 1));
            assert(b@.skip(i as int).skip(1) =~= b@.skip(i + 1));
        }
        if a[i] != b[i] {
            return a[i] < b[i];
        }
        i += 1;
    }
    a.len() < b.len()
}

/// A set of property names, held in ascending byte order so that it is
/// always walked in the same order.
pub struct PropertySet {
    names: Vec<String>,
}

impl View for PropertySet {
    type V = Set<Seq<char>>;

    open spec fn view(&self) -> Set<Seq<char>> {
        self.names().to_set()
    }
}

impl PropertySet {
    /// The names in the order in which the set is walked.
    pub closed spec fn names(&self) -> Seq<Seq<char>> {
        self.names@.map_values(|s: String| s@)
    }

    /// The names stand in strictly ascending order, so none stands twice.
    /// This holds of every set.
    #[verifier::type_invariant]
    pub open spec fn wf(&self) -> bool {
        strictly_ascending(self.names())
    }

    /// The empty set.
    pub fn new() -> (s: PropertySet)
        ensures
            s.wf(),
            s.names() == Seq::<Seq<char>>::empty(),
            s@ == Set::<Seq<char>>::empty(),
    {
        let s = PropertySet { names: Vec::new() };
        assert(s.names() =~= Seq::<Seq<char>>::empty());
        assert(s@ =~= Set::<Seq<char>>::empty());
        s
    }

    /// How many names the set holds.
    pub fn len(&self) -> (n: usize)
        ensures
            n == self.names().len(),
            n == self@.len(),
            self.wf(),
    {
        proof {
            use_type_invariant(self);
            lemma_ascending_counts(self.names());
        }
        self.names.len()
    }

    /// Whether the set holds no name.
    pub fn is_empty(&self) -> (r: bool)
        ensures
            r == (self.names().len() == 0),
    {
        self.names.len() == 0
    }

    /// The name at place `i` of the order.
    pub fn name(&self, i: usize) -> (s: &str)
        requires
            i < self.names().len(),
        ensures
            s@ == self.names()[i as int],
    {
        self.names[i].as_str()
    }

    /// The place of the first name that is not less than `key`.
    fn lower_bound(&self, key: &[u8]) -> (at: usize)
        ensures
            at <= self.names().len(),
            forall|k: int| 0 <= k < at ==> lex_less(name_key(self.names()[k]), key@),
            forall|k: int|
                at <= k < self.names().len() ==> !lex_less(name_key(self.names()[k]), key@),
    {
        proof {
            use_type_invariant(self);
        }
        let mut lo: usize = 0;
        let mut hi: usize = self.names.len();
        while lo < hi
            invariant
                lo <= hi <= self.names.len(),
                self.wf(),
                forall|k: int| 0 <= k < lo ==> lex_less(name_key(self.names()[k]), key@),
                forall|k: int|
                    hi <= k < self.names().len() ==> !lex_less(name_key(self.names()[k]), key@),
            decreases hi - lo,
        {
            let mid = lo + (hi - lo) / 2;
            if bytes_less(self.names[mid].as_str().as_bytes(), key) {
                proof {
                    assert forall|k: int| 0 <= k < mid + 1 implies lex_less(
                        name_key(self.names()[k]),
                        key@,
                    ) by {
                        if k < mid {
                            lemma_lex_transitive(
                                name_key(self.names()[k]),
                                name_key(self.names()[mid as int]),
                                key@,
                            );
                        }
                    }
                }
                lo = mid + 1;
            } else {
                proof {
                    assert forall|k: int| mid <= k < self.names().len() implies !lex_less(
                        name_key(self.names()[k]),
                        key@,
                    ) by {
                        if k > mid && lex_less(name_key(self.names()[k]), key@) {
                            lemma_lex_transitive(
                                name_key(self.names()[mid as int]),
                                name_key(self.names()[k]),
                                key@,
                            );
                        }
                    }
                }
                hi = mid;
            }
        }
        lo
    }

    /// Whether `name` is in the set.
    pub fn contains(&self, name: &str) -> (r: bool)
        ensures
            r == self@.contains(name@),
    {
        proof {
            use_type_invariant(self);
        }
        let key = name.as_bytes();
        let at = self.lower_bound(key);
        if at < self.names.len() && str_equal(self.names[at].as_str(), name) {
            assert(self.names()[at as int] == name@);
            return true;
        }
        proof {
            if self.names().to_set().contains(name@) {
                let k = choose|k: int| 0 <= k < self.names().len() && self.names()[k] == name@;
                lemma_lex_irreflexive(key@);
                if k > at {
                    lemma_lex_total(key@, name_key(self.names()[at as int]));
                    if name_key(self.names()[at as int]) == key@ {
                        lemma_name_key_injective(self.names()[at as int], name@);
                    }
                }
            }
        }
        false
    }

    /// Adds `name` to the set; says whether it was new.
    pub fn insert(&mut self, name: String) -> (added: bool)
        ensures
            final(self).wf(),
            final(self)@ == old(self)@.insert(name@),
            added == !old(self)@.contains(name@),
    {
        proof {
            use_type_invariant(&*self);
        }
        let key = name.as_str().as_bytes();
        let i = self.lower_bound(key);
        let ghost before = self.names();
        proof {
            assert forall|k: int| 0 <= k < i implies before[k] != name@ by {
                lemma_lex_irreflexive(key@);
            }
        }
        if i < self.names.len() && str_equal(self.names[i].as_str(), name.as_str()) {
            proof {
                assert(before[i as int] == name@);
                assert(before.to_set().contains(name@));
                assert(before.to_set().insert(name@) =~= before.to_set());
            }
            return false;
        }
        proof {
            assert forall|k: int| i <= k < before.len() implies lex_less(
                key@,
                name_key(#[trigger] before[k]),
            ) by {
                lemma_lex_total(key@, name_key(before[i as int]));
                if name_key(before[i as int]) == key@ {
                    lemma_name_key_injective(before[i as int], name@);
                }
                if k > i {
                    lemma_lex_transitive(key@, name_key(before[i as int]), name_key(before[k]));
                }
            }
            assert(!before.to_set().contains(name@)) by {
                if before.to_set().contains(name@) {
                    let k = choose|k: int| 0 <= k < before.len() && before[k] == name@;
                    lemma_lex_irreflexive(key@);
                }
            }
        }
        let mut names: Vec<String> = Vec::new();
        core::mem::swap(&mut self.names, &mut names);
        names.insert(i, name);
        proof {
            let after = names@.map_values(|s: String| s@);
            assert(after =~= before.insert(i as int, name@));
            assert forall|a: int, b: int| 0 <= a < b < after.len() implies lex_less(
                name_key(#[trigger] after[a]),
                name_key(#[trigger] after[b]),
            ) by {
                if a < i && b > i {
                    lemma_lex_transitive(name_key(after[a]), key@, name_key(after[b]));
                }
            }
            assert(after.to_set() =~= before.to_set().insert(name@)) by {
                assert forall|x: Seq<char>| after.to_set().contains(x) <==> before.to_set().insert(
                    name@,
                ).contains(x) by {
                    if after.to_set().contains(x) {
                        let k = choose|k: int| 0 <= k < after.len() && after[k] == x;
                        if k < i {
                            assert(before[k] == x);
                        } else if k > i {
                            assert(before[k - 1] == x);
                        }
                    }
                    if before.to_set().contains(x) {
                        let k = choose|k: int| 0 <= k < before.len() && before[k] == x;
                        if k < i {
                            assert(after[k] == x);
                        } else {
                            assert(after[k + 1] == x);
                        }
                    }
                    if x == name@ {
                        assert(after[i as int] == x);
                    }
                }
            }
        }
        self.names = names;
        true
    }
}

/// The set is walked in one order only: two sets with the same names hold
/// them at the same places.
pub proof fn lemma_same_names_same_order(a: &PropertySet, b: &PropertySet)
    requires
        a.wf(),
        b.wf(),
        a@ == b@,
    ensures
        a.names() == b.names(),
{
    lemma_ascending_unique(a.names(), b.names());
}

} // verus!
