//! Small conversions between strings, characters and ASCII bytes.
use vstd::prelude::*;
use vstd::string::*;
use vstd::utf8::*;

verus! {

/// `String::push` of the standard library: appends one character to the end
/// of the string and leaves the rest as it was.
pub assume_specification[ String::push ](s: &mut String, ch: char)
    ensures
        final(s)@ == old(s)@.push(ch),
;

/// The characters of `s`, in order.
pub fn chars_of(s: &str) -> (v: Vec<char>)
    ensures
        v@ == s@,
{
    let mut v: Vec<char> = Vec::new();
    for c in it: s.chars()
        invariant
            it.seq() == s@,
            v@ == s@.take(it.index() as int),
    {
        v.push(c);
        assert(s@.take(it.index() + 1) =~= s@.take(it.index() as int).push(c));
    }
    assert(s@.take(s@.len() as int) =~= s@);
    v
}

/// The string made of `chars[from..]`.
pub fn string_of(chars: &Vec<char>, from: usize) -> (s: String)
    requires
        from <= chars.len(),
    ensures
        s@ == chars@.skip(from as int),
{
    let mut s = String::new();
    let mut i: usize = from;
    while i < chars.len()
        invariant
            from <= i <= chars.len(),
            s@ == chars@.subrange(from as int, i as int),
        decreases chars.len() - i,
    {
        s.push(chars[i]);
        assert(chars@.subrange(from as int, i + 1) =~= chars@.subrange(from as int, i as int).push(
            chars@[i as int],
        ));
        i += 1;
    }
    assert(chars@.subrange(from as int, chars@.len() as int) =~= chars@.skip(from as int));
    s
}

/// Whether `chars` begins with the characters of `prefix`.
pub fn has_prefix(chars: &Vec<char>, prefix: &str) -> (r: bool)
    ensures
        r == prefix@.is_prefix_of(chars@),
{
    let p = chars_of(prefix);
    if p.len() > chars.len() {
        return false;
    }
    let mut i: usize = 0;
    while i < p.len()
        invariant
            p@ == prefix@,
            p.len() <= chars.len(),
            i <= p.len(),
            forall|k: int| 0 <= k < i ==> chars@[k] == p@[k],
        decreases p.len() - i,
    {
        if chars[i] != p[i] {
            return false;
        }
        i += 1;
    }
    assert(chars@.subrange(0, p.len() as int) =~= p@);
    true
}

/// A byte read as the character with the same code.
pub open spec fn byte_char(b: u8) -> char {
    b as char
}

/// A byte sequence read as characters, one per byte.
pub open spec fn bytes_as_chars(bytes: Seq<u8>) -> Seq<char> {
    bytes.map_values(|b: u8| byte_char(b))
}

/// The string whose characters are the bytes `bytes[start..end]`, one
/// character per byte.
pub fn string_of_bytes(bytes: &[u8], start: usize, end: usize) -> (s: String)
    requires
        start <= end <= bytes.len(),
    ensures
        s@ == bytes_as_chars(bytes@.subrange(start as int, end as int)),
{
    let mut s = String::new();
    let mut i: usize = start;
    while i < end
        invariant
            start <= i <= end <= bytes.len(),
            s@ == bytes_as_chars(bytes@.subrange(start as int, i as int)),
        decreases end - i,
    {
        s.push(bytes[i] as char);
        assert(bytes_as_chars(bytes@.subrange(start as int, i + 1)) =~= bytes_as_chars(
            bytes@.subrange(start as int, i as int),
        ).push(byte_char(bytes@[i as int])));
        i += 1;
    }
    s
}

/// The end of the longest run of items that satisfy `p` and start at `i`.
pub open spec fn run_end<T>(items: Seq<T>, i: int, p: spec_fn(T) -> bool) -> int
    decreases items.len() - i,
{
    if 0 <= i < items.len() && p(items[i]) {
        run_end(items, i + 1, p)
    } else {
        i
    }
}

/// A run ends inside the sequence, holds only items that satisfy the
/// predicate, and the item behind it does not.
pub proof fn lemma_run_end<T>(items: Seq<T>, i: int, p: spec_fn(T) -> bool)
    requires
        0 <= i <= items.len(),
    ensures
        i <= run_end(items, i, p) <= items.len(),
        forall|k: int| i <= k < run_end(items, i, p) ==> p(items[k]),
        run_end(items, i, p) < items.len() ==> !p(items[run_end(items, i, p)]),
    decreases items.len() - i,
{
    if i < items.len() && p(items[i]) {
        lemma_run_end(items, i + 1, p);
    }
}

/// The set of a sequence with one more item is the set of the sequence
/// with that item added.
pub proof fn lemma_push_to_set<A>(s: Seq<A>, x: A)
    ensures
        s.push(x).to_set() == s.to_set().insert(x),
{
    let t = s.push(x);
    assert forall|y: A| t.to_set().contains(y) <==> s.to_set().insert(x).contains(y) by {
        if t.to_set().contains(y) {
            let k = choose|k: int| 0 <= k < t.len() && t[k] == y;
            if k < s.len() {
                assert(s[k] == y);
            }
        }
        if s.to_set().contains(y) {
            let k = choose|k: int| 0 <= k < s.len() && s[k] == y;
            assert(t[k] == y);
        }
        if y == x {
            assert(t[s.len() as int] == y);
        }
    }
    assert(t.to_set() =~= s.to_set().insert(x));
}

/// Appends the characters of `s` to `out`.
pub fn push_chars_of(out: &mut Vec<char>, s: &str)
    ensures
        final(out)@ == old(out)@ + s@,
{
    let chars = chars_of(s);
    let mut k: usize = 0;
    while k < chars.len()
        invariant
            k <= chars.len(),
            chars@ == s@,
            out@ == old(out)@ + chars@.take(k as int),
        decreases chars.len() - k,
    {
        out.push(chars[k]);
        assert(chars@.take(k + 1) =~= chars@.take(k as int).push(chars@[k as int]));
        assert(out@ =~= old(out)@ + chars@.take(k + 1));
        k += 1;
    }
    assert(chars@.take(chars@.len() as int) =~= chars@);
}

/// Whether `needle` stands in `hay` at offset `i`.
pub open spec fn occurs_at<T>(hay: Seq<T>, needle: Seq<T>, i: int) -> bool {
    0 <= i && i + needle.len() <= hay.len() && hay.subrange(i, i + needle.len()) == needle
}

/// The least offset at or after `from` at which `needle` stands in `hay`.
pub open spec fn first_occurrence<T>(hay: Seq<T>, needle: Seq<T>, from: int) -> Option<int>
    decreases hay.len() - from,
{
    if from < 0 || from + needle.len() > hay.len() {
        None
    } else if occurs_at(hay, needle, from) {
        Some(from)
    } else if from < hay.len() {
        first_occurrence(hay, needle, from + 1)
    } else {
        None
    }
}

/// `first_occurrence` finds an occurrence, and none starts before it.
pub proof fn lemma_first_occurrence<T>(hay: Seq<T>, needle: Seq<T>, from: int)
    requires
        0 <= from,
    ensures
        match first_occurrence(hay, needle, from) {
            Some(m) => from <= m && occurs_at(hay, needle, m) && forall|k: int|
                from <= k < m ==> !occurs_at(hay, needle, k),
            None => forall|k: int| from <= k ==> !occurs_at(hay, needle, k),
        },
    decreases hay.len() - from,
{
    if from + needle.len() > hay.len() {
    } else if occurs_at(hay, needle, from) {
    } else if from < hay.len() {
        lemma_first_occurrence(hay, needle, from + 1);
    } else {
        assert(hay.subrange(from, from + needle.len()) =~= needle);
    }
}

/// The least offset at or after `from` at which `needle` stands in `hay`.
pub fn find_bytes(hay: &[u8], needle: &[u8], from: usize) -> (r: Option<usize>)
    ensures
        match r {
            Some(m) => first_occurrence(hay@, needle@, from as int) == Some(m as int),
            None => first_occurrence(hay@, needle@, from as int) is None,
        },
{
    let n = needle.len();
    if n > hay.len() || from > hay.len() - n {
        return None;
    }
    let last = hay.len() - n;
    let mut i: usize = from;
    while i <= last
        invariant
            n == needle.len(),
            last == hay.len() - n,
            from <= i <= last + 1,
            first_occurrence(hay@, needle@, from as int) == first_occurrence(
                hay@,
                needle@,
                i as int,
            ),
        decreases last + 1 - i,
    {
        let mut k: usize = 0;
        while k < n && hay[i + k] == needle[k]
            invariant
                n == needle.len(),
                i + n <= hay.len(),
                k <= n,
                forall|j: int| 0 <= j < k ==> hay@[i + j] == needle@[j],
            decreases n - k,
        {
            k += 1;
        }
        if k == n {
            assert(hay@.subrange(i as int, i + n) =~= needle@);
            return Some(i);
        }
        assert(!occurs_at(hay@, needle@, i as int)) by {
            if occurs_at(hay@, needle@, i as int) {
                assert(hay@.subrange(i as int, i + n)[k as int] == needle@[k as int]);
            }
        }
        i += 1;
    }
    None
}

/// The least offset at which `needle` stands in `hay`.
pub fn find_chars(hay: &Vec<char>, needle: &str) -> (r: Option<usize>)
    ensures
        match r {
            Some(m) => first_occurrence(hay@, needle@, 0) == Some(m as int) && m + needle@.len()
                <= hay.len(),
            None => first_occurrence(hay@, needle@, 0) is None,
        },
{
    let pattern = chars_of(needle);
    let n = pattern.len();
    if n > hay.len() {
        return None;
    }
    let last = hay.len() - n;
    let mut i: usize = 0;
    while i <= last
        invariant
            pattern@ == needle@,
            n == pattern.len(),
            last == hay.len() - n,
            i <= last + 1,
            first_occurrence(hay@, needle@, 0) == first_occurrence(hay@, needle@, i as int),
        decreases last + 1 - i,
    {
        let mut k: usize = 0;
        while k < n && hay[i + k] == pattern[k]
            invariant
                n == pattern.len(),
                i + n <= hay.len(),
                k <= n,
                forall|j: int| 0 <= j < k ==> hay@[i + j] == pattern@[j],
            decreases n - k,
        {
            k += 1;
        }
        if k == n {
            assert(hay@.subrange(i as int, i + n) =~= pattern@);
            return Some(i);
        }
        assert(!occurs_at(hay@, needle@, i as int)) by {
            if occurs_at(hay@, needle@, i as int) {
                assert(hay@.subrange(i as int, i + n)[k as int] == pattern@[k as int]);
            }
        }
        i += 1;
    }
    None
}

/// Whether two strings hold the same characters.
pub fn str_equal(a: &str, b: &str) -> (r: bool)
    ensures
        r == (a@ == b@),
{
    let x = a.as_bytes();
    let y = b.as_bytes();
    if x.len() != y.len() {
        proof {
            if a@ == b@ {
                assert(x@ == y@);
            }
        }
        return false;
    }
    let mut i: usize = 0;
    while i < x.len()
        invariant
            x@ == encode_utf8(a@),
            y@ == encode_utf8(b@),
            x.len() == y.len(),
            i <= x.len(),
            forall|k: int| 0 <= k < i ==> x@[k] == y@[k],
        decreases x.len() - i,
    {
        if x[i] != y[i] {
            return false;
        }
        i += 1;
    }
    proof {
        assert(x@ =~= y@);
        encode_utf8_decode_utf8(a@);
        encode_utf8_decode_utf8(b@);
    }
    true
}

} // verus!
