//! Finding the inline style objects (`style={{ ... }}`) of a script source.
use vstd::prelude::*;
use vstd::string::*;
use crate::scan::{Dialect, ScanState, BRACE_CLOSE, BRACE_OPEN};
use crate::strings::{find_bytes, first_occurrence, lemma_first_occurrence, occurs_at};

verus! {

/// The bytes that open an inline style object: `style={{`.
pub open spec fn style_marker() -> Seq<u8> {
    "style={{".spec_bytes()
}

/// The offset of the brace that closes a region. The scan starts at `i` in
/// state `state`, with `depth` braces open; every `{` read as code opens one
/// more, every `}` read as code closes one, and the `}` that closes the last
/// one is the answer. `None` if the text ends first.
pub open spec fn closing_brace(bytes: Seq<u8>, i: int, state: ScanState, depth: nat) -> Option<int>
    decreases bytes.len() - i,
{
    if i < 0 || i >= bytes.len() {
        None
    } else {
        let b = bytes[i];
        let next = state.step(b, Dialect::Script);
        if state.in_code() && b == BRACE_OPEN {
            closing_brace(bytes, i + 1, next, depth + 1)
        } else if state.in_code() && b == BRACE_CLOSE {
            if depth <= 1 {
                Some(i)
            } else {
                closing_brace(bytes, i + 1, next, (depth - 1) as nat)
            }
        } else {
            closing_brace(bytes, i + 1, next, depth)
        }
    }
}

/// Where the style object whose content starts at `start` ends: the offset
/// of its closing brace.
pub open spec fn style_object_end(bytes: Seq<u8>, start: int) -> Option<int> {
    closing_brace(bytes, start, ScanState::initial(), 1)
}

/// The content spans of the style objects of `bytes` that are found from
/// offset `from` on. After a span that closed, the search goes on behind its
/// closing brace; after a marker whose object never closes, behind the
/// marker.
pub open spec fn style_spans(bytes: Seq<u8>, from: int) -> Seq<(int, int)>
    decreases bytes.len() - from,
{
    match first_occurrence(bytes, style_marker(), from) {
        None => Seq::empty(),
        Some(m) => {
            let start = m + style_marker().len();
            if from <= m && m < start && start <= bytes.len() {
                match style_object_end(bytes, start) {
                    Some(end) => if start <= end < bytes.len() {
                        seq![(start, end)] + style_spans(bytes, end + 1)
                    } else {
                        Seq::empty()
                    },
                    None => style_spans(bytes, start),
                }
            } else {
                Seq::empty()
            }
        },
    }
}

/// The closing brace lies at or behind the start of the scan, inside the
/// text, and it is a `}`.
pub proof fn lemma_closing_brace(bytes: Seq<u8>, i: int, state: ScanState, depth: nat)
    requires
        0 <= i,
    ensures
        match closing_brace(bytes, i, state, depth) {
            Some(end) => i <= end < bytes.len() && bytes[end] == BRACE_CLOSE,
            None => true,
        },
    decreases bytes.len() - i,
{
    if i < bytes.len() {
        let b = bytes[i];
        let next = state.step(b, Dialect::Script);
        if state.in_code() && b == BRACE_OPEN {
            lemma_closing_brace(bytes, i + 1, next, depth + 1);
        } else if state.in_code() && b == BRACE_CLOSE {
            if depth > 1 {
                lemma_closing_brace(bytes, i + 1, next, (depth - 1) as nat);
            }
        } else {
            lemma_closing_brace(bytes, i + 1, next, depth);
        }
    }
}

/// The state in which the byte at offset `i` is read by a scan of a script
/// that starts at offset `start`.
pub open spec fn script_state(bytes: Seq<u8>, start: int, i: int) -> ScanState {
    ScanState::after_range(bytes, start, i, Dialect::Script)
}

/// How many more `{` than `}` a scan from `start` has read as code before
/// it reads the byte at offset `i`.
pub open spec fn brace_balance(bytes: Seq<u8>, start: int, i: int) -> int
    decreases i - start,
{
    if start < 0 || i <= start || i > bytes.len() {
        0
    } else if script_state(bytes, start, i - 1).in_code() && bytes[i - 1] == BRACE_OPEN {
        brace_balance(bytes, start, i - 1) + 1
    } else if script_state(bytes, start, i - 1).in_code() && bytes[i - 1] == BRACE_CLOSE {
        brace_balance(bytes, start, i - 1) - 1
    } else {
        brace_balance(bytes, start, i - 1)
    }
}

/// Whether the byte at offset `end` closes the object whose content starts
/// at `start`: it is a `}` read as code, and as many `{` as `}` were read
/// as code before it.
pub open spec fn closes_object(bytes: Seq<u8>, start: int, end: int) -> bool {
    0 <= start <= end < bytes.len() && script_state(bytes, start, end).in_code() && bytes[end]
        == BRACE_CLOSE && brace_balance(bytes, start, end) == 0
}

proof fn lemma_closing_brace_is_first(bytes: Seq<u8>, start: int, i: int)
    requires
        0 <= start <= i <= bytes.len(),
        brace_balance(bytes, start, i) >= 0,
        forall|k: int| start <= k < i ==> !closes_object(bytes, start, k),
    ensures
        match closing_brace(
            bytes,
            i,
            script_state(bytes, start, i),
            (1 + brace_balance(bytes, start, i)) as nat,
        ) {
            Some(end) => closes_object(bytes, start, end) && forall|k: int|
                start <= k < end ==> !closes_object(bytes, start, k),
            None => forall|k: int| start <= k ==> !closes_object(bytes, start, k),
        },
    decreases bytes.len() - i,
{
    if i < bytes.len() {
        let state = script_state(bytes, start, i);
        let b = bytes[i];
        assert(script_state(bytes, start, i + 1) == state.step(b, Dialect::Script));
        if state.in_code() && b == BRACE_CLOSE && brace_balance(bytes, start, i) == 0 {
        } else {
            assert(!closes_object(bytes, start, i));
            lemma_closing_brace_is_first(bytes, start, i + 1);
        }
    }
}

/// A style object ends at the first `}` that is read as code while no other
/// brace of the object is open; it has no end where there is no such `}`.
pub proof fn lemma_style_object_end(bytes: Seq<u8>, start: int)
    requires
        0 <= start <= bytes.len(),
    ensures
        match style_object_end(bytes, start) {
            Some(end) => closes_object(bytes, start, end) && forall|k: int|
                start <= k < end ==> !closes_object(bytes, start, k),
            None => forall|k: int| start <= k ==> !closes_object(bytes, start, k),
        },
{
    lemma_closing_brace_is_first(bytes, start, start);
}

/// The marker is eight bytes long and ends in the brace that opens the
/// object.
pub proof fn lemma_style_marker()
    ensures
        style_marker().len() == 8,
        style_marker()[7] == BRACE_OPEN,
{
    reveal_strlit("style={{");
    let s = "style={{";
    assert(is_ascii(s));
    is_ascii_spec_bytes(s);
}

/// The guards in `style_spans` never cut the search short: a marker that is
/// found lies at or behind `from` and inside the text, and a closing brace
/// lies at or behind the start of the content.
pub proof fn lemma_style_spans_unfold(bytes: Seq<u8>, from: int)
    requires
        0 <= from,
    ensures
        style_spans(bytes, from) == match first_occurrence(bytes, style_marker(), from) {
            None => Seq::<(int, int)>::empty(),
            Some(m) => match style_object_end(bytes, m + 8) {
                Some(end) => seq![(m + 8, end)] + style_spans(bytes, end + 1),
                None => style_spans(bytes, m + 8),
            },
        },
{
    lemma_style_marker();
    lemma_first_occurrence(bytes, style_marker(), from);
    match first_occurrence(bytes, style_marker(), from) {
        None => {},
        Some(m) => {
            lemma_closing_brace(bytes, m + 8, ScanState::initial(), 1);
        },
    }
}

/// Whether the spans lie inside a text of `len` bytes, each behind the one
/// before it, with at least the closing brace of the first between them.
pub open spec fn spans_in_order(spans: Seq<(int, int)>, len: int) -> bool {
    &&& forall|k: int| 0 <= k < spans.len() ==> 0 <= (#[trigger] spans[k]).0 <= spans[k].1 < len
    &&& forall|j: int, k: int|
        0 <= j < k < spans.len() ==> (#[trigger] spans[j]).1 < (#[trigger] spans[k]).0
}

/// Every span of `style_spans` starts at or behind `from`.
pub proof fn lemma_style_spans_from(bytes: Seq<u8>, from: int)
    requires
        0 <= from,
    ensures
        forall|k: int|
            0 <= k < style_spans(bytes, from).len() ==> from <= (#[trigger] style_spans(
                bytes,
                from,
            )[k]).0,
        spans_in_order(style_spans(bytes, from), bytes.len() as int),
    decreases bytes.len() - from,
{
    lemma_style_spans_unfold(bytes, from);
    lemma_first_occurrence(bytes, style_marker(), from);
    match first_occurrence(bytes, style_marker(), from) {
        None => {},
        Some(m) => {
            lemma_style_marker();
            lemma_closing_brace(bytes, m + 8, ScanState::initial(), 1);
            match style_object_end(bytes, m + 8) {
                Some(end) => {
                    lemma_style_spans_from(bytes, end + 1);
                    let rest = style_spans(bytes, end + 1);
                    let all = style_spans(bytes, from);
                    assert(all == seq![(m + 8, end)] + rest);
                    assert forall|k: int| 0 <= k < all.len() implies from <= (#[trigger] all[k]).0
                        && 0 <= all[k].0 <= all[k].1 < bytes.len() by {
                        if k > 0 {
                            assert(all[k] == rest[k - 1]);
                        }
                    }
                    assert forall|j: int, k: int| 0 <= j < k < all.len() implies (
                    #[trigger] all[j]).1 < (#[trigger] all[k]).0 by {
                        assert(all[k] == rest[k - 1]);
                        if j > 0 {
                            assert(all[j] == rest[j - 1]);
                        }
                    }
                },
                None => {
                    lemma_style_spans_from(bytes, m + 8);
                },
            }
        },
    }
}

/// Whether each span stands between the brace that ends a marker and a
/// closing brace.
pub open spec fn spans_delimited(spans: Seq<(int, int)>, bytes: Seq<u8>) -> bool {
    forall|k: int|
        0 <= k < spans.len() ==> {
            let span = #[trigger] spans[k];
            &&& 8 <= span.0 <= span.1 < bytes.len()
            &&& occurs_at(bytes, style_marker(), span.0 - 8)
            &&& bytes[span.0 - 1] == BRACE_OPEN
            &&& bytes[span.1] == BRACE_CLOSE
            &&& style_object_end(bytes, span.0) == Some(span.1)
        }
}

/// Every span of `style_spans` starts behind a marker and ends at the brace
/// that closes the object.
pub proof fn lemma_style_spans_delimited(bytes: Seq<u8>, from: int)
    requires
        0 <= from,
    ensures
        spans_delimited(style_spans(bytes, from), bytes),
    decreases bytes.len() - from,
{
    lemma_style_spans_unfold(bytes, from);
    lemma_first_occurrence(bytes, style_marker(), from);
    lemma_style_marker();
    match first_occurrence(bytes, style_marker(), from) {
        None => {},
        Some(m) => {
            lemma_closing_brace(bytes, m + 8, ScanState::initial(), 1);
            assert(bytes.subrange(m, m + 8)[7] == bytes[m + 7]);
            match style_object_end(bytes, m + 8) {
                Some(end) => {
                    lemma_style_spans_delimited(bytes, end + 1);
                    let rest = style_spans(bytes, end + 1);
                    let all = style_spans(bytes, from);
                    assert(all == seq![(m + 8, end)] + rest);
                    assert forall|k: int| 0 <= k < all.len() implies {
                        let span = #[trigger] all[k];
                        &&& 8 <= span.0 <= span.1 < bytes.len()
                        &&& occurs_at(bytes, style_marker(), span.0 - 8)
                        &&& bytes[span.0 - 1] == BRACE_OPEN
                        &&& bytes[span.1] == BRACE_CLOSE
                        &&& style_object_end(bytes, span.0) == Some(span.1)
                    } by {
                        if k > 0 {
                            assert(all[k] == rest[k - 1]);
                        }
                    }
                },
                None => {
                    lemma_style_spans_delimited(bytes, m + 8);
                },
            }
        },
    }
}

fn find_closing_brace(bytes: &[u8], start: usize) -> (r: Option<usize>)
    requires
        1 <= start <= bytes.len(),
    ensures
        match r {
            Some(end) => style_object_end(bytes@, start as int) == Some(end as int),
            None => style_object_end(bytes@, start as int) is None,
        },
{
    let mut i: usize = start;
    let mut state = ScanState::start();
    let mut depth: usize = 1;
    while i < bytes.len()
        invariant
            1 <= start <= i <= bytes.len(),
            1 <= depth <= i - start + 1,
            closing_brace(bytes@, i as int, state, depth as nat) == style_object_end(
                bytes@,
                start as int,
            ),
        decreases bytes.len() - i,
    {
        let b = bytes[i];
        if state.is_code() && b == BRACE_OPEN {
            depth += 1;
        } else if state.is_code() && b == BRACE_CLOSE {
            if depth == 1 {
                return Some(i);
            }
            depth -= 1;
        }
        state = state.advance(b, Dialect::Script);
        i += 1;
    }
    None
}

/// Byte spans as pairs of mathematical integers.
pub open spec fn span_offsets(spans: Seq<(usize, usize)>) -> Seq<(int, int)> {
    spans.map_values(|p: (usize, usize)| (p.0 as int, p.1 as int))
}

/// Finds the content of every inline style object of a script source: for
/// each `style={{` the byte span from behind the marker up to, and without,
/// the brace that closes the object. Strings, template literals and escaped
/// characters are skipped when braces are counted. An object that never
/// closes gives no span.
pub fn find_style_object_spans(text: &str) -> (spans: Vec<(usize, usize)>)
    ensures
        span_offsets(spans@) == style_spans(text.spec_bytes(), 0),
        spans_in_order(span_offsets(spans@), text.spec_bytes().len() as int),
        spans_delimited(span_offsets(spans@), text.spec_bytes()),
{
    let bytes = text.as_bytes();
    let marker = "style={{".as_bytes();
    let mut spans: Vec<(usize, usize)> = Vec::new();
    let mut from: usize = 0;
    let mut found = find_bytes(bytes, marker, from);
    proof {
        lemma_style_marker();
        assert(span_offsets(spans@) =~= Seq::<(int, int)>::empty());
    }
    while found.is_some()
        invariant
            bytes@ == text.spec_bytes(),
            marker@ == style_marker(),
            marker@.len() == 8,
            from <= bytes.len(),
            match found {
                Some(m) => first_occurrence(bytes@, marker@, from as int) == Some(m as int),
                None => first_occurrence(bytes@, marker@, from as int) is None,
            },
            span_offsets(spans@) + style_spans(bytes@, from as int) == style_spans(bytes@, 0),
        decreases bytes.len() - from,
    {
        proof {
            lemma_style_spans_unfold(bytes@, from as int);
            lemma_first_occurrence(bytes@, style_marker(), from as int);
        }
        let m = found.unwrap();
        let start = m + 8;
        proof {
            lemma_closing_brace(bytes@, start as int, ScanState::initial(), 1);
        }
        match find_closing_brace(bytes, start) {
            Some(end) => {
                let ghost before = spans@;
                spans.push((start, end));
                assert(span_offsets(spans@) =~= span_offsets(before).push(
                    (start as int, end as int),
                ));
                assert(span_offsets(spans@) + style_spans(bytes@, end + 1) =~= span_offsets(before)
                    + (seq![(start as int, end as int)] + style_spans(bytes@, end + 1)));
                from = end + 1;
            },
            None => {
                from = start;
            },
        }
        found = find_bytes(bytes, marker, from);
    }
    proof {
        lemma_style_spans_unfold(bytes@, from as int);
        assert(span_offsets(spans@) + Seq::<(int, int)>::empty() =~= span_offsets(spans@));
        lemma_style_spans_from(bytes@, 0);
        lemma_style_spans_delimited(bytes@, 0);
    }
    spans
}

} // verus!
