//! Reading the property names that a stylesheet declares, without parsing
//! CSS in full: only the innermost `{ ... }` blocks are read, and in each of
//! them every `name:` that starts a declaration.
use vstd::prelude::*;
use vstd::slice::slice_subrange;
use vstd::string::*;
use crate::property_set::PropertySet;
use crate::scan::{
    Dialect, ScanState, BRACE_CLOSE, BRACE_OPEN, COLON, PAREN_CLOSE, PAREN_OPEN, SEMICOLON,
};
use crate::strings::{bytes_as_chars, lemma_push_to_set, lemma_run_end, run_end, string_of_bytes};

verus! {

/// Space, tab, line feed, vertical tab, form feed, carriage return.
pub open spec fn is_space(b: u8) -> bool {
    b == 0x20 || (0x09 <= b && b <= 0x0d)
}

/// What stands between declarations: white space and `;`.
pub open spec fn is_separator(b: u8) -> bool {
    is_space(b) || b == SEMICOLON
}

/// A byte of a property name: an ASCII letter or digit, `-` or `_`.
pub open spec fn is_name_byte(b: u8) -> bool {
    (0x30 <= b && b <= 0x39) || (0x41 <= b && b <= 0x5a) || (0x61 <= b && b <= 0x7a) || b == 0x2d
        || b == 0x5f
}

/// The paren depth after a byte of a value was read in state `state`.
pub open spec fn paren_depth_after(state: ScanState, b: u8, depth: nat) -> nat {
    if state.in_code() && b == PAREN_OPEN {
        depth + 1
    } else if state.in_code() && b == PAREN_CLOSE && depth > 0 {
        (depth - 1) as nat
    } else {
        depth
    }
}

/// Where the value that is being read at `i` ends: behind the first `;` that
/// is read as code outside all parentheses, or at the end of the block.
pub open spec fn value_end(bytes: Seq<u8>, i: int, state: ScanState, depth: nat) -> int
    decreases bytes.len() - i,
{
    if i < 0 || i >= bytes.len() {
        bytes.len() as int
    } else if state.in_code() && depth == 0 && bytes[i] == SEMICOLON {
        i + 1
    } else {
        value_end(
            bytes,
            i + 1,
            state.step(bytes[i], Dialect::Stylesheet),
            paren_depth_after(state, bytes[i], depth),
        )
    }
}

/// A value ends inside the block, and behind the offset at which it is
/// read where that lies inside the block.
pub proof fn lemma_value_end(bytes: Seq<u8>, i: int, state: ScanState, depth: nat)
    requires
        0 <= i <= bytes.len(),
    ensures
        i <= value_end(bytes, i, state, depth) <= bytes.len(),
        i < bytes.len() ==> i < value_end(bytes, i, state, depth),
    decreases bytes.len() - i,
{
    if i < bytes.len() && !(state.in_code() && depth == 0 && bytes[i] == SEMICOLON) {
        lemma_value_end(
            bytes,
            i + 1,
            state.step(bytes[i], Dialect::Stylesheet),
            paren_depth_after(state, bytes[i], depth),
        );
    }
}

/// One step of the block scanner from offset `i`: the name that it found, if
/// any, as a byte span, and the offset from which it goes on. `None` when
/// only separators are left.
///
/// The scanner skips separators, reads the longest run of name bytes, skips
/// white space and looks for `:`. With the colon there, the run is a
/// property name and the scanner goes on behind the value. With no name
/// byte at all it moves on by one byte; with a name but no colon it goes on
/// at the byte that stands where the colon was expected.
pub open spec fn declaration_at(bytes: Seq<u8>, i: int) -> Option<(Option<(int, int)>, int)> {
    let start = run_end(bytes, i, |b: u8| is_separator(b));
    if start >= bytes.len() {
        None
    } else {
        let end = run_end(bytes, start, |b: u8| is_name_byte(b));
        if end == start {
            Some((None, start + 1))
        } else {
            let colon = run_end(bytes, end, |b: u8| is_space(b));
            if colon < bytes.len() && bytes[colon] == COLON {
                Some(
                    (
                        Some((start, end)),
                        value_end(bytes, colon + 1, ScanState::initial(), 0),
                    ),
                )
            } else {
                Some((None, colon))
            }
        }
    }
}

/// After a step the scanner stands further on, and a name that it found lies
/// between where it stood and where it stands.
pub proof fn lemma_declaration_at(bytes: Seq<u8>, i: int)
    requires
        0 <= i <= bytes.len(),
    ensures
        match declaration_at(bytes, i) {
            Some((found, next)) => i < next <= bytes.len() && match found {
                Some((start, end)) => i <= start < end < next,
                None => true,
            },
            None => true,
        },
{
    let start = run_end(bytes, i, |b: u8| is_separator(b));
    lemma_run_end(bytes, i, |b: u8| is_separator(b));
    if start < bytes.len() {
        let end = run_end(bytes, start, |b: u8| is_name_byte(b));
        lemma_run_end(bytes, start, |b: u8| is_name_byte(b));
        let colon = run_end(bytes, end, |b: u8| is_space(b));
        lemma_run_end(bytes, end, |b: u8| is_space(b));
        if colon < bytes.len() {
            lemma_value_end(bytes, colon + 1, ScanState::initial(), 0);
        }
    }
}

/// A declaration as the scanner reports it: the property name as it was
/// written, and the byte offset at which it stands.
#[derive(Debug)]
pub struct RawDeclaration {
    pub property: String,
    pub source_offset: usize,
}

/// `RawDeclaration`, with the name as characters.
pub struct DeclarationView {
    pub property: Seq<char>,
    pub source_offset: int,
}

impl View for RawDeclaration {
    type V = DeclarationView;

    open spec fn view(&self) -> DeclarationView {
        DeclarationView { property: self.property@, source_offset: self.source_offset as int }
    }
}

/// The declarations of a list, each with its name as characters.
pub open spec fn declaration_views(decls: Seq<RawDeclaration>) -> Seq<DeclarationView> {
    decls.map_values(|d: RawDeclaration| d@)
}

/// The property names of a list of declarations, in its order.
pub open spec fn names_of(decls: Seq<DeclarationView>) -> Seq<Seq<char>> {
    decls.map_values(|d: DeclarationView| d.property)
}

/// The declarations that a block holds from offset `i` on, in the order in
/// which they stand. The block starts at offset `base` of its text, and the
/// offsets that are reported are offsets into that text.
pub open spec fn block_declarations_from(bytes: Seq<u8>, i: int, base: int) -> Seq<DeclarationView>
    decreases bytes.len() - i,
{
    if i < 0 || i > bytes.len() {
        Seq::empty()
    } else {
        match declaration_at(bytes, i) {
            None => Seq::empty(),
            Some((found, next)) => {
                if i < next <= bytes.len() {
                    let rest = block_declarations_from(bytes, next, base);
                    match found {
                        Some((start, end)) => seq![
                            DeclarationView {
                                property: bytes_as_chars(bytes.subrange(start, end)),
                                source_offset: base + start,
                            },
                        ] + rest,
                        None => rest,
                    }
                } else {
                    Seq::empty()
                }
            },
        }
    }
}

/// The declarations of a block that starts at offset `base` of its text.
pub open spec fn block_declarations(block: Seq<u8>, base: int) -> Seq<DeclarationView> {
    block_declarations_from(block, 0, base)
}

/// The property names that a block declares, in the order in which they
/// stand.
pub open spec fn block_names(block: Seq<u8>) -> Seq<Seq<char>> {
    names_of(block_declarations(block, 0))
}

/// The declarations in the innermost blocks of a stylesheet, from offset `i`
/// on. `open` is the offset of the last `{` that was read as code and has
/// seen no brace since. A `}` read as code closes the block that such a `{`
/// opened: that block holds no brace, so it is an innermost one, and its
/// content is read for declarations. Any other `}` closes a block that holds
/// other blocks, or none at all, and nothing is read.
pub open spec fn stylesheet_declarations_from(
    bytes: Seq<u8>,
    i: int,
    state: ScanState,
    open: Option<int>,
) -> Seq<DeclarationView>
    decreases bytes.len() - i,
{
    if i < 0 || i >= bytes.len() {
        Seq::empty()
    } else {
        let b = bytes[i];
        let next = state.step(b, Dialect::Stylesheet);
        if state.in_code() && b == BRACE_OPEN {
            stylesheet_declarations_from(bytes, i + 1, next, Some(i))
        } else if state.in_code() && b == BRACE_CLOSE {
            let rest = stylesheet_declarations_from(bytes, i + 1, next, None);
            match open {
                Some(o) => block_declarations(bytes.subrange(o + 1, i), o + 1) + rest,
                None => rest,
            }
        } else {
            stylesheet_declarations_from(bytes, i + 1, next, open)
        }
    }
}

/// The declarations in the innermost blocks of a stylesheet, in the order
/// in which they stand.
pub open spec fn stylesheet_declarations(bytes: Seq<u8>) -> Seq<DeclarationView> {
    stylesheet_declarations_from(bytes, 0, ScanState::initial(), None)
}

/// The set of property names that the innermost blocks of a stylesheet
/// declare.
pub open spec fn declared_properties(bytes: Seq<u8>) -> Set<Seq<char>> {
    names_of(stylesheet_declarations(bytes)).to_set()
}

/// The offsets of the declarations of a block lie inside the block.
pub proof fn lemma_block_declarations_offsets(bytes: Seq<u8>, i: int, base: int)
    requires
        0 <= i <= bytes.len(),
    ensures
        forall|k: int|
            0 <= k < block_declarations_from(bytes, i, base).len() ==> base + i <= (
            #[trigger] block_declarations_from(bytes, i, base)[k]).source_offset < base
                + bytes.len(),
    decreases bytes.len() - i,
{
    lemma_declaration_at(bytes, i);
    match declaration_at(bytes, i) {
        None => {},
        Some((found, next)) => {
            lemma_block_declarations_offsets(bytes, next, base);
            let rest = block_declarations_from(bytes, next, base);
            let all = block_declarations_from(bytes, i, base);
            assert forall|k: int| 0 <= k < all.len() implies base + i <= (#[trigger] all[k]).source_offset
                < base + bytes.len() by {
                match found {
                    Some((start, end)) => {
                        if k > 0 {
                            assert(all[k] == rest[k - 1]);
                        }
                    },
                    None => {},
                }
            }
        },
    }
}

/// The state in which the scanner of a stylesheet reads the byte at offset
/// `i`.
pub open spec fn state_at(bytes: Seq<u8>, i: int) -> ScanState {
    ScanState::after_range(bytes, 0, i, Dialect::Stylesheet)
}

/// Whether the byte at offset `i` is a brace that is read as code.
pub open spec fn is_code_brace(bytes: Seq<u8>, i: int) -> bool {
    0 <= i < bytes.len() && state_at(bytes, i).in_code() && (bytes[i] == BRACE_OPEN || bytes[i]
        == BRACE_CLOSE)
}

/// Whether `open` and `close` are the braces of an innermost block: a `{`
/// and a `}` that are read as code, with no brace that is read as code
/// between them.
pub open spec fn is_innermost_block(bytes: Seq<u8>, open: int, close: int) -> bool {
    &&& 0 <= open < close < bytes.len()
    &&& is_code_brace(bytes, open) && bytes[open] == BRACE_OPEN
    &&& is_code_brace(bytes, close) && bytes[close] == BRACE_CLOSE
    &&& forall|k: int| open < k < close ==> !is_code_brace(bytes, k)
}

/// The `{` that a `}` at offset `i` would close as an innermost block: the
/// last brace read as code before `i`, if that is a `{`.
pub open spec fn pending_open(bytes: Seq<u8>, i: int) -> Option<int>
    decreases i,
{
    if i <= 0 {
        None
    } else if is_code_brace(bytes, i - 1) {
        if bytes[i - 1] == BRACE_OPEN {
            Some(i - 1)
        } else {
            None
        }
    } else {
        pending_open(bytes, i - 1)
    }
}

proof fn lemma_pending_open(bytes: Seq<u8>, i: int)
    requires
        0 <= i <= bytes.len(),
    ensures
        match pending_open(bytes, i) {
            Some(o) => 0 <= o < i && is_code_brace(bytes, o) && bytes[o] == BRACE_OPEN
                && forall|k: int| o < k < i ==> !is_code_brace(bytes, k),
            None => forall|o: int|
                0 <= o < i && is_code_brace(bytes, o) && bytes[o] == BRACE_OPEN ==> exists|k: int|
                    o < k < i && is_code_brace(bytes, k),
        },
    decreases i,
{
    if i > 0 && !is_code_brace(bytes, i - 1) {
        lemma_pending_open(bytes, i - 1);
        match pending_open(bytes, i - 1) {
            Some(o) => {},
            None => {
                assert forall|o: int|
                    0 <= o < i && is_code_brace(bytes, o) && bytes[o] == BRACE_OPEN implies exists|
                    k: int,
                | o < k < i && is_code_brace(bytes, k) by {
                    let k = choose|k: int| o < k < i - 1 && is_code_brace(bytes, k);
                    assert(o < k < i && is_code_brace(bytes, k));
                }
            },
        }
    } else if i > 0 {
        if bytes[i - 1] != BRACE_OPEN {
            assert forall|o: int|
                0 <= o < i && is_code_brace(bytes, o) && bytes[o] == BRACE_OPEN implies exists|
                k: int,
            | o < k < i && is_code_brace(bytes, k) by {
                assert(o < i - 1 < i && is_code_brace(bytes, i - 1));
            }
        }
    }
}

proof fn lemma_concat_contains<A>(a: Seq<A>, b: Seq<A>, x: A)
    ensures
        (a + b).contains(x) <==> a.contains(x) || b.contains(x),
{
    let c = a + b;
    if c.contains(x) {
        let k = choose|k: int| 0 <= k < c.len() && c[k] == x;
        if k < a.len() {
            assert(a[k] == x);
        } else {
            assert(b[k - a.len()] == x);
        }
    }
    if a.contains(x) {
        let k = choose|k: int| 0 <= k < a.len() && a[k] == x;
        assert(c[k] == x);
    }
    if b.contains(x) {
        let k = choose|k: int| 0 <= k < b.len() && b[k] == x;
        assert(c[k + a.len()] == x);
    }
}

/// Whether `d` is a declaration of an innermost block that closes at or
/// behind offset `from`.
pub open spec fn declared_in_block_from(bytes: Seq<u8>, d: DeclarationView, from: int) -> bool {
    exists|o: int, c: int|
        #[trigger] is_innermost_block(bytes, o, c) && c >= from && block_declarations(
            bytes.subrange(o + 1, c),
            o + 1,
        ).contains(d)
}

proof fn lemma_declarations_from(bytes: Seq<u8>, i: int, d: DeclarationView)
    requires
        0 <= i <= bytes.len(),
    ensures
        stylesheet_declarations_from(bytes, i, state_at(bytes, i), pending_open(bytes, i)).contains(
            d,
        ) <==> declared_in_block_from(bytes, d, i),
    decreases bytes.len() - i,
{
    let here = stylesheet_declarations_from(bytes, i, state_at(bytes, i), pending_open(bytes, i));
    if i >= bytes.len() {
        assert(!here.contains(d));
    } else {
        let b = bytes[i];
        let state = state_at(bytes, i);
        assert(state_at(bytes, i + 1) == state.step(b, Dialect::Stylesheet));
        lemma_declarations_from(bytes, i + 1, d);
        lemma_pending_open(bytes, i);
        let later = stylesheet_declarations_from(
            bytes,
            i + 1,
            state_at(bytes, i + 1),
            pending_open(bytes, i + 1),
        );
        if state.in_code() && b == BRACE_CLOSE {
            assert(is_code_brace(bytes, i));
            assert(pending_open(bytes, i + 1) is None);
            match pending_open(bytes, i) {
                Some(o) => {
                    let block = block_declarations(bytes.subrange(o + 1, i), o + 1);
                    assert(here == block + later);
                    lemma_concat_contains(block, later, d);
                    assert(is_innermost_block(bytes, o, i));
                    if declared_in_block_from(bytes, d, i) && !later.contains(d) {
                        let (o2, c2) = choose|o2: int, c2: int|
                            #[trigger] is_innermost_block(bytes, o2, c2) && c2 >= i
                                && block_declarations(bytes.subrange(o2 + 1, c2), o2 + 1).contains(
                                d,
                            );
                        if c2 > i {
                            assert(declared_in_block_from(bytes, d, i + 1));
                        }
                        assert(c2 == i);
                        if o2 < o {
                            assert(!is_code_brace(bytes, o));
                        }
                        if o2 > o {
                            assert(!is_code_brace(bytes, o2));
                        }
                        assert(o2 == o);
                    }
                },
                None => {
                    assert(here == later);
                    if declared_in_block_from(bytes, d, i) && !later.contains(d) {
                        let (o2, c2) = choose|o2: int, c2: int|
                            #[trigger] is_innermost_block(bytes, o2, c2) && c2 >= i
                                && block_declarations(bytes.subrange(o2 + 1, c2), o2 + 1).contains(
                                d,
                            );
                        if c2 > i {
                            assert(declared_in_block_from(bytes, d, i + 1));
                        }
                        assert(c2 == i);
                        let k = choose|k: int| o2 < k < i && is_code_brace(bytes, k);
                        assert(!is_code_brace(bytes, k));
                    }
                },
            }
            if later.contains(d) {
                let (o2, c2) = choose|o2: int, c2: int|
                    #[trigger] is_innermost_block(bytes, o2, c2) && c2 >= i + 1
                        && block_declarations(bytes.subrange(o2 + 1, c2), o2 + 1).contains(d);
                assert(is_innermost_block(bytes, o2, c2) && c2 >= i);
            }
        } else {
            if state.in_code() && b == BRACE_OPEN {
                assert(is_code_brace(bytes, i));
                assert(pending_open(bytes, i + 1) == Some(i));
            } else {
                assert(!is_code_brace(bytes, i));
                assert(pending_open(bytes, i + 1) == pending_open(bytes, i));
            }
            assert(here == later);
            if declared_in_block_from(bytes, d, i) {
                let (o2, c2) = choose|o2: int, c2: int|
                    #[trigger] is_innermost_block(bytes, o2, c2) && c2 >= i
                        && block_declarations(bytes.subrange(o2 + 1, c2), o2 + 1).contains(d);
                assert(c2 != i);
                assert(is_innermost_block(bytes, o2, c2) && c2 >= i + 1);
            }
            if later.contains(d) {
                let (o2, c2) = choose|o2: int, c2: int|
                    #[trigger] is_innermost_block(bytes, o2, c2) && c2 >= i + 1
                        && block_declarations(bytes.subrange(o2 + 1, c2), o2 + 1).contains(d);
                assert(is_innermost_block(bytes, o2, c2) && c2 >= i);
            }
        }
    }
}

/// The declarations of a stylesheet are those of its innermost blocks, and
/// no others: a declaration is reported exactly if it is a declaration of
/// the content of a block whose braces hold no brace between them.
pub proof fn lemma_declarations_are_those_of_innermost_blocks(bytes: Seq<u8>, d: DeclarationView)
    ensures
        stylesheet_declarations(bytes).contains(d) <==> exists|o: int, c: int|
            #[trigger] is_innermost_block(bytes, o, c) && block_declarations(
                bytes.subrange(o + 1, c),
                o + 1,
            ).contains(d),
{
    lemma_declarations_from(bytes, 0, d);
    if declared_in_block_from(bytes, d, 0) {
        let (o, c) = choose|o: int, c: int|
            #[trigger] is_innermost_block(bytes, o, c) && c >= 0 && block_declarations(
                bytes.subrange(o + 1, c),
                o + 1,
            ).contains(d);
        assert(is_innermost_block(bytes, o, c) && block_declarations(
            bytes.subrange(o + 1, c),
            o + 1,
        ).contains(d));
    }
    if exists|o: int, c: int|
        #[trigger] is_innermost_block(bytes, o, c) && block_declarations(
            bytes.subrange(o + 1, c),
            o + 1,
        ).contains(d) {
        let (o, c) = choose|o: int, c: int|
            #[trigger] is_innermost_block(bytes, o, c) && block_declarations(
                bytes.subrange(o + 1, c),
                o + 1,
            ).contains(d);
        assert(is_innermost_block(bytes, o, c) && c >= 0);
    }
}

fn is_space_byte(b: u8) -> (r: bool)
    ensures
        r == is_space(b),
{
    b == 0x20 || (0x09 <= b && b <= 0x0d)
}

fn is_name(b: u8) -> (r: bool)
    ensures
        r == is_name_byte(b),
{
    (0x30 <= b && b <= 0x39) || (0x41 <= b && b <= 0x5a) || (0x61 <= b && b <= 0x7a) || b == 0x2d
        || b == 0x5f
}

fn skip_value(bytes: &[u8], from: usize) -> (end: usize)
    requires
        from <= bytes.len(),
    ensures
        end == value_end(bytes@, from as int, ScanState::initial(), 0),
        from <= end <= bytes.len(),
{
    let mut i: usize = from;
    let mut state = ScanState::start();
    let mut depth: usize = 0;
    proof {
        lemma_value_end(bytes@, from as int, ScanState::initial(), 0);
    }
    while i < bytes.len()
        invariant
            from <= i <= bytes.len(),
            depth <= i - from,
            value_end(bytes@, i as int, state, depth as nat) == value_end(
                bytes@,
                from as int,
                ScanState::initial(),
                0,
            ),
        decreases bytes.len() - i,
    {
        let b = bytes[i];
        if state.is_code() && depth == 0 && b == SEMICOLON {
            return i + 1;
        }
        if state.is_code() && b == PAREN_OPEN {
            depth += 1;
        } else if state.is_code() && b == PAREN_CLOSE && depth > 0 {
            depth -= 1;
        }
        state = state.advance(b, Dialect::Stylesheet);
        i += 1;
    }
    i
}

fn scan_block(bytes: &[u8], base: usize, out: &mut Vec<RawDeclaration>)
    requires
        base + bytes.len() <= usize::MAX,
    ensures
        declaration_views(final(out)@) == declaration_views(old(out)@) + block_declarations(
            bytes@,
            base as int,
        ),
{
    let mut i: usize = 0;
    let mut done = false;
    proof {
        assert(declaration_views(out@) + block_declarations(bytes@, base as int)
            =~= declaration_views(old(out)@) + block_declarations(bytes@, base as int));
    }
    while !done
        invariant
            i <= bytes.len(),
            base + bytes.len() <= usize::MAX,
            done ==> block_declarations_from(bytes@, i as int, base as int) == Seq::<
                DeclarationView,
            >::empty(),
            declaration_views(out@) + block_declarations_from(bytes@, i as int, base as int)
                == declaration_views(old(out)@) + block_declarations(bytes@, base as int),
        decreases bytes.len() - i + if done { 0int } else { 1int },
    {
        proof {
            lemma_declaration_at(bytes@, i as int);
            lemma_run_end(bytes@, i as int, |b: u8| is_separator(b));
        }
        let mut start: usize = i;
        while start < bytes.len() && (is_space_byte(bytes[start]) || bytes[start] == SEMICOLON)
            invariant
                i <= start <= bytes.len(),
                run_end(bytes@, start as int, |b: u8| is_separator(b)) == run_end(
                    bytes@,
                    i as int,
                    |b: u8| is_separator(b),
                ),
            decreases bytes.len() - start,
        {
            start += 1;
        }
        if start >= bytes.len() {
            done = true;
        } else {
            let mut end: usize = start;
            while end < bytes.len() && is_name(bytes[end])
                invariant
                    start <= end <= bytes.len(),
                    run_end(bytes@, end as int, |b: u8| is_name_byte(b)) == run_end(
                        bytes@,
                        start as int,
                        |b: u8| is_name_byte(b),
                    ),
                decreases bytes.len() - end,
            {
                end += 1;
            }
            if end == start {
                i = start + 1;
            } else {
                let mut colon: usize = end;
                while colon < bytes.len() && is_space_byte(bytes[colon])
                    invariant
                        end <= colon <= bytes.len(),
                        run_end(bytes@, colon as int, |b: u8| is_space(b)) == run_end(
                            bytes@,
                            end as int,
                            |b: u8| is_space(b),
                        ),
                    decreases bytes.len() - colon,
                {
                    colon += 1;
                }
                if colon < bytes.len() && bytes[colon] == COLON {
                    let name = string_of_bytes(bytes, start, end);
                    let next = skip_value(bytes, colon + 1);
                    let ghost before = declaration_views(out@);
                    let ghost rest = block_declarations_from(bytes@, next as int, base as int);
                    let decl = RawDeclaration { property: name, source_offset: base + start };
                    let ghost found = seq![decl@];
                    out.push(decl);
                    proof {
                        assert(block_declarations_from(bytes@, i as int, base as int) == found
                            + rest);
                        assert(declaration_views(out@) =~= before.push(found[0]));
                        assert(declaration_views(out@) + rest =~= before + (found + rest));
                    }
                    i = next;
                } else {
                    i = colon;
                }
            }
        }
    }
    proof {
        assert(declaration_views(out@) + Seq::<DeclarationView>::empty() =~= declaration_views(
            out@,
        ));
    }
}

fn insert_names(decls: &Vec<RawDeclaration>, props: &mut PropertySet)
    ensures
        final(props).wf(),
        final(props)@ == old(props)@.union(names_of(declaration_views(decls@)).to_set()),
{
    let ghost names = names_of(declaration_views(decls@));
    let mut i: usize = 0;
    proof {
        use_type_invariant(&*props);
        assert(names.take(0).to_set() =~= Set::<Seq<char>>::empty());
        assert(props@.union(names.take(0).to_set()) =~= props@);
    }
    while i < decls.len()
        invariant
            i <= decls.len(),
            names == names_of(declaration_views(decls@)),
            props.wf(),
            props@ == old(props)@.union(names.take(i as int).to_set()),
        decreases decls.len() - i,
    {
        props.insert(decls[i].property.clone());
        proof {
            assert(names.take(i + 1) =~= names.take(i as int).push(names[i as int]));
            lemma_push_to_set(names.take(i as int), names[i as int]);
            assert(props@ =~= old(props)@.union(names.take(i + 1).to_set()));
        }
        i += 1;
    }
    proof {
        assert(names.take(decls.len() as int) =~= names);
    }
}

/// Adds to `props` the name of every declaration of `block`, the text
/// between the braces of one rule.
///
/// A declaration is a run of letters, digits, `-` and `_` followed, after
/// optional white space, by `:`. Its value reaches to the next `;` that
/// stands outside strings and parentheses, or to the end of the block, so a
/// colon inside `url(...)` or a string starts no declaration.
pub fn extract_properties_from_block(block: &str, props: &mut PropertySet)
    ensures
        final(props).wf(),
        final(props)@ == old(props)@.union(block_names(block.spec_bytes()).to_set()),
{
    let mut decls: Vec<RawDeclaration> = Vec::new();
    scan_block(block.as_bytes(), 0, &mut decls);
    proof {
        assert(declaration_views(decls@) =~= block_declarations(block.spec_bytes(), 0));
    }
    insert_names(&decls, props);
}

/// The declarations of the stylesheet `css`, in the order in which they
/// stand, each with the byte offset of its property name.
///
/// Only innermost blocks are read: a block that holds another block, such
/// as the body of `@media`, is skipped and its inner rules are read instead.
/// Braces inside strings and escaped braces do not count.
pub fn extract_declarations(css: &str) -> (decls: Vec<RawDeclaration>)
    ensures
        declaration_views(decls@) == stylesheet_declarations(css.spec_bytes()),
{
    let bytes = css.as_bytes();
    let mut decls: Vec<RawDeclaration> = Vec::new();
    let mut state = ScanState::start();
    let mut open: Option<usize> = None;
    let mut i: usize = 0;
    proof {
        assert(declaration_views(decls@) + stylesheet_declarations(bytes@)
            =~= stylesheet_declarations(bytes@));
    }
    while i < bytes.len()
        invariant
            bytes@ == css.spec_bytes(),
            i <= bytes.len(),
            match open {
                Some(o) => o < i,
                None => true,
            },
            declaration_views(decls@) + stylesheet_declarations_from(
                bytes@,
                i as int,
                state,
                match open {
                    Some(o) => Some(o as int),
                    None => None,
                },
            ) == stylesheet_declarations(bytes@),
        decreases bytes.len() - i,
    {
        let b = bytes[i];
        if state.is_code() && b == BRACE_OPEN {
            open = Some(i);
        } else if state.is_code() && b == BRACE_CLOSE {
            if let Some(o) = open {
                let block = slice_subrange(bytes, o + 1, i);
                let ghost before = declaration_views(decls@);
                let ghost rest = stylesheet_declarations_from(
                    bytes@,
                    i + 1,
                    state.step(b, Dialect::Stylesheet),
                    None,
                );
                scan_block(block, o + 1, &mut decls);
                proof {
                    assert(declaration_views(decls@) + rest =~= before + (block_declarations(
                        block@,
                        o + 1,
                    ) + rest));
                }
            }
            open = None;
        }
        state = state.advance(b, Dialect::Stylesheet);
        i += 1;
    }
    proof {
        assert(declaration_views(decls@) + Seq::<DeclarationView>::empty() =~= declaration_views(
            decls@,
        ));
    }
    decls
}

/// The property names that the stylesheet `css` declares in its innermost
/// blocks, each once, in ascending order.
pub fn extract_decl_properties(css: &str) -> (props: PropertySet)
    ensures
        props.wf(),
        props@ == declared_properties(css.spec_bytes()),
{
    let decls = extract_declarations(css);
    let mut props = PropertySet::new();
    insert_names(&decls, &mut props);
    proof {
        assert(props@ =~= declared_properties(css.spec_bytes()));
    }
    props
}

} // verus!
