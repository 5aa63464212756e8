//! Lines of a text, and white space at their ends.
use vstd::prelude::*;
use crate::strings::{chars_of, run_end};

verus! {

/// A character with the Unicode property `White_Space`.
pub open spec fn is_whitespace(c: char) -> bool {
    ('\u{9}' <= c && c <= '\u{d}') || c == ' ' || c == '\u{85}' || c == '\u{a0}' || c
        == '\u{1680}' || ('\u{2000}' <= c && c <= '\u{200a}') || c == '\u{2028}' || c
        == '\u{2029}' || c == '\u{202f}' || c == '\u{205f}' || c == '\u{3000}'
}

/// The length of `s` without the longest run at its end of characters that
/// satisfy `p`.
pub open spec fn trim_end_len(s: Seq<char>, p: spec_fn(char) -> bool) -> int
    decreases s.len(),
{
    if s.len() > 0 && p(s.last()) {
        trim_end_len(s.drop_last(), p)
    } else {
        s.len() as int
    }
}

/// `s` without the white space at its start and at its end.
pub open spec fn trimmed(s: Seq<char>) -> Seq<char> {
    let rest = s.skip(run_end(s, 0, |c: char| is_whitespace(c)));
    rest.take(trim_end_len(rest, |c: char| is_whitespace(c)))
}

/// Whether `c` has the Unicode property `White_Space`.
pub fn is_space(c: char) -> (r: bool)
    ensures
        r == is_whitespace(c),
{
    ('\u{9}' <= c && c <= '\u{d}') || c == ' ' || c == '\u{85}' || c == '\u{a0}' || c
        == '\u{1680}' || ('\u{2000}' <= c && c <= '\u{200a}') || c == '\u{2028}' || c
        == '\u{2029}' || c == '\u{202f}' || c == '\u{205f}' || c == '\u{3000}'
}

/// `chars` without the white space at its start and at its end.
pub fn trim_chars(chars: &Vec<char>) -> (r: Vec<char>)
    ensures
        r@ == trimmed(chars@),
{
    let mut start: usize = 0;
    while start < chars.len() && is_space(chars[start])
        invariant
            start <= chars.len(),
            run_end(chars@, start as int, |c: char| is_whitespace(c)) == run_end(
                chars@,
                0,
                |c: char| is_whitespace(c),
            ),
        decreases chars.len() - start,
    {
        start += 1;
    }
    let mut end: usize = chars.len();
    let ghost rest = chars@.skip(start as int);
    proof {
        assert(rest.take(end - start) =~= rest);
    }
    while end > start && is_space(chars[end - 1])
        invariant
            start <= end <= chars.len(),
            rest == chars@.skip(start as int),
            trim_end_len(rest.take(end - start), |c: char| is_whitespace(c)) == trim_end_len(
                rest,
                |c: char| is_whitespace(c),
            ),
        decreases end,
    {
        proof {
            assert(rest.take(end - start).drop_last() =~= rest.take(end - start - 1));
        }
        end -= 1;
    }
    let mut out: Vec<char> = Vec::new();
    let mut k: usize = start;
    while k < end
        invariant
            start <= k <= end <= chars.len(),
            out@ == chars@.subrange(start as int, k as int),
        decreases end - k,
    {
        out.push(chars[k]);
        assert(chars@.subrange(start as int, k + 1) =~= chars@.subrange(start as int, k as int).push(
            chars@[k as int],
        ));
        k += 1;
    }
    proof {
        assert(out@ =~= rest.take(end - start));
    }
    out
}

/// `s` without the white space at its start and at its end.
pub fn trim(s: &str) -> (r: Vec<char>)
    ensures
        r@ == trimmed(s@),
{
    let chars = chars_of(s);
    trim_chars(&chars)
}

/// `s` without the white space at its start.
pub open spec fn trimmed_start(s: Seq<char>) -> Seq<char> {
    s.skip(run_end(s, 0, |c: char| is_whitespace(c)))
}

/// Whether `chars`, without the white space at its start, begins with
/// `prefix`.
pub fn starts_with_after_space(chars: &Vec<char>, prefix: &str) -> (r: bool)
    ensures
        r == prefix@.is_prefix_of(trimmed_start(chars@)),
{
    let mut start: usize = 0;
    while start < chars.len() && is_space(chars[start])
        invariant
            start <= chars.len(),
            run_end(chars@, start as int, |c: char| is_whitespace(c)) == run_end(
                chars@,
                0,
                |c: char| is_whitespace(c),
            ),
        decreases chars.len() - start,
    {
        start += 1;
    }
    let p = chars_of(prefix);
    if p.len() > chars.len() - start {
        return false;
    }
    let ghost rest = chars@.skip(start as int);
    let mut i: usize = 0;
    while i < p.len()
        invariant
            p@ == prefix@,
            start <= chars.len(),
            p.len() <= chars.len() - start,
            rest == chars@.skip(start as int),
            rest == trimmed_start(chars@),
            i <= p.len(),
            forall|k: int| 0 <= k < i ==> rest[k] == p@[k],
        decreases p.len() - i,
    {
        if chars[start + i] != p[i] {
            assert(rest[i as int] != p@[i as int]);
            assert(rest.subrange(0, p.len() as int)[i as int] == rest[i as int]);
            return false;
        }
        i += 1;
    }
    assert(rest.subrange(0, p.len() as int) =~= p@);
    true
}

/// Whether `chars` holds the characters of `s`.
pub fn chars_equal(chars: &Vec<char>, s: &str) -> (r: bool)
    ensures
        r == (chars@ == s@),
{
    let p = chars_of(s);
    if p.len() != chars.len() {
        return false;
    }
    let mut i: usize = 0;
    while i < p.len()
        invariant
            p@ == s@,
            p.len() == chars.len(),
            i <= p.len(),
            forall|k: int| 0 <= k < i ==> chars@[k] == p@[k],
        decreases p.len() - i,
    {
        if chars[i] != p[i] {
            return false;
        }
        i += 1;
    }
    assert(chars@ =~= p@);
    true
}

/// A line without the carriage return at its end.
pub open spec fn without_cr(line: Seq<char>) -> Seq<char> {
    if line.len() > 0 && line.last() == '\r' {
        line.drop_last()
    } else {
        line
    }
}

/// The lines of a text. A line ends at a line feed, or at a carriage return
/// followed by a line feed; neither belongs to the line. What stands behind
/// the last line feed is a line too, unless it is empty.
pub open spec fn split_lines(text: Seq<char>) -> Seq<Seq<char>>
    decreases text.len(),
{
    if text.len() == 0 {
        Seq::empty()
    } else {
        let end = run_end(text, 0, |c: char| c != '\n');
        if 0 <= end < text.len() {
            seq![without_cr(text.take(end))] + split_lines(text.skip(end + 1))
        } else {
            seq![text]
        }
    }
}

/// The lines one after the other, each with a line feed behind it.
pub open spec fn terminated(lines: Seq<Seq<char>>) -> Seq<char>
    decreases lines.len(),
{
    if lines.len() == 0 {
        Seq::empty()
    } else {
        terminated(lines.drop_last()) + lines.last() + seq!['\n']
    }
}

/// The text that the lines make: the lines with a line feed between them
/// and one at the end.
pub open spec fn rendered(lines: Seq<Seq<char>>) -> Seq<char> {
    if lines.len() == 0 {
        seq!['\n']
    } else {
        terminated(lines)
    }
}

/// The characters of each line of a list.
pub open spec fn line_views(lines: Seq<Vec<char>>) -> Seq<Seq<char>> {
    lines.map_values(|l: Vec<char>| l@)
}

/// The lines of a text.
pub fn lines_of_text(text: &str) -> (lines: Vec<Vec<char>>)
    ensures
        line_views(lines@) == split_lines(text@),
{
    let chars = chars_of(text);
    let mut lines: Vec<Vec<char>> = Vec::new();
    let mut start: usize = 0;
    let mut done = false;
    proof {
        assert(chars@.skip(0) =~= chars@);
        assert(line_views(lines@) + split_lines(chars@) =~= split_lines(chars@));
    }
    while !done
        invariant
            start <= chars.len(),
            chars@ == text@,
            done ==> split_lines(chars@.skip(start as int)) == Seq::<Seq<char>>::empty(),
            line_views(lines@) + split_lines(chars@.skip(start as int)) == split_lines(chars@),
        decreases chars.len() - start + if done { 0int } else { 1int },
    {
        let ghost rest = chars@.skip(start as int);
        if start >= chars.len() {
            done = true;
        } else {
            let mut end: usize = start;
            let mut line: Vec<char> = Vec::new();
            while end < chars.len() && chars[end] != '\n'
                invariant
                    start <= end <= chars.len(),
                    rest == chars@.skip(start as int),
                    line@ == rest.take(end - start),
                    run_end(rest, end - start, |c: char| c != '\n') == run_end(
                        rest,
                        0,
                        |c: char| c != '\n',
                    ),
                decreases chars.len() - end,
            {
                line.push(chars[end]);
                proof {
                    assert(rest.take(end - start + 1) =~= rest.take(end - start).push(
                        chars@[end as int],
                    ));
                }
                end += 1;
            }
            let ghost before = line_views(lines@);
            if end >= chars.len() {
                proof {
                    assert(rest.take(end - start) =~= rest);
                    assert(split_lines(rest) == seq![rest]);
                    assert(chars@.skip(end as int).len() == 0);
                }
                lines.push(line);
                proof {
                    assert(line_views(lines@) =~= before.push(rest));
                    assert(before.push(rest) + Seq::<Seq<char>>::empty() =~= before + seq![rest]);
                }
                start = end;
                done = true;
            } else {
                let ghost whole = line@;
                if line.len() > 0 && line[line.len() - 1] == '\r' {
                    line.pop();
                }
                proof {
                    assert(line@ =~= without_cr(whole));
                    assert(rest.skip(end - start + 1) =~= chars@.skip(end + 1));
                }
                let ghost tail = split_lines(chars@.skip(end + 1));
                lines.push(line);
                proof {
                    assert(line_views(lines@) =~= before.push(without_cr(whole)));
                    assert(before.push(without_cr(whole)) + tail =~= before + (seq![
                        without_cr(whole),
                    ] + tail));
                }
                start = end + 1;
            }
        }
    }
    proof {
        assert(line_views(lines@) + Seq::<Seq<char>>::empty() =~= line_views(lines@));
    }
    lines
}

/// The text that the lines make.
pub fn render_lines(lines: &Vec<Vec<char>>) -> (text: String)
    ensures
        text@ == rendered(line_views(lines@)),
{
    let ghost all = line_views(lines@);
    let mut text = String::new();
    if lines.len() == 0 {
        text.push('\n');
        assert(text@ =~= seq!['\n']);
        return text;
    }
    let mut i: usize = 0;
    proof {
        assert(all.take(0) =~= Seq::<Seq<char>>::empty());
    }
    while i < lines.len()
        invariant
            i <= lines.len(),
            all == line_views(lines@),
            text@ == terminated(all.take(i as int)),
        decreases lines.len() - i,
    {
        let line = &lines[i];
        let ghost head = text@;
        let mut k: usize = 0;
        while k < line.len()
            invariant
                k <= line.len(),
                text@ == head + line@.take(k as int),
            decreases line.len() - k,
        {
            text.push(line[k]);
            proof {
                assert(line@.take(k + 1) =~= line@.take(k as int).push(line@[k as int]));
                assert(text@ =~= head + line@.take(k + 1));
            }
            k += 1;
        }
        text.push('\n');
        proof {
            assert(line@.take(line.len() as int) =~= line@);
            assert(all.take(i + 1).drop_last() =~= all.take(i as int));
            assert(all.take(i + 1).last() == line@);
            assert(text@ =~= head + line@ + seq!['\n']);
        }
        i += 1;
    }
    proof {
        assert(all.take(lines.len() as int) =~= all);
    }
    text
}

} // verus!
