//! The lines in which the findings of a check are reported. A report names
//! the number of findings and shows the first of them.
use vstd::prelude::*;
use vstd::string::*;
use crate::tailwind::{hit_views, TailwindHit, TailwindHitView};
use crate::violation::{violation_views, Violation, ViolationKind, ViolationView};

verus! {

/// How many violations a report shows.
pub const VIOLATIONS_SHOWN: usize = 30;

/// How many uses of forbidden utilities a report shows.
pub const HITS_SHOWN: usize = 50;

/// The character of a decimal digit.
pub open spec fn digit(d: int) -> char {
    ((0x30 + d) as u8) as char
}

/// A number in decimal notation.
pub open spec fn decimal(n: int) -> Seq<char>
    decreases n,
{
    if n < 10 {
        seq![digit(n)]
    } else {
        decimal(n / 10).push(digit(n % 10))
    }
}

/// The name under which a kind of violation is reported.
pub open spec fn kind_label(kind: ViolationKind) -> Seq<char> {
    match kind {
        ViolationKind::TailwindArbitrary => "tailwind-arbitrary"@,
        ViolationKind::InlineStyle => "inline-style"@,
        ViolationKind::DistCss => "dist-css"@,
    }
}

/// The line that reports a violation in a script source.
pub open spec fn source_entry(v: ViolationView) -> Seq<char> {
    "- "@ + v.file + ":"@ + decimal(v.line) + ":"@ + decimal(v.column) + "  "@ + kind_label(
        v.kind,
    ) + "  "@ + v.property + " (normalized: "@ + v.normalized + ")"@
}

/// The line that reports a violation in a built stylesheet.
pub open spec fn dist_entry(v: ViolationView) -> Seq<char> {
    "- "@ + v.file + " -> "@ + v.property + " (normalized: "@ + v.normalized + ")"@
}

/// The line that reports the use of a forbidden utility.
pub open spec fn hit_entry(h: TailwindHitView) -> Seq<char> {
    "- "@ + h.file + ":"@ + decimal(h.line) + ":"@ + decimal(h.column) + "  "@ + h.rule + "  ("@
        + h.snippet + ")"@
}

/// The line that says how many findings are not shown.
pub open spec fn more_line(hidden: int) -> Seq<char> {
    "...and "@ + decimal(hidden) + " more"@
}

/// The first `limit` of a list, or all of it where it is shorter.
pub open spec fn shown<T>(all: Seq<T>, limit: int) -> Seq<T> {
    if all.len() <= limit {
        all
    } else {
        all.take(limit)
    }
}

/// The line that says how many findings there are beyond the `limit` that
/// are shown, where there are any.
pub open spec fn hidden_lines(count: int, limit: int) -> Seq<Seq<char>> {
    if count > limit {
        seq![more_line(count - limit)]
    } else {
        Seq::empty()
    }
}

/// The report on the violations in script sources: their number, the first
/// thirty of them, and how many more there are.
pub open spec fn source_report(violations: Seq<ViolationView>) -> Seq<Seq<char>> {
    seq![
        "[check:webf-css-props] Found "@ + decimal(violations.len() as int)
            + " unsupported CSS properties in source:"@,
    ] + shown(violations, VIOLATIONS_SHOWN as int).map_values(|v: ViolationView| source_entry(v))
        + hidden_lines(violations.len() as int, VIOLATIONS_SHOWN as int)
}

/// The report on the violations in built stylesheets: their number, and the
/// first thirty of them.
pub open spec fn dist_report(violations: Seq<ViolationView>) -> Seq<Seq<char>> {
    seq![
        "[check:webf-css-props] Found "@ + decimal(violations.len() as int)
            + " unsupported CSS properties in dist CSS (grouped by file):"@,
    ] + shown(violations, VIOLATIONS_SHOWN as int).map_values(|v: ViolationView| dist_entry(v))
}

/// The report on the uses of forbidden utilities: the first fifty of them,
/// how many more there are, and how a file is exempted.
pub open spec fn tailwind_report(hits: Seq<TailwindHitView>) -> Seq<Seq<char>> {
    seq!["[webf-tailwind-blacklist] Found forbidden Tailwind patterns:"@] + shown(
        hits,
        HITS_SHOWN as int,
    ).map_values(|h: TailwindHitView| hit_entry(h)) + hidden_lines(
        hits.len() as int,
        HITS_SHOWN as int,
    ) + seq![
        ""@,
        "If you really need to bypass for a file, add:"@,
        "  // webf-tailwind-blacklist:disable"@,
    ]
}

/// The lines of a list as characters.
pub open spec fn lines_of(lines: Seq<String>) -> Seq<Seq<char>> {
    lines.map_values(|s: String| s@)
}

fn push_decimal(out: &mut String, n: usize)
    ensures
        final(out)@ == old(out)@ + decimal(n as int),
    decreases n,
{
    if n < 10 {
        let d: u8 = n as u8;
        out.push((0x30 + d) as char);
        assert(out@ =~= old(out)@ + decimal(n as int));
    } else {
        push_decimal(out, n / 10);
        let d: u8 = (n % 10) as u8;
        out.push((0x30 + d) as char);
        assert(out@ =~= old(out)@ + decimal(n as int));
    }
}

/// `n` in decimal notation.
pub fn decimal_string(n: usize) -> (s: String)
    ensures
        s@ == decimal(n as int),
{
    let mut s = String::new();
    push_decimal(&mut s, n);
    assert(s@ =~= decimal(n as int));
    s
}

fn label_of(kind: ViolationKind) -> (s: &'static str)
    ensures
        s@ == kind_label(kind),
{
    match kind {
        ViolationKind::TailwindArbitrary => "tailwind-arbitrary",
        ViolationKind::InlineStyle => "inline-style",
        ViolationKind::DistCss => "dist-css",
    }
}

fn source_line(v: &Violation) -> (s: String)
    ensures
        s@ == source_entry(v@),
{
    let mut s = "- ".to_owned();
    s.append(v.file.as_str());
    s.append(":");
    push_decimal(&mut s, v.line);
    s.append(":");
    push_decimal(&mut s, v.column);
    s.append("  ");
    s.append(label_of(v.kind));
    s.append("  ");
    s.append(v.property.as_str());
    s.append(" (normalized: ");
    s.append(v.normalized.as_str());
    s.append(")");
    s
}

fn dist_line(v: &Violation) -> (s: String)
    ensures
        s@ == dist_entry(v@),
{
    let mut s = "- ".to_owned();
    s.append(v.file.as_str());
    s.append(" -> ");
    s.append(v.property.as_str());
    s.append(" (normalized: ");
    s.append(v.normalized.as_str());
    s.append(")");
    s
}

fn hit_line(h: &TailwindHit) -> (s: String)
    ensures
        s@ == hit_entry(h@),
{
    let mut s = "- ".to_owned();
    s.append(h.file.as_str());
    s.append(":");
    push_decimal(&mut s, h.line);
    s.append(":");
    push_decimal(&mut s, h.column);
    s.append("  ");
    s.append(h.rule.as_str());
    s.append("  (");
    s.append(h.snippet.as_str());
    s.append(")");
    s
}

fn push_more(lines: &mut Vec<String>, count: usize, limit: usize)
    ensures
        lines_of(final(lines)@) == lines_of(old(lines)@) + hidden_lines(
            count as int,
            limit as int,
        ),
{
    if count > limit {
        let mut s = "...and ".to_owned();
        push_decimal(&mut s, count - limit);
        s.append(" more");
        lines.push(s);
        assert(lines_of(lines@) =~= lines_of(old(lines)@) + hidden_lines(
            count as int,
            limit as int,
        ));
    } else {
        assert(lines_of(lines@) =~= lines_of(old(lines)@) + hidden_lines(
            count as int,
            limit as int,
        ));
    }
}

fn min_of(a: usize, b: usize) -> (m: usize)
    ensures
        m == if a <= b {
            a
        } else {
            b
        },
{
    if a <= b {
        a
    } else {
        b
    }
}

/// The lines that report the violations found in script sources.
pub fn source_report_lines(violations: &Vec<Violation>) -> (lines: Vec<String>)
    ensures
        lines_of(lines@) == source_report(violation_views(violations@)),
{
    let ghost all = violation_views(violations@);
    let mut head = "[check:webf-css-props] Found ".to_owned();
    push_decimal(&mut head, violations.len());
    head.append(" unsupported CSS properties in source:");
    let mut lines: Vec<String> = Vec::new();
    lines.push(head);
    let ghost first = lines_of(lines@);
    let n = min_of(violations.len(), VIOLATIONS_SHOWN);
    let mut i: usize = 0;
    proof {
        assert(first =~= seq![
            "[check:webf-css-props] Found "@ + decimal(all.len() as int)
                + " unsupported CSS properties in source:"@,
        ]);
        assert(first + all.take(0).map_values(|v: ViolationView| source_entry(v)) =~= first);
    }
    while i < n
        invariant
            i <= n <= violations.len(),
            all == violation_views(violations@),
            lines_of(lines@) == first + all.take(i as int).map_values(
                |v: ViolationView| source_entry(v),
            ),
        decreases n - i,
    {
        let ghost so_far = lines_of(lines@);
        let line = source_line(&violations[i]);
        lines.push(line);
        proof {
            assert(all.take(i + 1) =~= all.take(i as int).push(all[i as int]));
            assert(lines_of(lines@) =~= so_far.push(source_entry(all[i as int])));
            assert(so_far.push(source_entry(all[i as int])) =~= first + all.take(i + 1).map_values(
                |v: ViolationView| source_entry(v),
            ));
        }
        i += 1;
    }
    proof {
        assert(all.take(n as int) =~= shown(all, VIOLATIONS_SHOWN as int));
    }
    push_more(&mut lines, violations.len(), VIOLATIONS_SHOWN);
    lines
}

/// The lines that report the violations found in built stylesheets.
pub fn dist_report_lines(violations: &Vec<Violation>) -> (lines: Vec<String>)
    ensures
        lines_of(lines@) == dist_report(violation_views(violations@)),
{
    let ghost all = violation_views(violations@);
    let mut head = "[check:webf-css-props] Found ".to_owned();
    push_decimal(&mut head, violations.len());
    head.append(" unsupported CSS properties in dist CSS (grouped by file):");
    let mut lines: Vec<String> = Vec::new();
    lines.push(head);
    let ghost first = lines_of(lines@);
    let n = min_of(violations.len(), VIOLATIONS_SHOWN);
    let mut i: usize = 0;
    proof {
        assert(first =~= seq![
            "[check:webf-css-props] Found "@ + decimal(all.len() as int)
                + " unsupported CSS properties in dist CSS (grouped by file):"@,
        ]);
        assert(first + all.take(0).map_values(|v: ViolationView| dist_entry(v)) =~= first);
    }
    while i < n
        invariant
            i <= n <= violations.len(),
            all == violation_views(violations@),
            lines_of(lines@) == first + all.take(i as int).map_values(
                |v: ViolationView| dist_entry(v),
            ),
        decreases n - i,
    {
        let ghost so_far = lines_of(lines@);
        let line = dist_line(&violations[i]);
        lines.push(line);
        proof {
            assert(all.take(i + 1) =~= all.take(i as int).push(all[i as int]));
            assert(lines_of(lines@) =~= so_far.push(dist_entry(all[i as int])));
            assert(so_far.push(dist_entry(all[i as int])) =~= first + all.take(i + 1).map_values(
                |v: ViolationView| dist_entry(v),
            ));
        }
        i += 1;
    }
    proof {
        assert(all.take(n as int) =~= shown(all, VIOLATIONS_SHOWN as int));
    }
    lines
}

/// The lines that report the uses of forbidden Tailwind utilities.
pub fn tailwind_report_lines(hits: &Vec<TailwindHit>) -> (lines: Vec<String>)
    ensures
        lines_of(lines@) == tailwind_report(hit_views(hits@)),
{
    let ghost all = hit_views(hits@);
    let mut lines: Vec<String> = Vec::new();
    lines.push("[webf-tailwind-blacklist] Found forbidden Tailwind patterns:".to_owned());
    let ghost first = lines_of(lines@);
    let n = min_of(hits.len(), HITS_SHOWN);
    let mut i: usize = 0;
    proof {
        assert(first =~= seq!["[webf-tailwind-blacklist] Found forbidden Tailwind patterns:"@]);
        assert(first + all.take(0).map_values(|h: TailwindHitView| hit_entry(h)) =~= first);
    }
    while i < n
        invariant
            i <= n <= hits.len(),
            all == hit_views(hits@),
            lines_of(lines@) == first + all.take(i as int).map_values(
                |h: TailwindHitView| hit_entry(h),
            ),
        decreases n - i,
    {
        let ghost so_far = lines_of(lines@);
        let line = hit_line(&hits[i]);
        lines.push(line);
        proof {
            assert(all.take(i + 1) =~= all.take(i as int).push(all[i as int]));
            assert(lines_of(lines@) =~= so_far.push(hit_entry(all[i as int])));
            assert(so_far.push(hit_entry(all[i as int])) =~= first + all.take(i + 1).map_values(
                |h: TailwindHitView| hit_entry(h),
            ));
        }
        i += 1;
    }
    proof {
        assert(all.take(n as int) =~= shown(all, HITS_SHOWN as int));
    }
    push_more(&mut lines, hits.len(), HITS_SHOWN);
    let ghost body = lines_of(lines@);
    lines.push("".to_owned());
    lines.push("If you really need to bypass for a file, add:".to_owned());
    lines.push("  // webf-tailwind-blacklist:disable".to_owned());
    proof {
        assert(lines_of(lines@) =~= body + seq![
            ""@,
            "If you really need to bypass for a file, add:"@,
            "  // webf-tailwind-blacklist:disable"@,
        ]);
    }
    lines
}

} // verus!
