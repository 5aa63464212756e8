//! Reading the report of `handle.exe` on the processes that hold a file.
use std::collections::HashMap;
use vstd::prelude::*;
use crate::lines::{
    is_space, is_whitespace, line_views, lines_of_text, split_lines, trim_chars, trimmed,
    trimmed_start,
};
use crate::strings::{find_chars, first_occurrence, run_end, string_of};

verus! {

/// An ASCII decimal digit.
pub open spec fn is_digit(c: char) -> bool {
    '0' <= c && c <= '9'
}

/// The number that decimal digits write.
pub open spec fn digits_value(digits: Seq<char>) -> int
    decreases digits.len(),
{
    if digits.len() == 0 {
        0
    } else {
        digits_value(digits.drop_last()) * 10 + (digits.last() as int - '0' as int)
    }
}

/// The process id that a run of digits writes: none where the run is empty
/// or the number too large for 32 bits.
pub open spec fn pid_of(digits: Seq<char>) -> Option<u32> {
    if digits.len() > 0 && digits_value(digits) <= u32::MAX {
        Some(digits_value(digits) as u32)
    } else {
        None
    }
}

/// The number that the first digits write is not larger than the number that
/// all of them write.
pub proof fn lemma_digits_value_grows(digits: Seq<char>, n: int)
    requires
        0 <= n <= digits.len(),
        forall|k: int| 0 <= k < digits.len() ==> is_digit(digits[k]),
    ensures
        0 <= digits_value(digits.take(n)) <= digits_value(digits),
    decreases digits.len() - n,
{
    if n < digits.len() {
        assert(digits.take(n + 1).drop_last() =~= digits.take(n));
        lemma_digits_value_grows(digits, n + 1);
        lemma_digits_nonnegative(digits.take(n));
    } else {
        assert(digits.take(n) =~= digits);
        lemma_digits_nonnegative(digits);
    }
}

/// The number that digits write is not negative.
pub proof fn lemma_digits_nonnegative(digits: Seq<char>)
    requires
        forall|k: int| 0 <= k < digits.len() ==> is_digit(digits[k]),
    ensures
        0 <= digits_value(digits),
    decreases digits.len(),
{
    if digits.len() > 0 {
        lemma_digits_nonnegative(digits.drop_last());
    }
}

/// What a line of the report says: the id of a process and its name. The id
/// is the run of digits behind the first `pid:` and the white space that
/// follows it; the name is the first word of the line, or `Unknown` where
/// nothing stands before `pid:`. Empty lines, lines of the banner and lines
/// without a process id say nothing.
pub open spec fn process_of(line: Seq<char>) -> Option<(u32, Seq<char>)> {
    if trimmed(line).len() == 0 || first_occurrence(line, "Nthandle"@, 0) is Some || first_occurrence(
        line,
        "Copyright"@,
        0,
    ) is Some || first_occurrence(line, "Sysinternals"@, 0) is Some {
        None
    } else {
        match first_occurrence(line, "pid:"@, 0) {
            None => None,
            Some(at) => {
                let rest = trimmed_start(line.skip(at + 4));
                let digits = rest.take(run_end(rest, 0, |c: char| is_digit(c)));
                let before = trimmed(line.take(at));
                let word = before.take(run_end(before, 0, |c: char| !is_whitespace(c)));
                match pid_of(digits) {
                    None => None,
                    Some(pid) => Some(
                        (
                            pid,
                            if word.len() == 0 {
                                "Unknown"@
                            } else {
                                word
                            },
                        ),
                    ),
                }
            },
        }
    }
}

/// The processes that the lines name: for each id the name that the last
/// line with that id gives.
pub open spec fn processes_of(lines: Seq<Seq<char>>) -> Map<u32, Seq<char>>
    decreases lines.len(),
{
    if lines.len() == 0 {
        Map::empty()
    } else {
        let before = processes_of(lines.drop_last());
        match process_of(lines.last()) {
            Some((pid, name)) => before.insert(pid, name),
            None => before,
        }
    }
}

fn parse_pid(digits: &Vec<char>) -> (r: Option<u32>)
    requires
        forall|k: int| 0 <= k < digits.len() ==> is_digit(digits[k]),
    ensures
        r == pid_of(digits@),
{
    if digits.len() == 0 {
        return None;
    }
    let mut value: u32 = 0;
    let mut i: usize = 0;
    proof {
        assert(digits@.take(0) =~= Seq::<char>::empty());
    }
    while i < digits.len()
        invariant
            i <= digits.len(),
            forall|k: int| 0 <= k < digits.len() ==> is_digit(digits[k]),
            value == digits_value(digits@.take(i as int)),
        decreases digits.len() - i,
    {
        let d: u32 = (digits[i] as u32) - ('0' as u32);
        proof {
            assert(digits@.take(i + 1).drop_last() =~= digits@.take(i as int));
            assert(digits@.take(i + 1).last() == digits@[i as int]);
            lemma_digits_value_grows(digits@, i + 1);
        }
        if value > (u32::MAX - d) / 10 {
            proof {
                assert(digits_value(digits@.take(i + 1)) > u32::MAX);
            }
            return None;
        }
        value = value * 10 + d;
        i += 1;
    }
    proof {
        assert(digits@.take(digits.len() as int) =~= digits@);
    }
    Some(value)
}

fn sub_vec(chars: &Vec<char>, from: usize, to: usize) -> (part: Vec<char>)
    requires
        from <= to <= chars.len(),
    ensures
        part@ == chars@.subrange(from as int, to as int),
{
    let mut part: Vec<char> = Vec::new();
    let mut k: usize = from;
    while k < to
        invariant
            from <= k <= to <= chars.len(),
            part@ == chars@.subrange(from as int, k as int),
        decreases to - k,
    {
        part.push(chars[k]);
        assert(chars@.subrange(from as int, k + 1) =~= chars@.subrange(from as int, k as int).push(
            chars@[k as int],
        ));
        k += 1;
    }
    part
}

/// What one line of the report says.
pub fn parse_handle_line(line: &Vec<char>) -> (r: Option<(u32, String)>)
    ensures
        match r {
            Some((pid, name)) => process_of(line@) == Some((pid, name@)),
            None => process_of(line@) is None,
        },
{
    if trim_chars(line).len() == 0 {
        return None;
    }
    if find_chars(line, "Nthandle").is_some() || find_chars(line, "Copyright").is_some()
        || find_chars(line, "Sysinternals").is_some() {
        return None;
    }
    let Some(at) = find_chars(line, "pid:") else {
        return None;
    };
    proof {
        reveal_strlit("pid:");
    }
    let after = sub_vec(line, at + 4, line.len());
    proof {
        assert(after@ =~= line@.skip(at + 4));
    }
    let mut start: usize = 0;
    while start < after.len() && is_space(after[start])
        invariant
            start <= after.len(),
            run_end(after@, start as int, |c: char| is_whitespace(c)) == run_end(
                after@,
                0,
                |c: char| is_whitespace(c),
            ),
        decreases after.len() - start,
    {
        start += 1;
    }
    let ghost rest = after@.skip(start as int);
    let mut end: usize = start;
    while end < after.len() && '0' <= after[end] && after[end] <= '9'
        invariant
            start <= end <= after.len(),
            rest == after@.skip(start as int),
            forall|k: int| start <= k < end ==> is_digit(after@[k]),
            run_end(rest, end - start, |c: char| is_digit(c)) == run_end(
                rest,
                0,
                |c: char| is_digit(c),
            ),
        decreases after.len() - end,
    {
        end += 1;
    }
    let digits = sub_vec(&after, start, end);
    proof {
        assert(digits@ =~= rest.take(end - start));
    }
    let Some(pid) = parse_pid(&digits) else {
        return None;
    };
    let head = sub_vec(line, 0, at);
    proof {
        assert(head@ =~= line@.take(at as int));
    }
    let before = trim_chars(&head);
    let mut w: usize = 0;
    while w < before.len() && !is_space(before[w])
        invariant
            w <= before.len(),
            run_end(before@, w as int, |c: char| !is_whitespace(c)) == run_end(
                before@,
                0,
                |c: char| !is_whitespace(c),
            ),
        decreases before.len() - w,
    {
        w += 1;
    }
    let name = if w == 0 {
        "Unknown".to_owned()
    } else {
        let word = sub_vec(&before, 0, w);
        proof {
            assert(word@ =~= before@.take(w as int));
            assert(word@.skip(0) =~= word@);
        }
        string_of(&word, 0)
    };
    Some((pid, name))
}

/// The names of a map of processes as characters.
pub open spec fn process_names(m: Map<u32, String>) -> Map<u32, Seq<char>> {
    Map::new(|pid: u32| m.contains_key(pid), |pid: u32| m[pid]@)
}

/// Reads the report of `handle.exe`: the processes that it names, by their
/// ids.
pub fn parse_handle_output(output: &str) -> (res: Result<HashMap<u32, String>, String>)
    ensures
        match res {
            Ok(processes) => process_names(processes@) == processes_of(split_lines(output@)),
            Err(_) => false,
        },
{
    broadcast use vstd::std_specs::hash::group_hash_axioms;

    let lines = lines_of_text(output);
    let ghost all = line_views(lines@);
    let mut processes: HashMap<u32, String> = HashMap::new();
    let mut i: usize = 0;
    proof {
        assert(all.take(0) =~= Seq::<Seq<char>>::empty());
        assert(process_names(processes@) =~= Map::<u32, Seq<char>>::empty());
    }
    while i < lines.len()
        invariant
            i <= lines.len(),
            all == line_views(lines@),
            process_names(processes@) == processes_of(all.take(i as int)),
        decreases lines.len() - i,
    {
        proof {
            assert(all.take(i + 1).drop_last() =~= all.take(i as int));
            assert(all.take(i + 1).last() == lines[i as int]@);
        }
        if let Some((pid, name)) = parse_handle_line(&lines[i]) {
            let ghost before = process_names(processes@);
            let ghost name_view = name@;
            processes.insert(pid, name);
            proof {
                assert(process_names(processes@) =~= before.insert(pid, name_view));
            }
        }
        i += 1;
    }
    proof {
        assert(all.take(lines.len() as int) =~= all);
    }
    Ok(processes)
}

} // verus!
