//! The Tailwind utilities that a front end must not use.
use vstd::prelude::*;
use vstd::string::*;
use vstd::utf8::*;
use crate::allowlist::ConfigError;
use crate::pattern::{
    captures_of, group, group_text, match_start, regex_captures, start_of, Captures, MatchView,
};
use crate::position::{clamp_usize, column_of, line_col_from_index, line_of};
use crate::source::SourceFile;
use crate::strings::{find_bytes, first_occurrence};

verus! {

/// A file that holds this text is not checked.
pub const DISABLE_MARKER: &'static str = "webf-tailwind-blacklist:disable";

/// The forbidden utilities: a name for each, and the pattern that finds it.
pub open spec fn forbidden_rules() -> Seq<(Seq<char>, Seq<char>)> {
    seq![
        ("group-hover variant"@, "\\bgroup-hover:"@),
        ("hover transform (scale)"@, "\\bhover:scale-[^\\s\"']+"@),
        ("hover transform (translate)"@, "\\bhover:-?translate-[^\\s\"']+"@),
        ("hover transform (rotate)"@, "\\bhover:rotate-[^\\s\"']+"@),
        ("hover transform (skew)"@, "\\bhover:skew-[^\\s\"']+"@),
        ("transition-all utility"@, "\\btransition-all\\b"@),
    ]
}

/// The forbidden utilities, as `forbidden_rules` lists them.
pub fn rules() -> (list: Vec<(&'static str, &'static str)>)
    ensures
        list@.map_values(|r: (&'static str, &'static str)| (r.0@, r.1@)) == forbidden_rules(),
{
    let list = vec![
        ("group-hover variant", "\\bgroup-hover:"),
        ("hover transform (scale)", "\\bhover:scale-[^\\s\"']+"),
        ("hover transform (translate)", "\\bhover:-?translate-[^\\s\"']+"),
        ("hover transform (rotate)", "\\bhover:rotate-[^\\s\"']+"),
        ("hover transform (skew)", "\\bhover:skew-[^\\s\"']+"),
        ("transition-all utility", "\\btransition-all\\b"),
    ];
    assert(list@.map_values(|r: (&'static str, &'static str)| (r.0@, r.1@)) =~= forbidden_rules());
    list
}

/// One use of a forbidden utility.
#[derive(Debug)]
pub struct TailwindHit {
    pub file: String,
    /// The line, from 1.
    pub line: usize,
    /// The column in bytes, from 1.
    pub column: usize,
    /// The name of the rule that forbids it.
    pub rule: String,
    /// The text that was found.
    pub snippet: String,
}

/// `TailwindHit`, with its strings as characters.
pub struct TailwindHitView {
    pub file: Seq<char>,
    pub line: int,
    pub column: int,
    pub rule: Seq<char>,
    pub snippet: Seq<char>,
}

impl View for TailwindHit {
    type V = TailwindHitView;

    open spec fn view(&self) -> TailwindHitView {
        TailwindHitView {
            file: self.file@,
            line: self.line as int,
            column: self.column as int,
            rule: self.rule@,
            snippet: self.snippet@,
        }
    }
}

/// The hits of a list, each with its strings as characters.
pub open spec fn hit_views(hits: Seq<TailwindHit>) -> Seq<TailwindHitView> {
    hits.map_values(|h: TailwindHit| h@)
}

/// The hit that one match of a rule's pattern gives.
pub open spec fn hit_of(file: Seq<char>, bytes: Seq<u8>, rule: Seq<char>, m: MatchView) -> Seq<
    TailwindHitView,
> {
    match group_text(m, 0) {
        Some(snippet) => seq![
            TailwindHitView {
                file,
                line: clamp_usize(line_of(bytes, match_start(m) as int)) as int,
                column: column_of(bytes, match_start(m) as int),
                rule,
                snippet,
            },
        ],
        None => Seq::empty(),
    }
}

/// The hits that the matches of a rule's pattern give, in their order.
pub open spec fn hits_of(
    file: Seq<char>,
    bytes: Seq<u8>,
    rule: Seq<char>,
    matches: Seq<MatchView>,
) -> Seq<TailwindHitView>
    decreases matches.len(),
{
    if matches.len() == 0 {
        Seq::empty()
    } else {
        hits_of(file, bytes, rule, matches.drop_last()) + hit_of(file, bytes, rule, matches.last())
    }
}

/// The hits of one file under the first `n` rules, rule by rule.
pub open spec fn rule_hits(file: Seq<char>, text: Seq<char>, n: int) -> Result<
    Seq<TailwindHitView>,
    ConfigError,
>
    decreases n,
{
    if n <= 0 || n > forbidden_rules().len() {
        Ok(Seq::empty())
    } else {
        match rule_hits(file, text, n - 1) {
            Err(e) => Err(e),
            Ok(done) => match regex_captures(forbidden_rules()[n - 1].1, text) {
                None => Err(ConfigError::InvalidPattern),
                Some(matches) => Ok(
                    done + hits_of(file, encode_utf8(text), forbidden_rules()[n - 1].0, matches),
                ),
            },
        }
    }
}

/// Whether a file asks not to be checked.
pub open spec fn is_disabled(bytes: Seq<u8>) -> bool {
    first_occurrence(bytes, DISABLE_MARKER.spec_bytes(), 0) is Some
}

/// The hits of one file: none where the file asks not to be checked, else
/// those of every rule, rule by rule.
pub open spec fn file_hits(file: Seq<char>, text: Seq<char>) -> Result<
    Seq<TailwindHitView>,
    ConfigError,
> {
    if is_disabled(encode_utf8(text)) {
        Ok(Seq::empty())
    } else {
        rule_hits(file, text, forbidden_rules().len() as int)
    }
}

/// Adds to `out` the hits that the matches of a rule's pattern in `text`
/// give.
pub fn push_hits(
    file: &str,
    text: &str,
    rule: &str,
    matches: &Vec<Captures>,
    out: &mut Vec<TailwindHit>,
)
    ensures
        hit_views(final(out)@) == hit_views(old(out)@) + hits_of(
            file@,
            text.spec_bytes(),
            rule@,
            matches.deep_view(),
        ),
{
    let ghost all = matches.deep_view();
    let ghost before = hit_views(out@);
    let ghost bytes = text.spec_bytes();
    let mut i: usize = 0;
    proof {
        assert(all.take(0) =~= Seq::<MatchView>::empty());
        assert(before + hits_of(file@, bytes, rule@, all.take(0)) =~= before);
    }
    while i < matches.len()
        invariant
            i <= matches.len(),
            all == matches.deep_view(),
            bytes == text.spec_bytes(),
            before == hit_views(old(out)@),
            hit_views(out@) == before + hits_of(file@, bytes, rule@, all.take(i as int)),
        decreases matches.len() - i,
    {
        proof {
            assert(all.take(i + 1).drop_last() =~= all.take(i as int));
            assert(all.take(i + 1).last() == matches[i as int].deep_view());
        }
        let m = &matches[i];
        let ghost so_far = hit_views(out@);
        let ghost step = hit_of(file@, bytes, rule@, matches[i as int].deep_view());
        if let Some(snippet) = group(m, 0) {
            let (line, column) = line_col_from_index(text, start_of(m));
            let hit = TailwindHit {
                file: file.to_owned(),
                line,
                column,
                rule: rule.to_owned(),
                snippet: snippet.to_owned(),
            };
            out.push(hit);
            proof {
                assert(hit_views(out@) =~= so_far.push(step[0]));
            }
        }
        proof {
            assert(hit_views(out@) =~= so_far + step);
            assert(so_far + step =~= before + (hits_of(file@, bytes, rule@, all.take(i as int))
                + step));
        }
        i += 1;
    }
    proof {
        assert(all.take(matches.len() as int) =~= all);
    }
}

/// Where the first rules give an error, all rules give it.
pub proof fn lemma_rule_hits_error(file: Seq<char>, text: Seq<char>, n: int)
    requires
        0 <= n <= forbidden_rules().len(),
        rule_hits(file, text, n) is Err,
    ensures
        rule_hits(file, text, forbidden_rules().len() as int) == rule_hits(file, text, n),
    decreases forbidden_rules().len() - n,
{
    if n < forbidden_rules().len() {
        lemma_rule_hits_error(file, text, n + 1);
    }
}

/// Finds the forbidden utilities in one file.
pub fn tailwind_file_hits(file: &str, text: &str) -> (res: Result<Vec<TailwindHit>, ConfigError>)
    ensures
        match res {
            Ok(hits) => file_hits(file@, text@) == Ok::<
                Seq<TailwindHitView>,
                ConfigError,
            >(hit_views(hits@)),
            Err(e) => file_hits(file@, text@) == Err::<
                Seq<TailwindHitView>,
                ConfigError,
            >(e),
        },
{
    let mut out: Vec<TailwindHit> = Vec::new();
    proof {
        assert(hit_views(out@) =~= Seq::<TailwindHitView>::empty());
    }
    if find_bytes(text.as_bytes(), DISABLE_MARKER.as_bytes(), 0).is_some() {
        return Ok(out);
    }
    let list = rules();
    let ghost bytes = text.spec_bytes();
    let mut n: usize = 0;
    while n < list.len()
        invariant
            n <= list.len(),
            bytes == text.spec_bytes(),
            !is_disabled(bytes),
            list@.map_values(|r: (&'static str, &'static str)| (r.0@, r.1@)) == forbidden_rules(),
            rule_hits(file@, text@, n as int) == Ok::<Seq<TailwindHitView>, ConfigError>(
                hit_views(out@),
            ),
        decreases list.len() - n,
    {
        let (name, pattern) = list[n];
        proof {
            assert(forbidden_rules()[n as int] == list@.map_values(
                |r: (&'static str, &'static str)| (r.0@, r.1@),
            )[n as int]);
        }
        match captures_of(pattern, text) {
            None => {
                proof {
                    assert(rule_hits(file@, text@, n + 1) == Err::<
                        Seq<TailwindHitView>,
                        ConfigError,
                    >(ConfigError::InvalidPattern));
                    lemma_rule_hits_error(file@, text@, n + 1);
                }
                return Err(ConfigError::InvalidPattern);
            },
            Some(matches) => {
                push_hits(file, text, name, &matches, &mut out);
            },
        }
        n += 1;
    }
    Ok(out)
}

/// The hits of the files, file by file in the order given.
pub open spec fn blacklist_hits(files: Seq<SourceFile>) -> Result<Seq<TailwindHitView>, ConfigError>
    decreases files.len(),
{
    if files.len() == 0 {
        Ok(Seq::empty())
    } else {
        match blacklist_hits(files.drop_last()) {
            Err(e) => Err(e),
            Ok(done) => match file_hits(files.last().path@, files.last().text@) {
                Err(e) => Err(e),
                Ok(found) => Ok(done + found),
            },
        }
    }
}

/// Where the first files give an error, all files give it.
pub proof fn lemma_blacklist_hits_error(files: Seq<SourceFile>, n: int)
    requires
        0 <= n <= files.len(),
        blacklist_hits(files.take(n)) is Err,
    ensures
        blacklist_hits(files) == blacklist_hits(files.take(n)),
    decreases files.len() - n,
{
    if n < files.len() {
        assert(files.take(n + 1).drop_last() =~= files.take(n));
        lemma_blacklist_hits_error(files, n + 1);
    } else {
        assert(files.take(n) =~= files);
    }
}

/// Finds every use of a forbidden Tailwind utility in the script sources.
/// The check passes where the list that comes back is empty. Every hit is
/// reported, however many there are.
pub fn check_tailwind_blacklist(files: &Vec<SourceFile>) -> (res: Result<
    Vec<TailwindHit>,
    ConfigError,
>)
    ensures
        match res {
            Ok(hits) => blacklist_hits(files@) == Ok::<Seq<TailwindHitView>, ConfigError>(
                hit_views(hits@),
            ),
            Err(e) => blacklist_hits(files@) == Err::<Seq<TailwindHitView>, ConfigError>(e),
        },
{
    let mut out: Vec<TailwindHit> = Vec::new();
    let mut i: usize = 0;
    proof {
        assert(files@.take(0) =~= Seq::<SourceFile>::empty());
        assert(hit_views(out@) =~= Seq::<TailwindHitView>::empty());
    }
    while i < files.len()
        invariant
            i <= files.len(),
            blacklist_hits(files@.take(i as int)) == Ok::<Seq<TailwindHitView>, ConfigError>(
                hit_views(out@),
            ),
        decreases files.len() - i,
    {
        proof {
            assert(files@.take(i + 1).drop_last() =~= files@.take(i as int));
            assert(files@.take(i + 1).last() == files@[i as int]);
        }
        match tailwind_file_hits(files[i].path.as_str(), files[i].text.as_str()) {
            Err(e) => {
                proof {
                    lemma_blacklist_hits_error(files@, i + 1);
                }
                return Err(e);
            },
            Ok(mut found) => {
                let ghost so_far = hit_views(out@);
                let ghost added = hit_views(found@);
                out.append(&mut found);
                proof {
                    assert(hit_views(out@) =~= so_far + added);
                }
            },
        }
        i += 1;
    }
    proof {
        assert(files@.take(files.len() as int) =~= files@);
    }
    Ok(out)
}

} // verus!
