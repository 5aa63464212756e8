//! Checking a script source: Tailwind classes of the form
//! `[property:value]`, and the keys of inline style objects.
use vstd::prelude::*;
use vstd::string::*;
use vstd::utf8::*;
use crate::allowlist::{is_supported, AllowedPropertySet, ConfigError};
use crate::normalize::{
    css_prop_from_js_key, is_custom_property, js_key_to_css, normalize_css, normalize_property,
};
use crate::position::{clamp_usize, column_of, line_of};
use crate::pattern::{
    captures_of, group, group_text, groups_within, match_start, regex_captures, start_of,
    Captures, MatchView,
};
use crate::spans::{find_style_object_spans, span_offsets, spans_delimited, style_spans};
use crate::text::{lemma_boundary_after_ascii, lemma_boundary_at_ascii, slice_str, text_between};
use crate::violation::{
    check_property, finding, violation_views, Violation, ViolationKind, ViolationView,
};

verus! {

/// A Tailwind class that sets a property directly: `[`, the property, `:`.
/// The property may begin with one or two dashes.
pub const ARBITRARY_PROPERTY: &'static str = "\\[(-{0,2}[A-Za-z][A-Za-z0-9-]*):";

/// A key of a style object written as an identifier, at the start of a line
/// or behind `,` or `{`, with `:` behind it.
pub const STYLE_KEY_IDENT: &'static str = "(?m)(?:^|[,{]\\s*)([A-Za-z_$][A-Za-z0-9_$]*)\\s*:";

/// A key of a style object written in quotes, at the start of a line or
/// behind `,` or `{`, with `:` behind it.
pub const STYLE_KEY_STRING: &'static str = "(?m)(?:^|[,{]\\s*)['\"]([^'\"]+)['\"]\\s*:";

/// A key of a style object.
#[derive(Debug)]
pub struct StyleKey {
    /// The key without its quotes.
    pub key: String,
    /// Whether the key was written in quotes: then it is a CSS name, else a
    /// camelCase name.
    pub is_quoted: bool,
    /// The byte offset in the span at which the match of the key starts.
    pub offset: usize,
}

/// `StyleKey`, with the key as characters.
pub struct StyleKeyView {
    pub key: Seq<char>,
    pub is_quoted: bool,
    pub offset: int,
}

impl View for StyleKey {
    type V = StyleKeyView;

    open spec fn view(&self) -> StyleKeyView {
        StyleKeyView { key: self.key@, is_quoted: self.is_quoted, offset: self.offset as int }
    }
}

/// The keys of a list, each with its key as characters.
pub open spec fn key_views(keys: Seq<StyleKey>) -> Seq<StyleKeyView> {
    keys.map_values(|k: StyleKey| k@)
}

/// The key that a match gives: the text of its first group, at the offset
/// of the match.
pub open spec fn key_of(m: MatchView, is_quoted: bool) -> Seq<StyleKeyView> {
    match group_text(m, 1) {
        Some(key) => seq![StyleKeyView { key, is_quoted, offset: match_start(m) as int }],
        None => Seq::empty(),
    }
}

/// The keys that the matches give, in the order of the matches.
pub open spec fn keys_of(matches: Seq<MatchView>, is_quoted: bool) -> Seq<StyleKeyView>
    decreases matches.len(),
{
    if matches.len() == 0 {
        Seq::empty()
    } else {
        keys_of(matches.drop_last(), is_quoted) + key_of(matches.last(), is_quoted)
    }
}

/// The keys of the content of a style object: the quoted keys first, then
/// the keys written as identifiers.
pub open spec fn style_keys(span_text: Seq<char>) -> Result<Seq<StyleKeyView>, ConfigError> {
    match regex_captures(STYLE_KEY_STRING@, span_text) {
        None => Err(ConfigError::InvalidPattern),
        Some(quoted) => match regex_captures(STYLE_KEY_IDENT@, span_text) {
            None => Err(ConfigError::InvalidPattern),
            Some(idents) => Ok(keys_of(quoted, true) + keys_of(idents, false)),
        },
    }
}

/// No key lies behind the end of the text in which it was found.
pub proof fn lemma_keys_within(matches: Seq<MatchView>, is_quoted: bool, len: int)
    requires
        groups_within(matches, len),
        0 <= len,
    ensures
        forall|k: int|
            0 <= k < keys_of(matches, is_quoted).len() ==> 0 <= (#[trigger] keys_of(
                matches,
                is_quoted,
            )[k]).offset <= len,
    decreases matches.len(),
{
    if matches.len() > 0 {
        let head = matches.drop_last();
        assert(groups_within(head, len)) by {
            assert forall|i: int, k: int| 0 <= i < head.len() && 0 <= k < head[i].len() implies (
            match #[trigger] head[i][k] {
                Some(g) => g.0 <= len,
                None => true,
            }) by {
                assert(head[i] == matches[i]);
                assert(match matches[i][k] {
                    Some(g) => g.0 <= len,
                    None => true,
                });
            }
        }
        lemma_keys_within(head, is_quoted, len);
        let last = matches.last();
        if last.len() > 0 {
            assert(match matches[matches.len() - 1][0] {
                Some(g) => g.0 <= len,
                None => true,
            });
        }
        let before = keys_of(head, is_quoted);
        let all = keys_of(matches, is_quoted);
        assert(all == before + key_of(last, is_quoted));
        assert forall|k: int| 0 <= k < all.len() implies 0 <= (#[trigger] all[k]).offset
            <= len by {
            if k < before.len() {
                assert(all[k] == before[k]);
            } else {
                assert(all[k] == key_of(last, is_quoted)[k - before.len()]);
            }
        }
    }
}

fn push_keys(matches: &Vec<Captures>, is_quoted: bool, out: &mut Vec<StyleKey>)
    ensures
        key_views(final(out)@) == key_views(old(out)@) + keys_of(matches.deep_view(), is_quoted),
{
    let ghost all = matches.deep_view();
    let ghost before = key_views(out@);
    let mut i: usize = 0;
    proof {
        assert(all.take(0) =~= Seq::<MatchView>::empty());
        assert(before + keys_of(all.take(0), is_quoted) =~= before);
    }
    while i < matches.len()
        invariant
            i <= matches.len(),
            all == matches.deep_view(),
            before == key_views(old(out)@),
            key_views(out@) == before + keys_of(all.take(i as int), is_quoted),
        decreases matches.len() - i,
    {
        proof {
            assert(all.take(i + 1).drop_last() =~= all.take(i as int));
            assert(all.take(i + 1).last() == matches[i as int].deep_view());
        }
        let m = &matches[i];
        let ghost so_far = key_views(out@);
        if let Some(key) = group(m, 1) {
            let k = StyleKey { key: key.to_owned(), is_quoted, offset: start_of(m) };
            out.push(k);
            proof {
                assert(key_views(out@) =~= so_far.push(k@));
                assert(so_far.push(k@) =~= before + (keys_of(all.take(i as int), is_quoted)
                    + key_of(matches[i as int].deep_view(), is_quoted)));
            }
        } else {
            proof {
                assert(so_far =~= before + (keys_of(all.take(i as int), is_quoted)
                    + Seq::<StyleKeyView>::empty()));
            }
        }
        i += 1;
    }
    proof {
        assert(all.take(matches.len() as int) =~= all);
    }
}

/// The keys that the matches of the two key patterns give: those of the
/// quoted keys first, then those of the identifiers.
pub fn keys_from_captures(quoted: &Vec<Captures>, idents: &Vec<Captures>) -> (keys: Vec<StyleKey>)
    ensures
        key_views(keys@) == keys_of(quoted.deep_view(), true) + keys_of(idents.deep_view(), false),
{
    let mut keys: Vec<StyleKey> = Vec::new();
    proof {
        assert(key_views(keys@) =~= Seq::<StyleKeyView>::empty());
    }
    push_keys(quoted, true, &mut keys);
    proof {
        assert(key_views(keys@) =~= keys_of(quoted.deep_view(), true));
    }
    push_keys(idents, false, &mut keys);
    keys
}

/// Finds the keys of the content of a style object: the quoted keys, then
/// the keys written as identifiers. A key may be found by both patterns,
/// and nothing tells a property key from another `name:` in the object.
pub fn extract_keys(span_text: &str) -> (res: Result<Vec<StyleKey>, ConfigError>)
    ensures
        match res {
            Ok(keys) => style_keys(span_text@) == Ok::<Seq<StyleKeyView>, ConfigError>(
                key_views(keys@),
            ) && forall|k: int|
                0 <= k < keys.len() ==> (#[trigger] keys[k]).offset
                    <= span_text.spec_bytes().len(),
            Err(e) => style_keys(span_text@) == Err::<Seq<StyleKeyView>, ConfigError>(e),
        },
{
    let quoted = match captures_of(STYLE_KEY_STRING, span_text) {
        Some(m) => m,
        None => {
            return Err(ConfigError::InvalidPattern);
        },
    };
    let idents = match captures_of(STYLE_KEY_IDENT, span_text) {
        Some(m) => m,
        None => {
            return Err(ConfigError::InvalidPattern);
        },
    };
    let keys = keys_from_captures(&quoted, &idents);
    proof {
        let len = span_text.spec_bytes().len() as int;
        let a = keys_of(quoted.deep_view(), true);
        let b = keys_of(idents.deep_view(), false);
        lemma_keys_within(quoted.deep_view(), true, len);
        lemma_keys_within(idents.deep_view(), false, len);
        assert(key_views(keys@).len() == keys.len());
        assert(key_views(keys@) == a + b);
        assert forall|k: int| 0 <= k < keys.len() implies (#[trigger] keys[k]).offset <= len by {
            assert(key_views(keys@)[k] == keys[k]@);
            assert(0 <= k < (a + b).len());
            if k < a.len() {
                assert((a + b)[k] == a[k]);
            } else {
                assert((a + b)[k] == b[k - a.len()]);
            }
        }
    }
    Ok(keys)
}

/// What a key of a style object gives: a quoted key is a CSS name and is
/// tested as it stands, an identifier is first spelt as CSS.
pub open spec fn key_finding(
    file: Seq<char>,
    bytes: Seq<u8>,
    span_start: int,
    key: StyleKeyView,
    allow: Set<Seq<char>>,
) -> Seq<ViolationView> {
    if key.is_quoted {
        finding(
            file,
            bytes,
            span_start + key.offset,
            key.key,
            normalize_css(key.key),
            ViolationKind::InlineStyle,
            allow,
        )
    } else {
        finding(
            file,
            bytes,
            span_start + key.offset,
            js_key_to_css(key.key).0,
            js_key_to_css(key.key).1,
            ViolationKind::InlineStyle,
            allow,
        )
    }
}

/// The violations that the keys of one style object give, in the order of
/// the keys.
pub open spec fn span_findings(
    file: Seq<char>,
    bytes: Seq<u8>,
    span_start: int,
    keys: Seq<StyleKeyView>,
    allow: Set<Seq<char>>,
) -> Seq<ViolationView>
    decreases keys.len(),
{
    if keys.len() == 0 {
        Seq::empty()
    } else {
        span_findings(file, bytes, span_start, keys.drop_last(), allow) + key_finding(
            file,
            bytes,
            span_start,
            keys.last(),
            allow,
        )
    }
}

/// What a key of a style object gives, said out: nothing where its CSS
/// spelling is a custom property or is supported; else one violation of the
/// kind of inline styles, at the line and column of the key, that carries
/// the CSS spelling and its canonical form.
pub proof fn lemma_key_finding(
    file: Seq<char>,
    bytes: Seq<u8>,
    span_start: int,
    key: StyleKeyView,
    allow: Set<Seq<char>>,
)
    ensures
        ({
            let property = if key.is_quoted {
                key.key
            } else {
                js_key_to_css(key.key).0
            };
            let normalized = normalize_css(property);
            let found = key_finding(file, bytes, span_start, key, allow);
            if is_custom_property(property) || is_supported(property, normalized, allow) {
                found.len() == 0
            } else {
                &&& found.len() == 1
                &&& found[0].file == file
                &&& found[0].property == property
                &&& found[0].normalized == normalized
                &&& found[0].kind == ViolationKind::InlineStyle
                &&& found[0].line == clamp_usize(line_of(bytes, span_start + key.offset))
                &&& found[0].column == column_of(bytes, span_start + key.offset)
            }
        }),
{
}

/// Keys that give no violation leave the report of a style object as it
/// is: where one key alone of an object is unsupported, its violation is
/// the only one that is reported for the object.
pub proof fn lemma_only_unsupported_key_is_reported(
    file: Seq<char>,
    bytes: Seq<u8>,
    span_start: int,
    keys: Seq<StyleKeyView>,
    allow: Set<Seq<char>>,
    k: int,
)
    requires
        0 <= k < keys.len(),
        forall|j: int|
            0 <= j < keys.len() && j != k ==> (#[trigger] key_finding(
                file,
                bytes,
                span_start,
                keys[j],
                allow,
            )).len() == 0,
    ensures
        span_findings(file, bytes, span_start, keys, allow) == key_finding(
            file,
            bytes,
            span_start,
            keys[k],
            allow,
        ),
    decreases keys.len(),
{
    let head = keys.drop_last();
    let last = key_finding(file, bytes, span_start, keys.last(), allow);
    if k == keys.len() - 1 {
        lemma_no_unsupported_key(file, bytes, span_start, head, allow);
        assert(forall|j: int| 0 <= j < head.len() ==> head[j] == keys[j]);
        assert(Seq::<ViolationView>::empty() + last =~= last);
    } else {
        assert(forall|j: int| 0 <= j < head.len() ==> head[j] == keys[j]);
        lemma_only_unsupported_key_is_reported(file, bytes, span_start, head, allow, k);
        assert(last.len() == 0);
        let before = span_findings(file, bytes, span_start, head, allow);
        assert(before + last =~= before);
    }
}

/// A style object whose keys are all supported gives no violation.
pub proof fn lemma_no_unsupported_key(
    file: Seq<char>,
    bytes: Seq<u8>,
    span_start: int,
    keys: Seq<StyleKeyView>,
    allow: Set<Seq<char>>,
)
    requires
        forall|j: int|
            0 <= j < keys.len() ==> (#[trigger] key_finding(
                file,
                bytes,
                span_start,
                keys[j],
                allow,
            )).len() == 0,
    ensures
        span_findings(file, bytes, span_start, keys, allow).len() == 0,
    decreases keys.len(),
{
    if keys.len() > 0 {
        let head = keys.drop_last();
        assert(forall|j: int| 0 <= j < head.len() ==> head[j] == keys[j]);
        lemma_no_unsupported_key(file, bytes, span_start, head, allow);
        assert(key_finding(file, bytes, span_start, keys[keys.len() - 1], allow).len() == 0);
    }
}

/// Tests the keys of the style object whose content starts at byte offset
/// `span_start` of `text`, and adds the violations to `out`.
pub fn check_span_keys(
    file: &str,
    text: &str,
    span_start: usize,
    keys: &Vec<StyleKey>,
    supported: &AllowedPropertySet,
    out: &mut Vec<Violation>,
)
    requires
        forall|k: int| 0 <= k < keys.len() ==> span_start + (#[trigger] keys[k]).offset <= usize::MAX,
    ensures
        violation_views(final(out)@) == violation_views(old(out)@) + span_findings(
            file@,
            text.spec_bytes(),
            span_start as int,
            key_views(keys@),
            supported@,
        ),
{
    let ghost all = key_views(keys@);
    let ghost before = violation_views(out@);
    let ghost bytes = text.spec_bytes();
    let mut i: usize = 0;
    proof {
        assert(all.take(0) =~= Seq::<StyleKeyView>::empty());
        assert(before + span_findings(file@, bytes, span_start as int, all.take(0), supported@)
            =~= before);
    }
    while i < keys.len()
        invariant
            i <= keys.len(),
            all == key_views(keys@),
            bytes == text.spec_bytes(),
            before == violation_views(old(out)@),
            forall|k: int|
                0 <= k < keys.len() ==> span_start + (#[trigger] keys[k]).offset <= usize::MAX,
            violation_views(out@) == before + span_findings(
                file@,
                bytes,
                span_start as int,
                all.take(i as int),
                supported@,
            ),
        decreases keys.len() - i,
    {
        proof {
            assert(all.take(i + 1).drop_last() =~= all.take(i as int));
            assert(all.take(i + 1).last() == keys[i as int]@);
        }
        let key = &keys[i];
        let ghost so_far = violation_views(out@);
        let offset = span_start + key.offset;
        if key.is_quoted {
            let normalized = normalize_property(key.key.as_str());
            check_property(
                file,
                text,
                offset,
                key.key.clone(),
                normalized,
                ViolationKind::InlineStyle,
                supported,
                out,
            );
        } else {
            let (prop, normalized) = css_prop_from_js_key(key.key.as_str());
            check_property(
                file,
                text,
                offset,
                prop,
                normalized,
                ViolationKind::InlineStyle,
                supported,
                out,
            );
        }
        proof {
            let step = key_finding(file@, bytes, span_start as int, keys[i as int]@, supported@);
            assert(violation_views(out@) == so_far + step);
            assert(so_far + step =~= before + (span_findings(
                file@,
                bytes,
                span_start as int,
                all.take(i as int),
                supported@,
            ) + step));
        }
        i += 1;
    }
    proof {
        assert(all.take(keys.len() as int) =~= all);
    }
}

/// What one match of the class pattern gives: its first group is the
/// property, and the match starts where it is reported.
pub open spec fn arbitrary_finding(
    file: Seq<char>,
    bytes: Seq<u8>,
    m: MatchView,
    allow: Set<Seq<char>>,
) -> Seq<ViolationView> {
    match group_text(m, 1) {
        Some(property) => finding(
            file,
            bytes,
            match_start(m) as int,
            property,
            normalize_css(property),
            ViolationKind::TailwindArbitrary,
            allow,
        ),
        None => Seq::empty(),
    }
}

/// The violations that the matches of the class pattern give, in their
/// order.
pub open spec fn arbitrary_findings(
    file: Seq<char>,
    bytes: Seq<u8>,
    matches: Seq<MatchView>,
    allow: Set<Seq<char>>,
) -> Seq<ViolationView>
    decreases matches.len(),
{
    if matches.len() == 0 {
        Seq::empty()
    } else {
        arbitrary_findings(file, bytes, matches.drop_last(), allow) + arbitrary_finding(
            file,
            bytes,
            matches.last(),
            allow,
        )
    }
}

/// Tests the properties that Tailwind classes of the form `[property:value]`
/// set, given the matches of the class pattern in `text`, and adds the
/// violations to `out`.
pub fn check_arbitrary_properties(
    file: &str,
    text: &str,
    matches: &Vec<Captures>,
    supported: &AllowedPropertySet,
    out: &mut Vec<Violation>,
)
    ensures
        violation_views(final(out)@) == violation_views(old(out)@) + arbitrary_findings(
            file@,
            text.spec_bytes(),
            matches.deep_view(),
            supported@,
        ),
{
    let ghost all = matches.deep_view();
    let ghost before = violation_views(out@);
    let ghost bytes = text.spec_bytes();
    let mut i: usize = 0;
    proof {
        assert(all.take(0) =~= Seq::<MatchView>::empty());
        assert(before + arbitrary_findings(file@, bytes, all.take(0), supported@) =~= before);
    }
    while i < matches.len()
        invariant
            i <= matches.len(),
            all == matches.deep_view(),
            bytes == text.spec_bytes(),
            before == violation_views(old(out)@),
            violation_views(out@) == before + arbitrary_findings(
                file@,
                bytes,
                all.take(i as int),
                supported@,
            ),
        decreases matches.len() - i,
    {
        proof {
            assert(all.take(i + 1).drop_last() =~= all.take(i as int));
            assert(all.take(i + 1).last() == matches[i as int].deep_view());
        }
        let m = &matches[i];
        let ghost so_far = violation_views(out@);
        if let Some(property) = group(m, 1) {
            let normalized = normalize_property(property);
            check_property(
                file,
                text,
                start_of(m),
                property.to_owned(),
                normalized,
                ViolationKind::TailwindArbitrary,
                supported,
                out,
            );
        }
        proof {
            let step = arbitrary_finding(file@, bytes, matches[i as int].deep_view(), supported@);
            assert(violation_views(out@) =~= so_far + step);
            assert(so_far + step =~= before + (arbitrary_findings(
                file@,
                bytes,
                all.take(i as int),
                supported@,
            ) + step));
        }
        i += 1;
    }
    proof {
        assert(all.take(matches.len() as int) =~= all);
    }
}

/// The violations in the style objects whose content the spans give, span
/// by span; the error where a key pattern is refused.
pub open spec fn inline_findings(
    file: Seq<char>,
    bytes: Seq<u8>,
    spans: Seq<(int, int)>,
    allow: Set<Seq<char>>,
) -> Result<Seq<ViolationView>, ConfigError>
    decreases spans.len(),
{
    if spans.len() == 0 {
        Ok(Seq::empty())
    } else {
        match inline_findings(file, bytes, spans.drop_last(), allow) {
            Err(e) => Err(e),
            Ok(done) => match style_keys(text_between(bytes, spans.last().0, spans.last().1)) {
                Err(e) => Err(e),
                Ok(keys) => Ok(done + span_findings(file, bytes, spans.last().0, keys, allow)),
            },
        }
    }
}

/// Where the style objects of the first spans give an error, those of all
/// spans give it.
pub proof fn lemma_inline_findings_prefix_error(
    file: Seq<char>,
    bytes: Seq<u8>,
    spans: Seq<(int, int)>,
    n: int,
    allow: Set<Seq<char>>,
)
    requires
        0 <= n <= spans.len(),
        inline_findings(file, bytes, spans.take(n), allow) is Err,
    ensures
        inline_findings(file, bytes, spans, allow) == inline_findings(
            file,
            bytes,
            spans.take(n),
            allow,
        ),
    decreases spans.len() - n,
{
    if n < spans.len() {
        assert(spans.take(n + 1).drop_last() =~= spans.take(n));
        lemma_inline_findings_prefix_error(file, bytes, spans, n + 1, allow);
    } else {
        assert(spans.take(n) =~= spans);
    }
}

/// The violations of one script source: first those of its Tailwind
/// classes, in the order of the classes, then those of its style objects,
/// object by object.
pub open spec fn source_findings(file: Seq<char>, text: Seq<char>, allow: Set<Seq<char>>) -> Result<
    Seq<ViolationView>,
    ConfigError,
> {
    let bytes = encode_utf8(text);
    match regex_captures(ARBITRARY_PROPERTY@, text) {
        None => Err(ConfigError::InvalidPattern),
        Some(classes) => match inline_findings(file, bytes, style_spans(bytes, 0), allow) {
            Err(e) => Err(e),
            Ok(inline) => Ok(arbitrary_findings(file, bytes, classes, allow) + inline),
        },
    }
}

/// Checks one script source against the list of supported properties.
pub fn source_file_violations(file: &str, text: &str, supported: &AllowedPropertySet) -> (res:
    Result<Vec<Violation>, ConfigError>)
    ensures
        match res {
            Ok(found) => source_findings(file@, text@, supported@) == Ok::<
                Seq<ViolationView>,
                ConfigError,
            >(violation_views(found@)),
            Err(e) => source_findings(file@, text@, supported@) == Err::<
                Seq<ViolationView>,
                ConfigError,
            >(e),
        },
{
    let ghost bytes = text.spec_bytes();
    let mut out: Vec<Violation> = Vec::new();
    let classes = match captures_of(ARBITRARY_PROPERTY, text) {
        Some(m) => m,
        None => {
            return Err(ConfigError::InvalidPattern);
        },
    };
    proof {
        assert(violation_views(out@) =~= Seq::<ViolationView>::empty());
    }
    check_arbitrary_properties(file, text, &classes, supported, &mut out);
    let ghost head = arbitrary_findings(file@, bytes, classes.deep_view(), supported@);
    proof {
        assert(violation_views(out@) =~= head);
        encode_utf8_valid_utf8(text@);
    }
    let spans = find_style_object_spans(text);
    let ghost all = span_offsets(spans@);
    let mut i: usize = 0;
    proof {
        assert(all.take(0) =~= Seq::<(int, int)>::empty());
        assert(head + Seq::<ViolationView>::empty() =~= head);
    }
    while i < spans.len()
        invariant
            i <= spans.len(),
            bytes == text.spec_bytes(),
            valid_utf8(bytes),
            all == span_offsets(spans@),
            all == style_spans(bytes, 0),
            spans_delimited(all, bytes),
            match inline_findings(file@, bytes, all.take(i as int), supported@) {
                Ok(done) => violation_views(out@) == head + done,
                Err(_) => false,
            },
        decreases spans.len() - i,
    {
        let (start, end) = spans[i];
        proof {
            assert(all[i as int] == (start as int, end as int));
            assert(all.take(i + 1).drop_last() =~= all.take(i as int));
            assert(all.take(i + 1).last() == all[i as int]);
            lemma_boundary_after_ascii(bytes, start - 1);
            lemma_boundary_at_ascii(bytes, end as int);
        }
        let part = slice_str(text, start, end);
        match extract_keys(part) {
            Err(e) => {
                proof {
                    assert(inline_findings(file@, bytes, all.take(i + 1), supported@) == Err::<
                        Seq<ViolationView>,
                        ConfigError,
                    >(e));
                    lemma_inline_findings_prefix_error(file@, bytes, all, i + 1, supported@);
                }
                return Err(e);
            },
            Ok(keys) => {
                let ghost so_far = violation_views(out@);
                let ghost done = inline_findings(file@, bytes, all.take(i as int), supported@)->Ok_0;
                check_span_keys(file, text, start, &keys, supported, &mut out);
                proof {
                    let step = span_findings(
                        file@,
                        bytes,
                        start as int,
                        key_views(keys@),
                        supported@,
                    );
                    assert(so_far + step =~= head + (done + step));
                }
            },
        }
        i += 1;
    }
    proof {
        assert(all.take(spans.len() as int) =~= all);
    }
    Ok(out)
}

/// A file as a check reads it.
#[derive(Debug)]
pub struct SourceFile {
    /// The path relative to the front end's root, with `/` between its
    /// parts.
    pub path: String,
    /// The content.
    pub text: String,
}

/// The violations of the script sources, file by file in the order given.
pub open spec fn sources_findings(files: Seq<SourceFile>, allow: Set<Seq<char>>) -> Result<
    Seq<ViolationView>,
    ConfigError,
>
    decreases files.len(),
{
    if files.len() == 0 {
        Ok(Seq::empty())
    } else {
        match sources_findings(files.drop_last(), allow) {
            Err(e) => Err(e),
            Ok(done) => match source_findings(files.last().path@, files.last().text@, allow) {
                Err(e) => Err(e),
                Ok(found) => Ok(done + found),
            },
        }
    }
}

/// Where the first files give an error, all files give it.
pub proof fn lemma_sources_findings_prefix_error(
    files: Seq<SourceFile>,
    n: int,
    allow: Set<Seq<char>>,
)
    requires
        0 <= n <= files.len(),
        sources_findings(files.take(n), allow) is Err,
    ensures
        sources_findings(files, allow) == sources_findings(files.take(n), allow),
    decreases files.len() - n,
{
    if n < files.len() {
        assert(files.take(n + 1).drop_last() =~= files.take(n));
        lemma_sources_findings_prefix_error(files, n + 1, allow);
    } else {
        assert(files.take(n) =~= files);
    }
}

/// Checks script sources against the list of supported properties: the
/// properties that Tailwind classes of the form `[property:value]` set, and
/// the keys of inline style objects. The violations come file by file in
/// the order of `files`, and in a file in the order in which they are found.
pub fn check_css_properties_in_source(files: &Vec<SourceFile>, supported: &AllowedPropertySet) -> (res:
    Result<Vec<Violation>, ConfigError>)
    ensures
        match res {
            Ok(found) => sources_findings(files@, supported@) == Ok::<
                Seq<ViolationView>,
                ConfigError,
            >(violation_views(found@)),
            Err(e) => sources_findings(files@, supported@) == Err::<
                Seq<ViolationView>,
                ConfigError,
            >(e),
        },
{
    let mut out: Vec<Violation> = Vec::new();
    let mut i: usize = 0;
    proof {
        assert(files@.take(0) =~= Seq::<SourceFile>::empty());
        assert(violation_views(out@) =~= Seq::<ViolationView>::empty());
    }
    while i < files.len()
        invariant
            i <= files.len(),
            sources_findings(files@.take(i as int), supported@) == Ok::<
                Seq<ViolationView>,
                ConfigError,
            >(violation_views(out@)),
        decreases files.len() - i,
    {
        proof {
            assert(files@.take(i + 1).drop_last() =~= files@.take(i as int));
            assert(files@.take(i + 1).last() == files@[i as int]);
        }
        match source_file_violations(files[i].path.as_str(), files[i].text.as_str(), supported) {
            Err(e) => {
                proof {
                    lemma_sources_findings_prefix_error(files@, i + 1, supported@);
                }
                return Err(e);
            },
            Ok(mut found) => {
                let ghost so_far = violation_views(out@);
                let ghost added = violation_views(found@);
                out.append(&mut found);
                proof {
                    assert(violation_views(out@) =~= so_far + added);
                }
            },
        }
        i += 1;
    }
    proof {
        assert(files@.take(files.len() as int) =~= files@);
    }
    Ok(out)
}

} // verus!
