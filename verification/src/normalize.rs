//! Canonical spelling of CSS property names.
//!
//! A property written with a vendor prefix (`-webkit-filter`) and one written
//! as a camelCase key of a style object (`WebkitFilter`) both name the
//! property `filter`. This module maps each spelling to the form that is
//! looked up in the allowlist.
use vstd::prelude::*;
use crate::strings::{chars_of, has_prefix, string_of};

verus! {

/// A custom property (`--name`) is never normalized and never checked.
pub open spec fn is_custom_property(p: Seq<char>) -> bool {
    "--"@.is_prefix_of(p)
}

/// The canonical form of a CSS property name: a custom property stays as it
/// is; otherwise the first of `-webkit-`, `-moz-`, `-ms-`, `-o-` that the
/// name begins with is removed, once.
pub open spec fn normalize_css(p: Seq<char>) -> Seq<char> {
    if is_custom_property(p) {
        p
    } else if "-webkit-"@.is_prefix_of(p) {
        p.skip("-webkit-"@.len() as int)
    } else if "-moz-"@.is_prefix_of(p) {
        p.skip("-moz-"@.len() as int)
    } else if "-ms-"@.is_prefix_of(p) {
        p.skip("-ms-"@.len() as int)
    } else if "-o-"@.is_prefix_of(p) {
        p.skip("-o-"@.len() as int)
    } else {
        p
    }
}

/// Whether `p` begins with one of the four vendor prefixes.
pub open spec fn has_vendor_prefix(p: Seq<char>) -> bool {
    "-webkit-"@.is_prefix_of(p) || "-moz-"@.is_prefix_of(p) || "-ms-"@.is_prefix_of(p)
        || "-o-"@.is_prefix_of(p)
}

/// An ASCII uppercase letter.
pub open spec fn is_ascii_upper(c: char) -> bool {
    'A' <= c && c <= 'Z'
}

/// The lowercase form of an ASCII uppercase letter; any other character is
/// returned as it is.
pub open spec fn ascii_lower(c: char) -> char {
    if is_ascii_upper(c) {
        ((c as u8) + 32) as char
    } else {
        c
    }
}

/// What one character of a camelCase word becomes in kebab-case: an
/// uppercase letter turns into `-` and its lowercase form (without the `-`
/// at the start of the word), anything else stays.
pub open spec fn kebab_piece(c: char, first: bool) -> Seq<char> {
    if is_ascii_upper(c) {
        if first {
            seq![ascii_lower(c)]
        } else {
            seq!['-', ascii_lower(c)]
        }
    } else {
        seq![c]
    }
}

/// The kebab-case form of a camelCase word.
pub open spec fn kebab_case(s: Seq<char>) -> Seq<char>
    decreases s.len(),
{
    if s.len() == 0 {
        Seq::empty()
    } else {
        kebab_case(s.drop_last()) + kebab_piece(s.last(), s.len() == 1)
    }
}

/// The CSS spelling of a style-object key: `Webkit`, `Moz`, `ms` (when more
/// follows) and `O` at the start stand for the vendor prefixes; the rest is
/// turned from camelCase into kebab-case.
pub open spec fn js_key_css_name(key: Seq<char>) -> Seq<char> {
    if "Webkit"@.is_prefix_of(key) {
        "-webkit-"@ + kebab_case(key.skip("Webkit"@.len() as int))
    } else if "Moz"@.is_prefix_of(key) {
        "-moz-"@ + kebab_case(key.skip("Moz"@.len() as int))
    } else if "ms"@.is_prefix_of(key) && key.len() > 2 {
        "-ms-"@ + kebab_case(key.skip("ms"@.len() as int))
    } else if "O"@.is_prefix_of(key) {
        "-o-"@ + kebab_case(key.skip("O"@.len() as int))
    } else {
        kebab_case(key)
    }
}

/// The CSS spelling of a style-object key and its canonical form.
pub open spec fn js_key_to_css(key: Seq<char>) -> (Seq<char>, Seq<char>) {
    (js_key_css_name(key), normalize_css(js_key_css_name(key)))
}

fn strip_prefix_chars(chars: &Vec<char>, prefix: &str) -> (r: Option<String>)
    ensures
        match r {
            Some(rest) => prefix@.is_prefix_of(chars@) && rest@ == chars@.skip(
                prefix@.len() as int,
            ),
            None => !prefix@.is_prefix_of(chars@),
        },
{
    if has_prefix(chars, prefix) {
        let n = prefix.unicode_len();
        Some(string_of(chars, n))
    } else {
        None
    }
}

/// Strips a vendor prefix from a CSS property name.
pub fn normalize_property(prop: &str) -> (res: String)
    ensures
        res@ == normalize_css(prop@),
{
    let chars = chars_of(prop);
    if has_prefix(&chars, "--") {
        return string_of(&chars, 0);
    }
    if let Some(rest) = strip_prefix_chars(&chars, "-webkit-") {
        return rest;
    }
    if let Some(rest) = strip_prefix_chars(&chars, "-moz-") {
        return rest;
    }
    if let Some(rest) = strip_prefix_chars(&chars, "-ms-") {
        return rest;
    }
    if let Some(rest) = strip_prefix_chars(&chars, "-o-") {
        return rest;
    }
    string_of(&chars, 0)
}

fn lower_char(c: char) -> (r: char)
    ensures
        r == ascii_lower(c),
{
    if c >= 'A' && c <= 'Z' {
        let b: u8 = c as u8;
        (b + 32) as char
    } else {
        c
    }
}

fn kebab_into(chars: &Vec<char>, from: usize, out: &mut String)
    requires
        from <= chars.len(),
    ensures
        final(out)@ == old(out)@ + kebab_case(chars@.skip(from as int)),
{
    let ghost word = chars@.skip(from as int);
    let mut i: usize = from;
    proof {
        assert(word.take(0) =~= Seq::<char>::empty());
    }
    while i < chars.len()
        invariant
            from <= i <= chars.len(),
            word == chars@.skip(from as int),
            out@ == old(out)@ + kebab_case(word.take(i - from)),
        decreases chars.len() - i,
    {
        let c = chars[i];
        proof {
            let next = word.take(i - from + 1);
            assert(next.drop_last() =~= word.take(i - from));
            assert(next.last() == c);
        }
        if c >= 'A' && c <= 'Z' {
            if i != from {
                out.push('-');
            }
            out.push(lower_char(c));
        } else {
            out.push(c);
        }
        assert(out@ =~= old(out)@ + kebab_case(word.take(i - from + 1)));
        i += 1;
    }
    assert(word.take(word.len() as int) =~= word);
}

/// Turns a camelCase word into kebab-case.
pub fn camel_to_kebab(s: &str) -> (res: String)
    ensures
        res@ == kebab_case(s@),
{
    let chars = chars_of(s);
    let mut out = String::new();
    kebab_into(&chars, 0, &mut out);
    assert(chars@.skip(0) =~= chars@);
    out
}

fn prefixed_kebab(prefix: &str, chars: &Vec<char>, from: usize) -> (res: String)
    requires
        from <= chars.len(),
    ensures
        res@ == prefix@ + kebab_case(chars@.skip(from as int)),
{
    let mut out = prefix.to_owned();
    kebab_into(chars, from, &mut out);
    out
}

/// Maps a key of a style object to its CSS property name and the canonical
/// form of that name.
pub fn css_prop_from_js_key(key: &str) -> (res: (String, String))
    ensures
        res.0@ == js_key_to_css(key@).0,
        res.1@ == js_key_to_css(key@).1,
{
    let chars = chars_of(key);
    let prop = if has_prefix(&chars, "Webkit") {
        prefixed_kebab("-webkit-", &chars, "Webkit".unicode_len())
    } else if has_prefix(&chars, "Moz") {
        prefixed_kebab("-moz-", &chars, "Moz".unicode_len())
    } else if has_prefix(&chars, "ms") && chars.len() > 2 {
        prefixed_kebab("-ms-", &chars, "ms".unicode_len())
    } else if has_prefix(&chars, "O") {
        prefixed_kebab("-o-", &chars, "O".unicode_len())
    } else {
        prefixed_kebab("", &chars, 0)
    };
    proof {
        reveal_strlit("");
        assert(""@ + kebab_case(chars@.skip(0)) =~= kebab_case(chars@)) by {
            assert(chars@.skip(0) =~= chars@);
        }
    }
    let normalized = normalize_property(prop.as_str());
    (prop, normalized)
}

/// Whether the canonical form of `p` still begins with a vendor prefix, as
/// that of `-webkit--moz-appearance` does: only one prefix is ever removed.
pub open spec fn has_stacked_prefix(p: Seq<char>) -> bool {
    !is_custom_property(normalize_css(p)) && has_vendor_prefix(normalize_css(p))
}

/// A custom property is its own canonical form.
pub proof fn lemma_custom_property_unchanged(p: Seq<char>)
    requires
        is_custom_property(p),
    ensures
        normalize_css(p) == p,
{
}

/// Normalizing a canonical form again changes nothing, unless the name
/// carried two vendor prefixes one after the other; then, and only then, the
/// second pass removes the second prefix.
pub proof fn lemma_normalize_twice(p: Seq<char>)
    ensures
        normalize_css(normalize_css(p)) == normalize_css(p) <==> !has_stacked_prefix(p),
{
    reveal_strlit("-webkit-");
    reveal_strlit("-moz-");
    reveal_strlit("-ms-");
    reveal_strlit("-o-");
    let n = normalize_css(p);
    if has_stacked_prefix(p) {
        assert(normalize_css(n).len() < n.len());
    }
}

/// Normalization is idempotent on every name that does not carry two vendor
/// prefixes one after the other.
pub proof fn lemma_normalize_idempotent(p: Seq<char>)
    requires
        !has_stacked_prefix(p),
    ensures
        normalize_css(normalize_css(p)) == normalize_css(p),
{
    lemma_normalize_twice(p);
}

/// The canonical form of a style-object key is the canonical form of its CSS
/// spelling.
pub proof fn lemma_js_key_normalized(key: Seq<char>)
    ensures
        js_key_to_css(key).1 == normalize_css(js_key_to_css(key).0),
{
}

} // verus!
