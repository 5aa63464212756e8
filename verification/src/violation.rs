//! What a check reports: the use of a property that the list of supported
//! properties does not cover.
use vstd::prelude::*;
use vstd::string::*;
use crate::allowlist::{is_supported, is_supported_css_property, AllowedPropertySet};
use crate::normalize::is_custom_property;
use crate::position::{clamp_usize, column_of, line_col_from_index, line_of};
use crate::strings::{chars_of, has_prefix};

verus! {

/// Where a violation was found.
#[derive(Clone, Copy, Debug, PartialEq, Eq, Structural)]
pub enum ViolationKind {
    /// In a Tailwind class of the form `[property:value]`.
    TailwindArbitrary,
    /// In an inline style object.
    InlineStyle,
    /// In a built stylesheet.
    DistCss,
}

/// One use of an unsupported property.
#[derive(Debug)]
pub struct Violation {
    /// The file, relative to the front end's root, with `/` between its
    /// parts.
    pub file: String,
    /// The line, from 1.
    pub line: usize,
    /// The column in bytes, from 1.
    pub column: usize,
    /// The property as it was written, or as the key of a style object
    /// spells it in CSS.
    pub property: String,
    /// The canonical form of the property.
    pub normalized: String,
    pub kind: ViolationKind,
}

/// `Violation`, with its strings as characters.
pub struct ViolationView {
    pub file: Seq<char>,
    pub line: int,
    pub column: int,
    pub property: Seq<char>,
    pub normalized: Seq<char>,
    pub kind: ViolationKind,
}

impl View for Violation {
    type V = ViolationView;

    open spec fn view(&self) -> ViolationView {
        ViolationView {
            file: self.file@,
            line: self.line as int,
            column: self.column as int,
            property: self.property@,
            normalized: self.normalized@,
            kind: self.kind,
        }
    }
}

/// The violations of a list, each with its strings as characters.
pub open spec fn violation_views(violations: Seq<Violation>) -> Seq<ViolationView> {
    violations.map_values(|v: Violation| v@)
}

/// What the use of a property at byte offset `offset` of a file gives: no
/// violation where the property is a custom property or is supported, else
/// one at the line and column of the offset.
pub open spec fn finding(
    file: Seq<char>,
    bytes: Seq<u8>,
    offset: int,
    property: Seq<char>,
    normalized: Seq<char>,
    kind: ViolationKind,
    allow: Set<Seq<char>>,
) -> Seq<ViolationView> {
    if is_custom_property(property) || is_supported(property, normalized, allow) {
        Seq::empty()
    } else {
        seq![
            ViolationView {
                file,
                line: clamp_usize(line_of(bytes, offset)) as int,
                column: column_of(bytes, offset),
                property,
                normalized,
                kind,
            },
        ]
    }
}

/// A use of a custom property is never a violation, whatever the list holds.
pub proof fn lemma_custom_property_exempt(
    file: Seq<char>,
    bytes: Seq<u8>,
    offset: int,
    property: Seq<char>,
    normalized: Seq<char>,
    kind: ViolationKind,
    allow: Set<Seq<char>>,
)
    requires
        is_custom_property(property),
    ensures
        finding(file, bytes, offset, property, normalized, kind, allow).len() == 0,
{
}

/// Tests one use of a property and adds the violation that it gives, if
/// any, to `out`.
pub fn check_property(
    file: &str,
    text: &str,
    offset: usize,
    property: String,
    normalized: String,
    kind: ViolationKind,
    supported: &AllowedPropertySet,
    out: &mut Vec<Violation>,
)
    ensures
        violation_views(final(out)@) == violation_views(old(out)@) + finding(
            file@,
            text.spec_bytes(),
            offset as int,
            property@,
            normalized@,
            kind,
            supported@,
        ),
{
    let ghost before = violation_views(out@);
    let chars = chars_of(property.as_str());
    if has_prefix(&chars, "--") || is_supported_css_property(
        supported,
        property.as_str(),
        normalized.as_str(),
    ) {
        proof {
            assert(before + Seq::<ViolationView>::empty() =~= before);
        }
        return ;
    }
    let (line, column) = line_col_from_index(text, offset);
    let v = Violation { file: file.to_owned(), line, column, property, normalized, kind };
    proof {
        assert(before + seq![v@] =~= before.push(v@));
    }
    out.push(v);
    proof {
        assert(violation_views(out@) =~= before.push(v@));
    }
}

} // verus!
