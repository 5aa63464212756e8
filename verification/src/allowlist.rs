//! The list of supported CSS properties, and the test of a property against
//! it.
use vstd::prelude::*;
use vstd::string::*;
use crate::pattern::{captures_of, group, group_text, regex_captures, Captures};
use crate::property_set::PropertySet;
use crate::strings::lemma_push_to_set;

verus! {

/// A fault in the setup of a check, as opposed to a finding of it.
#[derive(Clone, Copy, Debug, PartialEq, Eq, Structural)]
pub enum ConfigError {
    /// The list of supported properties is not there.
    MissingAllowlist,
    /// The list of supported properties names no property.
    EmptyAllowlist,
    /// A pattern of this crate is not a regular expression.
    InvalidPattern,
}

/// One entry of the list of supported properties: a line that holds
/// `name: "..."` or `name: '...'`, with an optional comma behind it.
pub const ALLOWLIST_ENTRY: &'static str =
    "(?m)^\\s*name:\\s*(?:\"([^\"]+)\"|'([^']+)')\\s*,?\\s*$";

/// The supported properties. Never empty: a check against an empty list
/// would report every property, or, read the wrong way round, none.
pub struct AllowedPropertySet {
    names: PropertySet,
}

impl View for AllowedPropertySet {
    type V = Set<Seq<char>>;

    closed spec fn view(&self) -> Set<Seq<char>> {
        self.names@
    }
}

/// Whether the list `allow` supports a property that is written `raw` and
/// has the canonical form `normalized`: the list holds one of the two, or
/// the canonical form behind one of the four vendor prefixes.
pub open spec fn is_supported(raw: Seq<char>, normalized: Seq<char>, allow: Set<Seq<char>>) -> bool {
    allow.contains(raw) || allow.contains(normalized) || allow.contains("-webkit-"@ + normalized)
        || allow.contains("-moz-"@ + normalized) || allow.contains("-ms-"@ + normalized)
        || allow.contains("-o-"@ + normalized)
}

/// The set of the names of a list.
pub open spec fn name_set(names: Seq<String>) -> Set<Seq<char>> {
    names.map_values(|s: String| s@).to_set()
}

impl AllowedPropertySet {
    /// The list holds at least one name. This holds of every list.
    #[verifier::type_invariant]
    pub closed spec fn wf(&self) -> bool {
        self.names.wf() && self.names.names().len() > 0
    }

    /// A list is never empty.
    pub proof fn lemma_never_empty(&self)
        requires
            self.wf(),
        ensures
            self@ != Set::<Seq<char>>::empty(),
    {
        assert(self.names.names().to_set().contains(self.names.names()[0]));
    }

    /// The list of the given names; an error where there is none.
    pub fn from_names(names: Vec<String>) -> (res: Result<AllowedPropertySet, ConfigError>)
        ensures
            match res {
                Ok(list) => list.wf() && list@ == name_set(names@) && names.len() > 0,
                Err(e) => e == ConfigError::EmptyAllowlist && names.len() == 0,
            },
    {
        let mut set = PropertySet::new();
        let mut i: usize = 0;
        let ghost all = names@.map_values(|s: String| s@);
        proof {
            assert(all.take(0).to_set() =~= Set::<Seq<char>>::empty());
        }
        while i < names.len()
            invariant
                i <= names.len(),
                all == names@.map_values(|s: String| s@),
                set.wf(),
                set@ == all.take(i as int).to_set(),
                i > 0 ==> set.names().len() > 0,
            decreases names.len() - i,
        {
            let ghost before = set@;
            set.insert(names[i].clone());
            proof {
                assert(all.take(i + 1) =~= all.take(i as int).push(all[i as int]));
                lemma_push_to_set(all.take(i as int), all[i as int]);
                assert(set@.contains(all[i as int]));
                if set.names().len() == 0 {
                    assert(set.names().to_set() =~= Set::<Seq<char>>::empty());
                }
            }
            i += 1;
        }
        proof {
            assert(all.take(names.len() as int) =~= all);
            if set.names().len() > 0 {
                assert(set.names().to_set().contains(set.names()[0]));
                if names.len() == 0 {
                    assert(all.to_set() =~= Set::<Seq<char>>::empty());
                }
            }
        }
        if set.is_empty() {
            Err(ConfigError::EmptyAllowlist)
        } else {
            Ok(AllowedPropertySet { names: set })
        }
    }

    /// Whether the list names `name`.
    pub fn contains(&self, name: &str) -> (r: bool)
        ensures
            r == self@.contains(name@),
            self.wf(),
    {
        proof {
            use_type_invariant(self);
        }
        self.names.contains(name)
    }

    /// How many names the list holds: at least one.
    pub fn len(&self) -> (n: usize)
        ensures
            n == self@.len(),
            n > 0,
            self.wf(),
    {
        proof {
            use_type_invariant(self);
        }
        self.names.len()
    }
}

fn contains_prefixed(supported: &AllowedPropertySet, prefix: &str, normalized: &str) -> (r: bool)
    ensures
        r == supported@.contains(prefix@ + normalized@),
{
    let mut candidate = prefix.to_owned();
    candidate.append(normalized);
    supported.contains(candidate.as_str())
}

/// Whether the list supports a property, given as it was written and in its
/// canonical form.
pub fn is_supported_css_property(supported: &AllowedPropertySet, prop: &str, normalized: &str) -> (r:
    bool)
    ensures
        r == is_supported(prop@, normalized@, supported@),
{
    supported.contains(prop) || supported.contains(normalized) || contains_prefixed(
        supported,
        "-webkit-",
        normalized,
    ) || contains_prefixed(supported, "-moz-", normalized) || contains_prefixed(
        supported,
        "-ms-",
        normalized,
    ) || contains_prefixed(supported, "-o-", normalized)
}

/// A list that holds more supports all that a list that holds less does.
pub proof fn lemma_support_grows_with_list(
    raw: Seq<char>,
    normalized: Seq<char>,
    small: Set<Seq<char>>,
    large: Set<Seq<char>>,
)
    requires
        small.subset_of(large),
        is_supported(raw, normalized, small),
    ensures
        is_supported(raw, normalized, large),
{
}

/// A property is supported only through an entry that spells it, its
/// canonical form, or that form behind a vendor prefix: a list that holds
/// one name supports exactly the properties of which that name is one of
/// these six spellings.
pub proof fn lemma_support_by_one_entry(raw: Seq<char>, normalized: Seq<char>, entry: Seq<char>)
    ensures
        is_supported(raw, normalized, set![entry]) <==> (entry == raw || entry == normalized
            || entry == "-webkit-"@ + normalized || entry == "-moz-"@ + normalized || entry
            == "-ms-"@ + normalized || entry == "-o-"@ + normalized),
{
}

/// The name that an entry of the list gives: what stands between the double
/// quotes, or else between the single quotes.
pub open spec fn entry_name(m: Seq<Option<(usize, Seq<char>)>>) -> Option<Seq<char>> {
    match group_text(m, 1) {
        Some(name) => Some(name),
        None => group_text(m, 2),
    }
}

/// The names that the entries give, in the order of the entries.
pub open spec fn entry_names(matches: Seq<Seq<Option<(usize, Seq<char>)>>>) -> Seq<Seq<char>>
    decreases matches.len(),
{
    if matches.len() == 0 {
        Seq::empty()
    } else {
        let before = entry_names(matches.drop_last());
        match entry_name(matches.last()) {
            Some(name) => before.push(name),
            None => before,
        }
    }
}

/// The list that the entries make, or the error that none of them gives a
/// name.
pub open spec fn allowlist_of(matches: Seq<Seq<Option<(usize, Seq<char>)>>>) -> Result<
    Set<Seq<char>>,
    ConfigError,
> {
    if entry_names(matches).len() == 0 {
        Err(ConfigError::EmptyAllowlist)
    } else {
        Ok(entry_names(matches).to_set())
    }
}

/// The list of supported properties that a text holds.
pub open spec fn supported_properties(text: Seq<char>) -> Result<Set<Seq<char>>, ConfigError> {
    match regex_captures(ALLOWLIST_ENTRY@, text) {
        None => Err(ConfigError::InvalidPattern),
        Some(matches) => allowlist_of(matches),
    }
}

/// Makes the list of supported properties from the entries that were found
/// in its text. No entry at all is an error.
pub fn allowlist_from_captures(matches: &Vec<Captures>) -> (res: Result<
    AllowedPropertySet,
    ConfigError,
>)
    ensures
        match res {
            Ok(list) => list.wf() && allowlist_of(matches.deep_view()) == Ok::<
                Set<Seq<char>>,
                ConfigError,
            >(list@),
            Err(e) => allowlist_of(matches.deep_view()) == Err::<Set<Seq<char>>, ConfigError>(e),
        },
{
    let mut names: Vec<String> = Vec::new();
    let mut i: usize = 0;
    let ghost all = matches.deep_view();
    proof {
        assert(all.take(0) =~= Seq::<Seq<Option<(usize, Seq<char>)>>>::empty());
        assert(names@.map_values(|s: String| s@) =~= Seq::<Seq<char>>::empty());
    }
    while i < matches.len()
        invariant
            i <= matches.len(),
            all == matches.deep_view(),
            names@.map_values(|s: String| s@) == entry_names(all.take(i as int)),
        decreases matches.len() - i,
    {
        proof {
            assert(all.take(i + 1).drop_last() =~= all.take(i as int));
            assert(all.take(i + 1).last() == matches[i as int].deep_view());
        }
        let ghost before = names@.map_values(|s: String| s@);
        let m = &matches[i];
        let found = match group(m, 1) {
            Some(name) => Some(name),
            None => group(m, 2),
        };
        if let Some(name) = found {
            names.push(name.to_owned());
            proof {
                assert(names@.map_values(|s: String| s@) =~= before.push(name@));
            }
        }
        i += 1;
    }
    proof {
        assert(all.take(matches.len() as int) =~= all);
    }
    AllowedPropertySet::from_names(names)
}

/// Reads the list of supported properties from its text: every line that
/// holds `name: "..."` or `name: '...'` names one. A text that names no
/// property is an error, never an empty list.
pub fn load_supported_properties(raw: &str) -> (res: Result<AllowedPropertySet, ConfigError>)
    ensures
        match res {
            Ok(list) => list.wf() && supported_properties(raw@) == Ok::<
                Set<Seq<char>>,
                ConfigError,
            >(list@),
            Err(e) => supported_properties(raw@) == Err::<Set<Seq<char>>, ConfigError>(e),
        },
{
    match captures_of(ALLOWLIST_ENTRY, raw) {
        None => Err(ConfigError::InvalidPattern),
        Some(matches) => allowlist_from_captures(&matches),
    }
}

} // verus!
