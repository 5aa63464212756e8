//! The entries of a Java properties file.
use vstd::prelude::*;
use vstd::string::*;
use crate::strings::str_equal;

verus! {

/// The key under which `gradle-wrapper.properties` names the Gradle
/// distribution to download.
pub open spec fn distribution_url_key() -> Seq<char> {
    "distributionUrl"@
}

/// The map that a list of entries stands for: where a key stands twice, the
/// later entry counts.
pub open spec fn entries_map(entries: Seq<(Seq<char>, Seq<char>)>) -> Map<Seq<char>, Seq<char>>
    decreases entries.len(),
{
    if entries.len() == 0 {
        Map::empty()
    } else {
        entries_map(entries.drop_last()).insert(entries.last().0, entries.last().1)
    }
}

/// Keys and values of a properties file. An entry that is added replaces
/// any earlier entry with its key.
pub struct Properties {
    pub entries: Vec<(String, String)>,
}

impl View for Properties {
    type V = Map<Seq<char>, Seq<char>>;

    open spec fn view(&self) -> Map<Seq<char>, Seq<char>> {
        entries_map(self.entries@.map_values(|e: (String, String)| (e.0@, e.1@)))
    }
}

impl Properties {
    /// No entries.
    pub fn new() -> (p: Properties)
        ensures
            p@ == Map::<Seq<char>, Seq<char>>::empty(),
    {
        let p = Properties { entries: Vec::new() };
        assert(p.entries@.map_values(|e: (String, String)| (e.0@, e.1@)).len() == 0);
        p
    }

    /// Sets `key` to `value`.
    pub fn insert(&mut self, key: String, value: String)
        ensures
            final(self)@ == old(self)@.insert(key@, value@),
    {
        let ghost before = self.entries@.map_values(|e: (String, String)| (e.0@, e.1@));
        self.entries.push((key, value));
        proof {
            let after = self.entries@.map_values(|e: (String, String)| (e.0@, e.1@));
            assert(after.drop_last() =~= before);
            assert(after.last() == (key@, value@));
        }
    }

    /// The value of `key`.
    pub fn get(&self, key: &str) -> (r: Option<&str>)
        ensures
            match r {
                Some(v) => self@.contains_key(key@) && self@[key@] == v@,
                None => !self@.contains_key(key@),
            },
    {
        let ghost all = self.entries@.map_values(|e: (String, String)| (e.0@, e.1@));
        let mut i: usize = self.entries.len();
        proof {
            assert(all.take(i as int) =~= all);
        }
        while i > 0
            invariant
                i <= self.entries.len(),
                all == self.entries@.map_values(|e: (String, String)| (e.0@, e.1@)),
                entries_map(all).contains_key(key@) == entries_map(all.take(i as int)).contains_key(
                    key@,
                ),
                entries_map(all).contains_key(key@) ==> entries_map(all)[key@] == entries_map(
                    all.take(i as int),
                )[key@],
            decreases i,
        {
            proof {
                assert(all.take(i as int).drop_last() =~= all.take(i - 1));
                assert(all.take(i as int).last() == all[i - 1]);
            }
            if str_equal(self.entries[i - 1].0.as_str(), key) {
                return Some(self.entries[i - 1].1.as_str());
            }
            i -= 1;
        }
        None
    }
}

/// Sets the Gradle distribution that the wrapper downloads, and leaves every
/// other entry as it is.
pub fn apply_gradle_wrapper_properties(props: &mut Properties, distribution_url: &str)
    ensures
        final(props)@ == old(props)@.insert(distribution_url_key(), distribution_url@),
{
    props.insert("distributionUrl".to_owned(), distribution_url.to_owned());
}

} // verus!
