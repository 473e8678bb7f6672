//! Edge dictionaries: named immutable key-to-value string tables.
//!
//! A lookup returns the value of the last entry with the key, so a table
//! built by repeated insertion behaves like the map it came from.

use vstd::prelude::*;

verus! {

/// One key-to-value pair of a dictionary.
pub struct DictEntry {
    pub key: String,
    pub value: String,
}

impl View for DictEntry {
    type V = (Seq<char>, Seq<char>);

    open spec fn view(&self) -> (Seq<char>, Seq<char>) {
        (self.key@, self.value@)
    }
}

/// A named immutable key-to-value string table.
pub struct Dictionary {
    pub name: String,
    pub entries: Vec<DictEntry>,
}

/// The mathematical value of a dictionary.
#[verifier::ext_equal]
pub struct DictionaryView {
    pub name: Seq<char>,
    pub entries: Seq<(Seq<char>, Seq<char>)>,
}

impl View for Dictionary {
    type V = DictionaryView;

    open spec fn view(&self) -> DictionaryView {
        DictionaryView {
            name: self.name@,
            entries: Seq::new(self.entries@.len(), |i: int| self.entries@[i]@),
        }
    }
}

/// The value under `key`: that of the last entry with the key, if any.
pub open spec fn spec_dict_lookup(entries: Seq<(Seq<char>, Seq<char>)>, key: Seq<char>) -> Option<
    Seq<char>,
>
    decreases entries.len(),
{
    if entries.len() == 0 {
        None
    } else if entries.last().0 == key {
        Some(entries.last().1)
    } else {
        spec_dict_lookup(entries.drop_last(), key)
    }
}

impl Dictionary {
    /// Looks `key` up in the table.
    pub fn get(&self, key: &String) -> (r: Option<String>)
        ensures
            r matches Some(v) ==> spec_dict_lookup(self@.entries, key@) == Some(v@),
            r is None ==> spec_dict_lookup(self@.entries, key@) is None,
    {
        let mut found: Option<String> = None;
        let mut i: usize = 0;
        proof {
            assert(self@.entries.take(0) =~= Seq::<(Seq<char>, Seq<char>)>::empty());
        }
        while i < self.entries.len()
            invariant
                i <= self.entries@.len(),
                self@.entries.len() == self.entries@.len(),
                match found {
                    Some(v) => spec_dict_lookup(self@.entries.take(i as int), key@) == Some(v@),
                    None => spec_dict_lookup(self@.entries.take(i as int), key@) is None,
                },
            decreases self.entries@.len() - i,
        {
            let e = &self.entries[i];
            proof {
                assert(self@.entries[i as int] == (e.key@, e.value@));
                assert(self@.entries.take(i + 1).drop_last() =~= self@.entries.take(i as int));
                assert(self@.entries.take(i + 1).last() == self@.entries[i as int]);
            }
            if e.key == *key {
                found = Some(e.value.clone());
            }
            i = i + 1;
        }
        proof {
            assert(self@.entries.take(self@.entries.len() as int) =~= self@.entries);
        }
        found
    }

    /// An entry-for-entry copy, as stored into a session on `open`.
    pub fn duplicate(&self) -> (r: Dictionary)
        ensures
            r@ == self@,
    {
        let mut entries: Vec<DictEntry> = Vec::new();
        let mut i: usize = 0;
        while i < self.entries.len()
            invariant
                i <= self.entries@.len(),
                entries@.len() == i,
                forall|k: int| 0 <= k < i ==> #[trigger] entries@[k]@ == self.entries@[k]@,
            decreases self.entries@.len() - i,
        {
            let e = &self.entries[i];
            entries.push(DictEntry { key: e.key.clone(), value: e.value.clone() });
            i = i + 1;
        }
        let r = Dictionary { name: self.name.clone(), entries };
        proof {
            assert(r@.entries =~= self@.entries);
            assert(r@ =~= self@);
        }
        r
    }
}

} // verus!
