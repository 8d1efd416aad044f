//! One captured clipboard snapshot: a timestamp string and the raw text.

use vstd::prelude::*;

verus! {

/// The mathematical model of an entry: both fields as character sequences.
pub struct EntryModel {
    pub timestamp: Seq<char>,
    pub text: Seq<char>,
}

/// One timestamped captured text snippet. The timestamp is a human-readable
/// string captured at insertion time; it is not required to be unique.
#[derive(Debug)]
pub struct Entry {
    pub timestamp: String,
    pub text: String,
}

impl View for Entry {
    type V = EntryModel;

    open spec fn view(&self) -> EntryModel {
        EntryModel { timestamp: self.timestamp@, text: self.text@ }
    }
}

impl Clone for Entry {
    fn clone(&self) -> (r: Entry)
        ensures
            r@ == self@,
    {
        Entry { timestamp: self.timestamp.clone(), text: self.text.clone() }
    }
}

impl PartialEq for Entry {
    fn eq(&self, other: &Entry) -> (r: bool)
    {
        self.timestamp == other.timestamp && self.text == other.text
    }
}

impl vstd::std_specs::cmp::PartialEqSpecImpl for Entry {
    open spec fn obeys_eq_spec() -> bool {
        true
    }

    open spec fn eq_spec(&self, other: &Entry) -> bool {
        self@ == other@
    }
}

/// The models of a sequence of entries.
pub open spec fn models(entries: Seq<Entry>) -> Seq<EntryModel> {
    entries.map_values(|e: Entry| e@)
}

} // verus!
