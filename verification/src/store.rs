//! The history store: an ordered, newest-first log of entries.
//!
//! The store itself is purely in-memory; the surrounding process persists
//! the JSON rendering of the log (see `codec`) after every mutation.

use vstd::prelude::*;
use vstd::string::StringExecFns;
use crate::entry::{Entry, EntryModel, models};

verus! {

/// The plain-text export rendering: for each entry in log order, its
/// timestamp line, its text, then a blank line.
pub open spec fn export_text(es: Seq<EntryModel>) -> Seq<char>
    decreases es.len(),
{
    if es.len() == 0 {
        Seq::<char>::empty()
    } else {
        es[0].timestamp + seq!['\n'] + es[0].text + seq!['\n', '\n'] + export_text(es.skip(1))
    }
}

/// The ordered log of entries, newest first.
pub struct HistoryStore {
    pub entries: Vec<Entry>,
}

impl View for HistoryStore {
    type V = Seq<EntryModel>;

    open spec fn view(&self) -> Seq<EntryModel> {
        models(self.entries@)
    }
}

impl HistoryStore {
    /// An empty log.
    pub fn new() -> (r: HistoryStore)
        ensures
            r@ == Seq::<EntryModel>::empty(),
    {
        let r = HistoryStore { entries: Vec::new() };
        proof {
            assert(r@ =~= Seq::<EntryModel>::empty());
        }
        r
    }

    /// Number of entries in the log.
    pub fn len(&self) -> (r: usize)
        ensures
            r == self@.len(),
    {
        self.entries.len()
    }

    /// A snapshot copy of the current log; no mutation.
    pub fn get_all(&self) -> (r: Vec<Entry>)
        ensures
            models(r@) == self@,
    {
        let mut out: Vec<Entry> = Vec::new();
        let mut i: usize = 0;
        while i < self.entries.len()
            invariant
                i <= self.entries.len(),
                out@.len() == i,
                forall|j: int| 0 <= j < i ==> out@[j]@ == self.entries@[j]@,
            decreases self.entries.len() - i,
        {
            let e = self.entries[i].clone();
            out.push(e);
            i += 1;
        }
        proof {
            assert(models(out@) =~= models(self.entries@));
        }
        out
    }

    /// Inserts an entry at position 0: all existing entries shift down.
    pub fn insert_newest(&mut self, e: Entry)
        ensures
            final(self)@ == seq![e@] + old(self)@,
    {
        self.entries.insert(0, e);
        proof {
            assert(final(self)@ =~= seq![e@] + old(self)@);
        }
    }

    /// Empties the log.
    pub fn clear(&mut self)
        ensures
            final(self)@ == Seq::<EntryModel>::empty(),
    {
        self.entries.clear();
        proof {
            assert(final(self)@ =~= Seq::<EntryModel>::empty());
        }
    }

    /// Replaces the whole log, as startup does after a successful load.
    pub fn replace(&mut self, entries: Vec<Entry>)
        ensures
            final(self)@ == models(entries@),
    {
        self.entries = entries;
    }

    /// The plain-text export rendering of the whole log, in log order.
    pub fn render_export(&self) -> (r: String)
        ensures
            r@ == export_text(self@),
    {
        proof {
            assert(models(self.entries@).skip(0) =~= self@);
        }
        render_export_from(&self.entries, 0)
    }
}

/// Renders the export blocks of `entries[i..]`, in order.
fn render_export_from(entries: &Vec<Entry>, i: usize) -> (r: String)
    requires
        i <= entries.len(),
    ensures
        r@ == export_text(models(entries@).skip(i as int)),
    decreases entries.len() - i,
{
    proof {
        reveal_strlit("\n");
        reveal_strlit("\n\n");
    }
    if i == entries.len() {
        proof {
            assert(models(entries@).skip(i as int) =~= Seq::<EntryModel>::empty());
        }
        String::new()
    } else {
        let ghost ms = models(entries@);
        let mut s = entries[i].timestamp.clone();
        s.append("\n");
        s.append(entries[i].text.as_str());
        s.append("\n\n");
        let rest = render_export_from(entries, i + 1);
        s.append(rest.as_str());
        proof {
            assert(ms.skip(i as int).skip(1) =~= ms.skip(i as int + 1));
            assert(ms.skip(i as int)[0] == entries@[i as int]@);
            assert("\n"@ =~= seq!['\n']);
            assert("\n\n"@ =~= seq!['\n', '\n']);
            assert(s@ =~= ms.skip(i as int)[0].timestamp + seq!['\n'] + ms.skip(i as int)[0].text
                + seq!['\n', '\n'] + export_text(ms.skip(i as int).skip(1)));
        }
        s
    }
}

} // verus!
