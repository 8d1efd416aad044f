//! The application context: the monitoring flag and the history store as
//! one explicit handle, with the command surface the calling process uses.
//!
//! Persistence ordering: a mutation changes the in-memory log first; the
//! caller then writes `render_history` to the backing file and reports a
//! write failure to its own caller. A failed write therefore leaves memory
//! ahead of disk until the next successful write.

use vstd::prelude::*;
use crate::clock::now_timestamp;
use crate::codec::{parse_document, render_document, parse_history_json, render_history_json};
use crate::entry::{Entry, EntryModel, models};
use crate::errors::StoreError;
use crate::monitor::{MonitoringFlag, toggled};
use crate::store::{HistoryStore, export_text};

verus! {

/// The log after one accepted capture: the new entry in front.
pub open spec fn added(log: Seq<EntryModel>, e: EntryModel) -> Seq<EntryModel> {
    seq![e] + log
}

/// The log after a sequence of accepted captures, oldest first.
pub open spec fn add_all(log: Seq<EntryModel>, items: Seq<EntryModel>) -> Seq<EntryModel>
    decreases items.len(),
{
    if items.len() == 0 {
        log
    } else {
        add_all(added(log, items[0]), items.skip(1))
    }
}

/// Ordering: any sequence of accepted captures leaves the log holding them
/// in reverse call order — most recent first — ahead of what was there.
pub proof fn lemma_adds_reverse_order(log: Seq<EntryModel>, items: Seq<EntryModel>)
    ensures
        add_all(log, items) == items.reverse() + log,
    decreases items.len(),
{
    if items.len() == 0 {
        assert(items.reverse() + log =~= log);
    } else {
        lemma_adds_reverse_order(added(log, items[0]), items.skip(1));
        assert(items.skip(1).reverse() + (seq![items[0]] + log) =~= items.reverse() + log);
    }
}

/// The monitoring flag and the store, owned together and passed explicitly to every
/// caller that needs them.
pub struct ClipboardApp {
    pub monitor: MonitoringFlag,
    pub store: HistoryStore,
}

impl ClipboardApp {
    /// A fresh context: monitoring enabled, empty log.
    pub fn new() -> (r: ClipboardApp)
        ensures
            r.monitor.enabled,
            r.store@ == Seq::<EntryModel>::empty(),
    {
        ClipboardApp { monitor: MonitoringFlag::new(), store: HistoryStore::new() }
    }

    /// A snapshot copy of the current log, newest first.
    pub fn get_history(&self) -> (r: Vec<Entry>)
        ensures
            models(r@) == self.store@,
    {
        self.store.get_all()
    }

    /// Accepts a capture with the given timestamp: checks the monitoring flag, then
    /// prepends the entry. The caller persists afterwards.
    pub fn add_to_history_at(&mut self, timestamp: String, text: String) -> (r: Result<
        Entry,
        StoreError,
    >)
        ensures
            final(self).monitor == old(self).monitor,
            old(self).monitor.enabled ==> (r matches Ok(e) && e@ == (EntryModel {
                timestamp: timestamp@,
                text: text@,
            }) && final(self).store@ == added(old(self).store@, e@)),
            !old(self).monitor.enabled ==> r == Err::<Entry, StoreError>(
                StoreError::MonitoringDisabled,
            ) && *final(self) == *old(self),
    {
        if !self.monitor.status() {
            return Err(StoreError::MonitoringDisabled);
        }
        let entry = Entry { timestamp, text };
        let copy = entry.clone();
        self.store.insert_newest(entry);
        Ok(copy)
    }

    /// Accepts a capture timestamped with the current local time. The entry
    /// returned is the one the log now starts with.
    pub fn add_to_history(&mut self, text: String) -> (r: Result<Entry, StoreError>)
        ensures
            final(self).monitor == old(self).monitor,
            old(self).monitor.enabled ==> (r matches Ok(e) && e@.text == text@
                && final(self).store@ == added(old(self).store@, e@)),
            !old(self).monitor.enabled ==> r == Err::<Entry, StoreError>(
                StoreError::MonitoringDisabled,
            ) && *final(self) == *old(self),
    {
        if !self.monitor.status() {
            return Err(StoreError::MonitoringDisabled);
        }
        let timestamp = now_timestamp();
        self.add_to_history_at(timestamp, text)
    }

    /// Empties the log. The caller persists the now-empty log afterwards.
    pub fn clear_history(&mut self)
        ensures
            final(self).monitor == old(self).monitor,
            final(self).store@ == Seq::<EntryModel>::empty(),
    {
        self.store.clear();
    }

    /// Flips the monitoring flag and returns the new value; the log is untouched. The
    /// caller notifies observers of the new value.
    pub fn toggle_monitoring(&mut self) -> (r: bool)
        ensures
            final(self).monitor.enabled == toggled(old(self).monitor.enabled),
            r == final(self).monitor.enabled,
            final(self).store == old(self).store,
    {
        self.monitor.toggle()
    }

    /// Current monitoring flag value; no side effects.
    pub fn get_monitoring_status(&self) -> (r: bool)
        ensures
            r == self.monitor.enabled,
    {
        self.monitor.status()
    }

    /// The plain-text export rendering of the current log, in log order.
    /// The caller writes it to the destination path.
    pub fn export_history(&self) -> (r: String)
        ensures
            r@ == export_text(self.store@),
    {
        self.store.render_export()
    }

    /// The JSON rendering of the current log, for the backing file.
    pub fn render_history(&self) -> (r: String)
        ensures
            r@ == render_document(self.store@),
    {
        render_history_json(&self.store.entries)
    }

    /// Replaces the log with entries loaded at startup.
    pub fn install_history(&mut self, entries: Vec<Entry>)
        ensures
            final(self).monitor == old(self).monitor,
            final(self).store@ == models(entries@),
    {
        self.store.replace(entries);
    }
}

/// Parses the persisted backing file's content. `None` stands for a missing
/// file and yields an empty log, not an error; content that fails to parse
/// is a `ParseFailure`, surfaced to the caller rather than swallowed.
pub fn load_history(content: Option<&str>) -> (r: Result<Vec<Entry>, StoreError>)
    ensures
        content is None ==> (r matches Ok(v) && v@.len() == 0),
        content matches Some(s) ==> match parse_document(s@) {
            Some(ms) => (r matches Ok(v) && models(v@) == ms),
            None => r == Err::<Vec<Entry>, StoreError>(StoreError::ParseFailure),
        },
{
    match content {
        None => Ok(Vec::new()),
        Some(s) => match parse_history_json(s) {
            Some(entries) => Ok(entries),
            None => Err(StoreError::ParseFailure),
        },
    }
}

} // verus!
