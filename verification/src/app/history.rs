//! The record of finished conversions.
use vstd::prelude::*;

use crate::app::queue;
use crate::app::AppModel;
use crate::app::EntryView;
use crate::app::FileView;
use crate::app::HistoryEntry;
use crate::app::QueuedFile;

verus! {

/// How many finished conversions are kept.
pub const HISTORY_LIMIT: usize = 100;

/// The newest part of a history: what is kept of it.
pub open spec fn recent<T>(history: Seq<T>) -> Seq<T> {
    if history.len() > HISTORY_LIMIT {
        history.skip(history.len() - HISTORY_LIMIT)
    } else {
        history
    }
}

/// The target shown for a finished conversion.
pub open spec fn recorded_target(f: FileView) -> Seq<char> {
    match queue::target_of(f) {
        Some(target) => target,
        None => Seq::empty(),
    }
}

/// The record of a finished conversion: with its output path if it succeeded.
pub open spec fn record_of(f: FileView, output: Option<Seq<char>>, secs: u64) -> EntryView {
    EntryView {
        input_name: f.file_name,
        source_ext: f.source_ext,
        target: recorded_target(f),
        output_display: match output {
            Some(path) => path,
            None => Seq::empty(),
        },
        success: output is Some,
        finished_at: secs,
        favorite: false,
    }
}

impl HistoryEntry {
    /// The record of a conversion of `file` that ended with `output`, or
    /// failed.
    pub fn of(file: &QueuedFile, output: Option<&str>, secs: u64) -> (r: Self)
        ensures
            r.deep_view() == record_of(
                file.deep_view(),
                match output {
                    Some(path) => Some(path@),
                    None => None,
                },
                secs,
            ),
    {
        let target = match file.selected_target() {
            Some(t) => t.to_owned(),
            None => String::new(),
        };
        let (output_display, success) = match output {
            Some(path) => (path.to_owned(), true),
            None => (String::new(), false),
        };
        HistoryEntry {
            input_name: file.file_name.clone(),
            source_ext: file.source_ext.clone(),
            target,
            output_display,
            success,
            finished_at: secs,
            favorite: false,
        }
    }
}

/// The part of a history that is stored: the newest entries, oldest first.
pub fn stored_part(history: &Vec<HistoryEntry>) -> (r: &[HistoryEntry])
    ensures
        r@ == recent(history@),
{
    let n = history.len();
    if n > HISTORY_LIMIT {
        let part = vstd::slice::slice_subrange(history.as_slice(), n - HISTORY_LIMIT, n);
        assert(part@ =~= history@.skip(n - HISTORY_LIMIT));
        part
    } else {
        history.as_slice()
    }
}

impl AppModel {
    /// Adds a finished conversion, dropping the oldest beyond the limit.
    pub fn record(&mut self, entry: HistoryEntry)
        ensures
            final(self).deep_view() == (crate::app::ModelView {
                history: recent(old(self).deep_view().history.push(entry.deep_view())),
                ..old(self).deep_view()
            }),
    {
        let ghost m = self.deep_view();
        self.history.push(entry);
        assert(self.history.deep_view() =~= m.history.push(entry.deep_view()));
        if self.history.len() > HISTORY_LIMIT {
            let overflow = self.history.len() - HISTORY_LIMIT;
            let ghost whole = self.history.deep_view();
            let newest = self.history.split_off(overflow);
            self.history = newest;
            assert(self.history.deep_view() =~= whole.skip(overflow as int));
        }
    }
}

} // verus!
