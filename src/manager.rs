//! The clipboard manager: the history together with the watcher that feeds
//! it from the system clipboard, the search term, and a transient status
//! message with a countdown.
use vstd::prelude::*;
use crate::entry::{EntryView, Timestamp};
use crate::history::{added, matching_positions, pin_toggled, pinned_only, refuses, History, DEFAULT_MAX_ENTRIES};

verus! {

/// How long an ordinary status message stays, in milliseconds.
pub const STATUS_MS: u64 = 2000;

/// How long a status message about a failure to open a directory stays, in
/// milliseconds.
pub const ERROR_STATUS_MS: u64 = 3000;

/// The text read from the clipboard, as a mathematical value.
pub open spec fn read_view(read: Option<String>) -> Option<Seq<char>> {
    match read {
        Some(s) => Some(s@),
        None => None,
    }
}

/// The watcher takes a read when it succeeded, is not empty, and differs
/// from the last text it saw.
pub open spec fn poll_takes(last_seen: Seq<char>, read: Option<Seq<char>>) -> bool {
    match read {
        Some(s) => s.len() > 0 && s != last_seen,
        None => false,
    }
}

/// The last text seen by the watcher after a poll.
pub open spec fn seen_after(last_seen: Seq<char>, read: Option<Seq<char>>) -> Seq<char> {
    if poll_takes(last_seen, read) {
        read->0
    } else {
        last_seen
    }
}

/// Once the watcher has polled a value, polling the same value again takes
/// nothing and leaves what it saw as it is: however often an unchanged
/// clipboard is polled, its text reaches the history at most once.
pub proof fn lemma_poll_idempotent(last_seen: Seq<char>, x: Seq<char>)
    ensures
        !poll_takes(seen_after(last_seen, Some(x)), Some(x)),
        seen_after(seen_after(last_seen, Some(x)), Some(x)) == seen_after(last_seen, Some(x)),
{
}

/// A message shown for a while.
pub struct Status {
    pub message: String,
    pub remaining_ms: u64,
}

/// The history, the watcher's last seen text, the search term and the
/// status message.
pub struct ClipboardManager {
    history: History,
    current_clipboard: String,
    search_term: String,
    status: Option<Status>,
}

impl ClipboardManager {
    pub closed spec fn history_spec(&self) -> History {
        self.history
    }

    /// The last text the watcher saw or that was copied out.
    pub closed spec fn last_seen(&self) -> Seq<char> {
        self.current_clipboard@
    }

    pub closed spec fn search_spec(&self) -> Seq<char> {
        self.search_term@
    }

    /// The status message and the milliseconds it has left, if any.
    pub closed spec fn status_spec(&self) -> Option<(Seq<char>, u64)> {
        match self.status {
            Some(st) => Some((st.message@, st.remaining_ms)),
            None => None,
        }
    }

    pub open spec fn wf(&self) -> bool {
        self.history_spec().wf()
    }

    /// A manager around `history`, with nothing seen, no search and no status.
    pub fn with_history(history: History) -> (r: Self)
        requires
            history.wf(),
        ensures
            r.wf(),
            r.history_spec() == history,
            r.last_seen() == Seq::<char>::empty(),
            r.search_spec() == Seq::<char>::empty(),
            r.status_spec() is None,
    {
        ClipboardManager {
            history,
            current_clipboard: String::new(),
            search_term: String::new(),
            status: None,
        }
    }

    /// A manager with an empty history of the default capacity.
    pub fn new() -> (r: Self)
        ensures
            r.wf(),
            r.history_spec()@ == Seq::<EntryView>::empty(),
            r.history_spec().cap() == DEFAULT_MAX_ENTRIES,
            r.last_seen() == Seq::<char>::empty(),
            r.search_spec() == Seq::<char>::empty(),
            r.status_spec() is None,
    {
        Self::with_history(History::new(DEFAULT_MAX_ENTRIES))
    }

    pub fn history(&self) -> (r: &History)
        ensures
            *r == self.history_spec(),
    {
        &self.history
    }

    pub fn current_clipboard(&self) -> (r: &str)
        ensures
            r@ == self.last_seen(),
    {
        self.current_clipboard.as_str()
    }

    pub fn search_term(&self) -> (r: &str)
        ensures
            r@ == self.search_spec(),
    {
        self.search_term.as_str()
    }

    pub fn set_search_term(&mut self, term: String)
        ensures
            final(self).search_spec() == term@,
            final(self).history_spec() == old(self).history_spec(),
            final(self).last_seen() == old(self).last_seen(),
            final(self).status_spec() == old(self).status_spec(),
    {
        self.search_term = term;
    }

    /// Shows `message` for `ms` milliseconds, replacing any earlier one.
    pub fn set_status(&mut self, message: &str, ms: u64)
        ensures
            final(self).status_spec() == Some((message@, ms)),
            final(self).history_spec() == old(self).history_spec(),
            final(self).last_seen() == old(self).last_seen(),
            final(self).search_spec() == old(self).search_spec(),
    {
        self.status = Some(Status { message: message.to_owned(), remaining_ms: ms });
    }

    /// The status message, or `Ready` where there is none.
    pub fn status_text(&self) -> (r: &str)
        ensures
            r@ == match self.status_spec() {
                Some((m, _)) => m,
                None => "Ready"@,
            },
    {
        match &self.status {
            Some(st) => st.message.as_str(),
            None => "Ready",
        }
    }

    /// Counts the status message down by `elapsed_ms`; it goes away when its
    /// time is used up. Returns whether a message was shown, so that the
    /// caller keeps refreshing.
    pub fn update_status(&mut self, elapsed_ms: u64) -> (r: bool)
        ensures
            r == (old(self).status_spec() is Some),
            final(self).status_spec() == match old(self).status_spec() {
                Some((m, left)) => if elapsed_ms >= left {
                    None
                } else {
                    Some((m, (left - elapsed_ms) as u64))
                },
                None => None,
            },
            final(self).history_spec() == old(self).history_spec(),
            final(self).last_seen() == old(self).last_seen(),
            final(self).search_spec() == old(self).search_spec(),
    {
        match self.status.take() {
            Some(st) => {
                if elapsed_ms < st.remaining_ms {
                    self.status = Some(
                        Status { message: st.message, remaining_ms: st.remaining_ms - elapsed_ms },
                    );
                }
                true
            },
            None => false,
        }
    }

    /// Hands the watcher what was read from the system clipboard (`None`
    /// where the read failed). A non-empty text that differs from the last
    /// one seen becomes the last seen and is offered to the history. Returns
    /// whether the history changed.
    pub fn check_clipboard(&mut self, read: Option<String>) -> (r: bool)
        requires
            old(self).wf(),
        ensures
            final(self).wf(),
            final(self).last_seen() == seen_after(old(self).last_seen(), read_view(read)),
            r == (poll_takes(old(self).last_seen(), read_view(read)) && !refuses(
                old(self).history_spec()@,
                read_view(read)->0,
            )),
            final(self).history_spec().cap() == old(self).history_spec().cap(),
            poll_takes(old(self).last_seen(), read_view(read)) ==> exists|t: Timestamp|
                final(self).history_spec()@ == added(
                    old(self).history_spec()@,
                    old(self).history_spec().cap(),
                    EntryView { content: read_view(read)->0, timestamp: t, pinned: false },
                ),
            !poll_takes(old(self).last_seen(), read_view(read)) ==> final(self).history_spec()
                == old(self).history_spec(),
            final(self).search_spec() == old(self).search_spec(),
            final(self).status_spec() == old(self).status_spec(),
    {
        match read {
            Some(content) => {
                if content.as_str().unicode_len() > 0 && content != self.current_clipboard {
                    self.current_clipboard = content.clone();
                    self.history.add_entry(content)
                } else {
                    false
                }
            },
            None => false,
        }
    }

    /// Records the outcome of writing `content` to the system clipboard:
    /// on success the watcher takes it as seen, so that it is not added back.
    pub fn record_copy(&mut self, content: &str, copied: bool)
        ensures
            final(self).last_seen() == if copied {
                content@
            } else {
                old(self).last_seen()
            },
            final(self).status_spec() == if copied {
                Some(("Copied to clipboard"@, STATUS_MS))
            } else {
                Some(("Failed to copy to clipboard"@, STATUS_MS))
            },
            final(self).history_spec() == old(self).history_spec(),
            final(self).search_spec() == old(self).search_spec(),
    {
        if copied {
            self.current_clipboard = content.to_owned();
            self.set_status("Copied to clipboard", STATUS_MS);
        } else {
            self.set_status("Failed to copy to clipboard", STATUS_MS);
        }
    }

    /// Records the outcome of opening the storage directory: `None` where no
    /// storage path is known, else the error text of a failed attempt.
    pub fn record_open(&mut self, outcome: Option<Result<(), String>>)
        ensures
            final(self).status_spec() == match outcome {
                None => Some(("Storage path not available"@, STATUS_MS)),
                Some(Ok(())) => Some(("Opened storage directory"@, STATUS_MS)),
                Some(Err(e)) => Some(("Failed to open directory: "@ + e@, ERROR_STATUS_MS)),
            },
            final(self).history_spec() == old(self).history_spec(),
            final(self).last_seen() == old(self).last_seen(),
            final(self).search_spec() == old(self).search_spec(),
    {
        match outcome {
            None => self.set_status("Storage path not available", STATUS_MS),
            Some(Ok(())) => self.set_status("Opened storage directory", STATUS_MS),
            Some(Err(e)) => {
                let message = String::from_str("Failed to open directory: ").concat(e.as_str());
                self.status = Some(Status { message, remaining_ms: ERROR_STATUS_MS });
            },
        }
    }

    /// Removes the entry at `index` where it is in range. Returns whether
    /// the history changed.
    pub fn remove_entry(&mut self, index: usize) -> (r: bool)
        requires
            old(self).wf(),
        ensures
            final(self).wf(),
            r == (index < old(self).history_spec()@.len()),
            final(self).history_spec()@ == if r {
                old(self).history_spec()@.remove(index as int)
            } else {
                old(self).history_spec()@
            },
            final(self).history_spec().cap() == old(self).history_spec().cap(),
            final(self).status_spec() == if r {
                Some(("Entry removed"@, STATUS_MS))
            } else {
                old(self).status_spec()
            },
            final(self).last_seen() == old(self).last_seen(),
            final(self).search_spec() == old(self).search_spec(),
    {
        let r = self.history.remove_entry(index);
        if r {
            self.set_status("Entry removed", STATUS_MS);
        }
        r
    }

    /// Flips the pin of the entry at `index` where it is in range. Returns
    /// whether the history changed.
    pub fn toggle_pin(&mut self, index: usize) -> (r: bool)
        requires
            old(self).wf(),
        ensures
            final(self).wf(),
            r == (index < old(self).history_spec()@.len()),
            final(self).history_spec()@ == pin_toggled(old(self).history_spec()@, index as int),
            final(self).history_spec().cap() == old(self).history_spec().cap(),
            final(self).status_spec() == if !r {
                old(self).status_spec()
            } else if final(self).history_spec()@[index as int].pinned {
                Some(("Entry pinned"@, STATUS_MS))
            } else {
                Some(("Entry unpinned"@, STATUS_MS))
            },
            final(self).last_seen() == old(self).last_seen(),
            final(self).search_spec() == old(self).search_spec(),
    {
        match self.history.toggle_pin(index) {
            Some(pinned) => {
                if pinned {
                    self.set_status("Entry pinned", STATUS_MS);
                } else {
                    self.set_status("Entry unpinned", STATUS_MS);
                }
                true
            },
            None => false,
        }
    }

    /// Removes every unpinned entry.
    pub fn clear_unpinned(&mut self)
        requires
            old(self).wf(),
        ensures
            final(self).wf(),
            final(self).history_spec()@ == pinned_only(old(self).history_spec()@),
            final(self).history_spec().cap() == old(self).history_spec().cap(),
            final(self).status_spec() == Some(("Cleared unpinned"@, STATUS_MS)),
            final(self).last_seen() == old(self).last_seen(),
            final(self).search_spec() == old(self).search_spec(),
    {
        self.history.clear_unpinned();
        self.set_status("Cleared unpinned", STATUS_MS);
    }

    /// Sets the capacity, without evicting at once.
    pub fn set_capacity(&mut self, max_entries: usize)
        requires
            old(self).wf(),
            max_entries >= 1,
        ensures
            final(self).wf(),
            final(self).history_spec()@ == old(self).history_spec()@,
            final(self).history_spec().cap() == max_entries,
            final(self).status_spec() == Some(("Settings saved"@, STATUS_MS)),
            final(self).last_seen() == old(self).last_seen(),
            final(self).search_spec() == old(self).search_spec(),
    {
        self.history.set_capacity(max_entries);
        self.set_status("Settings saved", STATUS_MS);
    }

    /// The positions of the entries that match the search term.
    pub fn filtered_entries(&self) -> (r: Vec<usize>)
        ensures
            matching_positions(self.history_spec()@, self.search_spec(), r@),
    {
        self.history.filtered_entries(self.search_term.as_str())
    }
}

} // verus!
