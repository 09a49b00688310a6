//! Events of the watched vault file.

use std::sync::Arc;

use vstd::prelude::*;

use crate::text;

verus! {

/// A file's modification time: nanoseconds from the epoch, exact.
pub type FileTime = i128;

/// Watches the vault's storage for changes made elsewhere.
pub trait FileWatcher: Send + Sync {
    /// Registers the target of events, in place of an earlier one; `None`
    /// clears it.
    fn set_observer(&self, observer: Option<Arc<dyn FileWatcherObserver>>);
}

/// Receives the events of a [`FileWatcher`].
pub trait FileWatcherObserver: Send + Sync {
    /// Called on every storage event, from the watcher's thread.
    fn on_event(&self, event: FileWatcherEvent);
}

/// What can happen to the watched storage.
#[derive(Debug, Clone)]
#[non_exhaustive]
pub enum FileWatcherEvent {
    /// The content changed. Time and size are those observed at the event,
    /// where the storage has them.
    ContentChanged {
        /// Modification time, where observable.
        mtime: Option<FileTime>,
        /// Length in bytes, where observable.
        size: Option<u64>,
    },
    /// The storage can no longer be reached.
    Unavailable {
        /// Diagnostic.
        reason: String,
    },
    /// The storage can be reached again.
    Available,
    /// A storage provider reported a conflict of its own.
    ConflictMarker {
        /// The provider's words.
        description: String,
    },
}

/// Errors of a file watcher.
#[derive(Debug)]
#[non_exhaustive]
pub enum FileWatcherError {
    /// The platform watcher failed to start or to register the path.
    NotifyInit(String),
    /// An I/O error while the watch was being prepared.
    Io(String),
}

impl FileWatcherError {
    /// The error in words.
    pub open spec fn words(self) -> Seq<char> {
        match self {
            FileWatcherError::NotifyInit(t) => "file watcher init failed: "@ + t@,
            FileWatcherError::Io(t) => "io error: "@ + t@,
        }
    }

    /// The error in words.
    pub fn message(&self) -> (r: String)
        ensures
            r@ == self.words(),
    {
        match self {
            FileWatcherError::NotifyInit(t) => text::joined(
                "file watcher init failed: ",
                t.as_str(),
            ),
            FileWatcherError::Io(t) => text::joined("io error: ", t.as_str()),
        }
    }
}

// ------------------------------------------------------------ the platform watcher

/// The kinds of change a platform watcher reports.
#[derive(Debug, Clone, Copy, PartialEq, Eq, Structural)]
pub enum FileChange {
    /// Content or metadata changed.
    Modify,
    /// Something changed; the platform does not say what.
    Any,
    /// Something else happened.
    Other,
    /// The file was created.
    Create,
    /// The file was removed.
    Remove,
    /// The file was moved away.
    MoveAway,
    /// The file was moved into place.
    MoveIn,
    /// The file was moved; the platform does not say which way.
    Move,
    /// The file was read.
    Access,
}

/// What a change of the watched file is told as.
#[derive(Debug, Clone, Copy, PartialEq, Eq, Structural)]
pub enum Told {
    /// Nothing is told.
    Nothing,
    /// The content changed.
    Changed,
    /// The file is gone.
    Gone,
    /// The file is back.
    Back,
}

/// Whether a change takes the file away. A move whose direction is not known
/// does so where the file is not there now.
pub open spec fn takes_away(change: FileChange, there_now: bool) -> bool {
    change is Remove || change is MoveAway || (change is Move && !there_now)
}

/// Whether a change brings the file into place. A move whose direction is not
/// known does so where the file is there now.
pub open spec fn brings_in(change: FileChange, there_now: bool) -> bool {
    change is Create || change is MoveIn || (change is Move && there_now)
}

/// What a change is told as. Bringing in a file that was there is a change of
/// content: a file is replaced by renaming another over it. Mere reads are not
/// told.
pub open spec fn told_as(was_available: bool, change: FileChange, there_now: bool) -> Told {
    if change is Access {
        Told::Nothing
    } else if takes_away(change, there_now) {
        Told::Gone
    } else if brings_in(change, there_now) && !was_available {
        Told::Back
    } else {
        Told::Changed
    }
}

/// Whether the file counts as there after a change.
pub open spec fn there_after(was_available: bool, change: FileChange, there_now: bool) -> bool {
    if takes_away(change, there_now) {
        false
    } else {
        was_available || brings_in(change, there_now)
    }
}

/// What the diagnostic of a file that is gone begins with.
pub open spec fn gone_words(change: FileChange) -> Seq<char> {
    if change is Remove {
        "file removed: "@
    } else {
        "file moved away: "@
    }
}

/// What a platform watcher remembers of the watched file: whether it was last
/// seen to be there.
#[derive(Debug, Clone, Copy, PartialEq, Eq, Structural)]
pub struct Presence {
    /// Whether the file was there.
    pub was_available: bool,
}

impl Presence {
    /// Turns a reported change into an event. Changes that do not touch the
    /// watched file, and mere reads, give none. `mtime` and `size` are those of
    /// the file now; a file that has no size is not there.
    pub fn translate(
        &mut self,
        change: FileChange,
        touches_target: bool,
        mtime: Option<FileTime>,
        size: Option<u64>,
        target: &str,
    ) -> (r: Option<FileWatcherEvent>)
        ensures
            !touches_target ==> r is None && *final(self) == *old(self),
            touches_target ==> final(self).was_available == there_after(
                old(self).was_available,
                change,
                size is Some,
            ),
            touches_target ==> match told_as(old(self).was_available, change, size is Some) {
                Told::Nothing => r is None,
                Told::Changed => r == Some(FileWatcherEvent::ContentChanged { mtime, size }),
                Told::Gone => r matches Some(FileWatcherEvent::Unavailable { reason }) && reason@
                    == gone_words(change) + target@,
                Told::Back => r == Some(FileWatcherEvent::Available),
            },
    {
        if !touches_target {
            return None;
        }
        let known: FileChange = match change {
            FileChange::Move => {
                if size.is_some() {
                    FileChange::MoveIn
                } else {
                    FileChange::MoveAway
                }
            },
            other => other,
        };
        match known {
            FileChange::Access => None,
            FileChange::Create | FileChange::MoveIn => {
                if self.was_available {
                    Some(FileWatcherEvent::ContentChanged { mtime, size })
                } else {
                    self.was_available = true;
                    Some(FileWatcherEvent::Available)
                }
            },
            FileChange::Remove => {
                self.was_available = false;
                Some(
                    FileWatcherEvent::Unavailable {
                        reason: text::joined("file removed: ", target),
                    },
                )
            },
            FileChange::MoveAway => {
                self.was_available = false;
                Some(
                    FileWatcherEvent::Unavailable {
                        reason: text::joined("file moved away: ", target),
                    },
                )
            },
            _ => Some(FileWatcherEvent::ContentChanged { mtime, size }),
        }
    }
}

/// A change as it is reported: its kind, whether it touches the watched file,
/// and whether that file is there now.
#[verifier::ext_equal]
pub struct Report {
    pub change: FileChange,
    pub touches_target: bool,
    pub there_now: bool,
}

/// Whether the file counts as there after the first `n` reports.
pub open spec fn there_after_reports(start: bool, reports: Seq<Report>, n: nat) -> bool
    decreases n,
{
    if n == 0 || n > reports.len() {
        start
    } else {
        let before = there_after_reports(start, reports, (n - 1) as nat);
        let report = reports[n - 1];
        if report.touches_target {
            there_after(before, report.change, report.there_now)
        } else {
            before
        }
    }
}

/// What the `i`-th report is told as.
pub open spec fn told_of(start: bool, reports: Seq<Report>, i: int) -> Told {
    if reports[i].touches_target {
        told_as(
            there_after_reports(start, reports, i as nat),
            reports[i].change,
            reports[i].there_now,
        )
    } else {
        Told::Nothing
    }
}

proof fn stays_there(start: bool, reports: Seq<Report>, a: nat, b: nat)
    requires
        a <= b <= reports.len(),
        there_after_reports(start, reports, a),
        forall|k: int| a <= k < b ==> told_of(start, reports, k) != Told::Gone,
    ensures
        there_after_reports(start, reports, b),
    decreases b,
{
    if a < b {
        stays_there(start, reports, a, (b - 1) as nat);
        assert(told_of(start, reports, b - 1) != Told::Gone);
    }
}

/// Between two reports that tell that the file is back there is one that tells
/// that it is gone.
pub proof fn back_twice_means_gone_between(start: bool, reports: Seq<Report>, i: int, j: int)
    requires
        0 <= i < j < reports.len(),
        told_of(start, reports, i) == Told::Back,
        told_of(start, reports, j) == Told::Back,
    ensures
        exists|k: int| i < k < j && #[trigger] told_of(start, reports, k) == Told::Gone,
{
    if forall|k: int| i < k < j ==> #[trigger] told_of(start, reports, k) != Told::Gone {
        assert(there_after_reports(start, reports, (i + 1) as nat));
        stays_there(start, reports, (i + 1) as nat, j as nat);
    }
}

} // verus!
