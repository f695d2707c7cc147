//! Deleting the files of a room once they are old.
use crate::text::{decimal, decimal_text, join};
use vstd::prelude::*;

verus! {

/// How long it is from one cleanup to the next, in seconds.
pub const CLEANUP_INTERVAL_SECS: u64 = 300;

/// How long a file is kept, in seconds.
pub const FILE_RETENTION_SECS: u64 = 3600;

/// A time that a file system gives for a file.
#[derive(Clone, Copy, Debug, PartialEq, Eq, Structural)]
pub enum Stamp {
    /// It gives none.
    Unavailable,
    /// A time before the Unix epoch.
    BeforeEpoch,
    /// The whole seconds since the Unix epoch.
    Secs(u64),
}

/// What a file system says of an entry of the directory for incoming files.
#[derive(Clone, Copy, Debug)]
pub struct FileEntry {
    /// Whether it is a file.
    pub is_file: bool,
    /// When it was created.
    pub created: Stamp,
    /// When it was last modified.
    pub modified: Stamp,
}

impl FileEntry {
    /// The time that counts: that of its creation where there is one.
    pub open spec fn stamp(self) -> Stamp {
        if self.created == Stamp::Unavailable {
            self.modified
        } else {
            self.created
        }
    }

    /// Whether it is a file that has been kept long enough at the time `now`.
    pub open spec fn is_expired(self, now: u64) -> bool {
        self.is_file && (self.stamp() matches Stamp::Secs(secs) && now - secs > FILE_RETENTION_SECS)
    }
}

/// Whether an entry is a file that has been kept long enough at the time `now`.
pub fn has_expired(entry: &FileEntry, now: u64) -> (r: bool)
    ensures
        r == entry.is_expired(now),
        r <==> entry.is_file && (match entry.created {
            Stamp::Secs(secs) => now > secs + 3600,
            Stamp::BeforeEpoch => false,
            Stamp::Unavailable => entry.modified matches Stamp::Secs(secs) && now > secs + 3600,
        }),
{
    if !entry.is_file {
        return false;
    }
    let stamp: Stamp = match entry.created {
        Stamp::Unavailable => entry.modified,
        _ => entry.created,
    };
    match stamp {
        Stamp::Secs(secs) => now.saturating_sub(secs) > FILE_RETENTION_SECS,
        _ => false,
    }
}

/// The entries that are to be deleted at the time `now`, by their numbers.
pub fn expired_files(entries: &Vec<FileEntry>, now: u64) -> (r: Vec<usize>)
    ensures
        forall|i: int, j: int| 0 <= i < j < r@.len() ==> #[trigger] r@[i] < #[trigger] r@[j],
        forall|n: usize| #[trigger]
            r@.contains(n) <==> n < entries@.len() && entries@[n as int].is_expired(now),
{
    let mut expired: Vec<usize> = Vec::new();
    let mut n: usize = 0;
    while n < entries.len()
        invariant
            n <= entries@.len(),
            forall|i: int| 0 <= i < expired@.len() ==> #[trigger] expired@[i] < n,
            forall|i: int, j: int|
                0 <= i < j < expired@.len() ==> #[trigger] expired@[i] < #[trigger] expired@[j],
            forall|m: usize| #[trigger]
                expired@.contains(m) <==> m < n && entries@[m as int].is_expired(now),
        decreases entries@.len() - n,
    {
        let ghost before = expired@;
        if has_expired(&entries[n], now) {
            expired.push(n);
            proof {
                assert forall|m: usize| #[trigger]
                    expired@.contains(m) <==> before.contains(m) || m == n by {
                    if before.contains(m) {
                        let i = choose|i: int| 0 <= i < before.len() && before[i] == m;
                        assert(expired@[i] == m);
                    }
                    if m == n {
                        assert(expired@[before.len() as int] == m);
                    }
                }
            }
        }
        n = n + 1;
    }
    expired
}

/// What is said of a cleanup that deleted so many files.
pub fn cleanup_report(deleted: u64) -> (r: String)
    ensures
        r@ == "Cleaned up "@ + decimal(deleted as nat) + " old file(s)"@,
{
    let digits: String = decimal_text(deleted);
    let head: String = join("Cleaned up ", digits.as_str());
    join(head.as_str(), " old file(s)")
}

/// A file is to be deleted when more than an hour has passed since its time stamp,
/// however long it has been.
pub proof fn old_file_is_deleted(entry: FileEntry, secs: u64, now: u64)
    requires
        entry.is_file,
        entry.created == Stamp::Secs(secs) || (entry.created == Stamp::Unavailable
            && entry.modified == Stamp::Secs(secs)),
        now > secs + 3600,
    ensures
        entry.is_expired(now),
{
}

/// A file is kept while its time stamp is not more than an hour old, by its
/// creation where that is known.
pub proof fn new_file_is_kept(entry: FileEntry, secs: u64, now: u64)
    requires
        entry.created == Stamp::Secs(secs) || (entry.created == Stamp::Unavailable
            && entry.modified == Stamp::Secs(secs)),
        now <= secs + 3600,
    ensures
        !entry.is_expired(now),
{
}

/// A file is kept for an hour from its time stamp, whatever the clock showed
/// before it.
pub proof fn young_file_is_kept(entry: FileEntry, secs: u64, now: u64)
    requires
        entry.stamp() == Stamp::Secs(secs),
        now <= secs + FILE_RETENTION_SECS,
    ensures
        !entry.is_expired(now),
{
}

/// A file that is to be deleted stays so.
pub proof fn expired_file_stays_expired(entry: FileEntry, now: u64, later: u64)
    requires
        entry.is_expired(now),
        now <= later,
    ensures
        entry.is_expired(later),
{
}

/// What is no file, or has no time stamp that can be read, is never deleted.
pub proof fn undated_entry_is_kept(entry: FileEntry, now: u64)
    requires
        !entry.is_file || !(entry.stamp() is Secs),
    ensures
        !entry.is_expired(now),
{
}

} // verus!
