//! Bookkeeping of a run: how many files turned out unique or duplicate, and
//! how many of their bytes had to be read.
use crate::possdupe::PossDupe;
use crate::trusted::{binary_size_text, to_human_readable};
use vstd::prelude::*;

verus! {

/// The counters of a run, as numbers.
pub struct Tally {
    /// Size of all files that were classified.
    pub bytes_considered: nat,
    /// Number of bytes read of them.
    pub bytes_read: nat,
    /// Number of bytes of them that did not have to be read.
    pub bytes_skipped: nat,
    /// Number of duplicate files; two identical files count as two.
    pub duplicate_files: nat,
    /// Number of unique files.
    pub unique_files: nat,
    /// Number of files that were read in part.
    pub partially_read: nat,
    /// Number of files that were read to the end.
    pub fully_read: nat,
    /// Number of files of which nothing was read.
    pub not_read: nat,
}

impl Tally {
    /// The counters before anything was counted.
    pub open spec fn zero() -> Tally {
        Tally {
            bytes_considered: 0,
            bytes_read: 0,
            bytes_skipped: 0,
            duplicate_files: 0,
            unique_files: 0,
            partially_read: 0,
            fully_read: 0,
            not_read: 0,
        }
    }

    /// The counters after `pd` was counted as a file, whatever its class.
    pub open spec fn with_file(self, pd: PossDupe) -> Tally {
        Tally {
            bytes_considered: self.bytes_considered + pd.file_len as nat,
            bytes_read: self.bytes_read + pd.bytes_read as nat,
            bytes_skipped: self.bytes_skipped + pd.remaining() as nat,
            partially_read: if pd.bytes_read > 0 && pd.remaining() != 0 {
                self.partially_read + 1
            } else {
                self.partially_read
            },
            fully_read: if pd.bytes_read > 0 && pd.remaining() == 0 {
                self.fully_read + 1
            } else {
                self.fully_read
            },
            not_read: if pd.bytes_read == 0 {
                self.not_read + 1
            } else {
                self.not_read
            },
            ..self
        }
    }

    /// The counters after `pd` was counted as a unique file.
    pub open spec fn with_unique(self, pd: PossDupe) -> Tally {
        Tally { unique_files: self.unique_files + 1, ..self.with_file(pd) }
    }

    /// The counters after `pd` was counted as a duplicate file.
    pub open spec fn with_duplicate(self, pd: PossDupe) -> Tally {
        Tally { duplicate_files: self.duplicate_files + 1, ..self.with_file(pd) }
    }

    /// The number of files counted.
    pub open spec fn total_files(self) -> nat {
        self.duplicate_files + self.unique_files
    }

    /// Every file counted is in exactly one of the three read classes.
    pub open spec fn balanced(self) -> bool {
        self.partially_read + self.fully_read + self.not_read == self.total_files()
    }
}

/// Counting a file keeps the counters balanced: the files read in part, read
/// to the end and not read add up to the uniques and duplicates.
pub proof fn law_counting_keeps_balance(t: Tally, pd: PossDupe)
    requires
        t.balanced(),
    ensures
        Tally::zero().balanced(),
        t.with_unique(pd).balanced(),
        t.with_duplicate(pd).balanced(),
        t.with_unique(pd).total_files() == t.total_files() + 1,
        t.with_duplicate(pd).total_files() == t.total_files() + 1,
{
}

/// What a run shows of its counters at the end, as plain values: the
/// numbers, and the byte totals written in binary units.
pub struct Summary {
    /// Number of files counted: duplicates and uniques.
    pub total_files: usize,
    /// Number of duplicate files.
    pub duplicate_files: usize,
    /// Number of unique files.
    pub unique_files: usize,
    /// Size of all files counted, in bytes.
    pub bytes_considered: u64,
    /// Number of bytes read of them.
    pub bytes_read: u64,
    /// Number of bytes of them that were not read.
    pub bytes_skipped: u64,
    /// `bytes_considered` in binary units.
    pub considered_text: String,
    /// `bytes_read` in binary units.
    pub read_text: String,
    /// `bytes_skipped` in binary units.
    pub skipped_text: String,
    /// Number of files that were read in part.
    pub partially_read: usize,
    /// Number of files that were read to the end.
    pub fully_read: usize,
    /// Number of files of which nothing was read.
    pub not_read: usize,
}

/// The counters of a run.
pub struct Stats {
    // Size of all files we might read
    total_bytes_considered: u64,
    // Number of bytes actually read from the file set
    total_bytes_read: u64,
    // Number of bytes we chose to not read because the files were unique in
    // size or because digests differed before the files were read to the end
    total_bytes_skipped: u64,
    // Number of duplicate files; two identical files count as two
    num_duplicate_files: usize,
    // Number of unique files, by size or by digest
    num_unique_files: usize,
    // Number of files which were read, but only partially so
    num_files_partially_read: usize,
    // Number of files which were read in their entirety
    num_files_fully_read: usize,
    // Number of files which had 0 bytes read
    num_files_not_read: usize,
}

impl View for Stats {
    type V = Tally;

    closed spec fn view(&self) -> Tally {
        Tally {
            bytes_considered: self.total_bytes_considered as nat,
            bytes_read: self.total_bytes_read as nat,
            bytes_skipped: self.total_bytes_skipped as nat,
            duplicate_files: self.num_duplicate_files as nat,
            unique_files: self.num_unique_files as nat,
            partially_read: self.num_files_partially_read as nat,
            fully_read: self.num_files_fully_read as nat,
            not_read: self.num_files_not_read as nat,
        }
    }
}

impl Stats {
    #[verifier::type_invariant]
    spec fn counts_add_up(self) -> bool {
        &&& self.num_files_partially_read + self.num_files_fully_read + self.num_files_not_read
            == self.num_duplicate_files + self.num_unique_files
        &&& self.num_duplicate_files + self.num_unique_files <= usize::MAX
    }

    /// Counters that have counted nothing.
    pub fn new() -> (stats: Stats)
        ensures
            stats@ == Tally::zero(),
    {
        Stats {
            total_bytes_considered: 0,
            total_bytes_read: 0,
            total_bytes_skipped: 0,
            num_duplicate_files: 0,
            num_unique_files: 0,
            num_files_partially_read: 0,
            num_files_fully_read: 0,
            num_files_not_read: 0,
        }
    }

    /// One more file like `pd` can be counted: no counter would overflow.
    pub open spec fn has_room(&self, pd: &PossDupe) -> bool {
        &&& self@.bytes_considered + pd.file_len <= u64::MAX
        &&& self@.bytes_read + pd.bytes_read <= u64::MAX
        &&& self@.bytes_skipped + pd.remaining() <= u64::MAX
        &&& self@.total_files() < usize::MAX
    }

    /// Tests whether one more file like `pd` can be counted.
    pub fn can_count(&self, pd: &PossDupe) -> (fits: bool)
        ensures
            fits == self.has_room(pd),
    {
        proof {
            use_type_invariant(self);
        }
        pd.file_len <= u64::MAX - self.total_bytes_considered && pd.bytes_read <= u64::MAX
            - self.total_bytes_read && pd.bytes_remaining() <= u64::MAX - self.total_bytes_skipped
            && self.num_duplicate_files < usize::MAX - self.num_unique_files
    }

    /// Counts `pd` as a unique file.
    pub fn unique(&mut self, pd: &PossDupe)
        requires
            old(self).has_room(pd),
        ensures
            final(self)@ == old(self)@.with_unique(*pd),
    {
        self.track(pd, true);
    }

    /// Counts `pd` as a duplicate file.
    pub fn duplicate(&mut self, pd: &PossDupe)
        requires
            old(self).has_room(pd),
        ensures
            final(self)@ == old(self)@.with_duplicate(*pd),
    {
        self.track(pd, false);
    }

    fn track(&mut self, pd: &PossDupe, unique: bool)
        requires
            old(self).has_room(pd),
        ensures
            final(self)@ == if unique {
                old(self)@.with_unique(*pd)
            } else {
                old(self)@.with_duplicate(*pd)
            },
    {
        proof {
            use_type_invariant(&*self);
        }
        let read_to_end = pd.bytes_remaining() == 0;
        let one_if_unique: usize = if unique {
            1
        } else {
            0
        };
        let one_if_partial: usize = if pd.bytes_read > 0 && !read_to_end {
            1
        } else {
            0
        };
        let one_if_full: usize = if pd.bytes_read > 0 && read_to_end {
            1
        } else {
            0
        };
        let one_if_unread: usize = if pd.bytes_read == 0 {
            1
        } else {
            0
        };
        *self = Stats {
            total_bytes_considered: self.total_bytes_considered + pd.file_len,
            total_bytes_read: self.total_bytes_read + pd.bytes_read,
            total_bytes_skipped: self.total_bytes_skipped + pd.bytes_remaining(),
            num_duplicate_files: self.num_duplicate_files + (1 - one_if_unique),
            num_unique_files: self.num_unique_files + one_if_unique,
            num_files_partially_read: self.num_files_partially_read + one_if_partial,
            num_files_fully_read: self.num_files_fully_read + one_if_full,
            num_files_not_read: self.num_files_not_read + one_if_unread,
        };
    }

    /// The numbers that the run shows at its end, with the byte totals also
    /// as text in binary units.
    pub fn summary(&self) -> (r: Result<Summary, String>)
        ensures
            self@.balanced(),
            r matches Ok(s) && {
                &&& s.total_files == self@.total_files()
                &&& s.duplicate_files == self@.duplicate_files
                &&& s.unique_files == self@.unique_files
                &&& s.bytes_considered == self@.bytes_considered
                &&& s.bytes_read == self@.bytes_read
                &&& s.bytes_skipped == self@.bytes_skipped
                &&& s.considered_text@ == binary_size_text(s.bytes_considered)
                &&& s.read_text@ == binary_size_text(s.bytes_read)
                &&& s.skipped_text@ == binary_size_text(s.bytes_skipped)
                &&& s.partially_read == self@.partially_read
                &&& s.fully_read == self@.fully_read
                &&& s.not_read == self@.not_read
            },
    {
        proof {
            use_type_invariant(self);
        }
        let considered_text = match to_human_readable(self.total_bytes_considered) {
            Ok(text) => text,
            Err(e) => {
                return Err(e);
            },
        };
        let read_text = match to_human_readable(self.total_bytes_read) {
            Ok(text) => text,
            Err(e) => {
                return Err(e);
            },
        };
        let skipped_text = match to_human_readable(self.total_bytes_skipped) {
            Ok(text) => text,
            Err(e) => {
                return Err(e);
            },
        };
        Ok(
            Summary {
                total_files: self.num_duplicate_files + self.num_unique_files,
                duplicate_files: self.num_duplicate_files,
                unique_files: self.num_unique_files,
                bytes_considered: self.total_bytes_considered,
                bytes_read: self.total_bytes_read,
                bytes_skipped: self.total_bytes_skipped,
                considered_text,
                read_text,
                skipped_text,
                partially_read: self.num_files_partially_read,
                fully_read: self.num_files_fully_read,
                not_read: self.num_files_not_read,
            },
        )
    }
}

} // verus!
