//! How a run is split into backups: a run records until its halting
//! condition is met, writing a backup after every `recordings_until_backup`
//! recordings (the last backup may hold fewer).
use vstd::prelude::*;

use crate::measurements::settings::HaltingCondition;

verus! {

/// What a worker needs to carry out one run.
#[derive(Clone, Debug)]
pub struct ExecutorParameters {
    pub halting_condition: HaltingCondition,
    pub recording_skip: u32,
    pub recordings_until_backup: u32,
    pub run_id: u32,
    pub parent_path: String,
    pub backup_number: u32,
}

/// The most recordings a run makes: the count of a `Recordings` condition,
/// `2^31` for a `Time` condition (which stops the run by the clock).
pub open spec fn recording_limit(h: HaltingCondition) -> u32 {
    match h {
        HaltingCondition::Recordings(rec) => rec,
        HaltingCondition::Time(_) => 0x8000_0000,
    }
}

/// Size of the next batch of recordings: a full batch, or what is left.
pub open spec fn batch_size(max_recordings: int, recordings_counter: int, recordings_until_backup: int) -> int {
    if max_recordings - recordings_counter >= recordings_until_backup {
        recordings_until_backup
    } else {
        max_recordings - recordings_counter
    }
}

/// The batches a run with `max_recordings` to make, `counter` made, and
/// batches of `per_backup` makes until it is done.
pub open spec fn remaining_batches(max_recordings: int, counter: int, per_backup: int) -> Seq<int>
    decreases max_recordings - counter,
{
    if counter >= max_recordings || per_backup <= 0 {
        Seq::empty()
    } else {
        let b = batch_size(max_recordings, counter, per_backup);
        seq![b] + remaining_batches(max_recordings, counter + b, per_backup)
    }
}

pub open spec fn seq_sum(s: Seq<int>) -> int
    decreases s.len(),
{
    if s.len() == 0 {
        0
    } else {
        s[0] + seq_sum(s.drop_first())
    }
}

/// With a positive batch size, the batches of a run add up to exactly the
/// recordings it has left, every batch is positive and at most the batch
/// size, and only the last one can be smaller.
pub proof fn law_batches_cover_recordings(max_recordings: int, counter: int, per_backup: int)
    requires
        0 <= counter <= max_recordings,
        per_backup > 0,
    ensures
        seq_sum(remaining_batches(max_recordings, counter, per_backup)) == max_recordings - counter,
        forall|i: int|
            0 <= i < remaining_batches(max_recordings, counter, per_backup).len() ==> 0
                < #[trigger] remaining_batches(max_recordings, counter, per_backup)[i] <= per_backup,
        forall|i: int|
            0 <= i < remaining_batches(max_recordings, counter, per_backup).len() - 1 ==> #[trigger] remaining_batches(
                max_recordings,
                counter,
                per_backup,
            )[i] == per_backup,
    decreases max_recordings - counter,
{
    if counter < max_recordings {
        let b = batch_size(max_recordings, counter, per_backup);
        law_batches_cover_recordings(max_recordings, counter + b, per_backup);
        let rest = remaining_batches(max_recordings, counter + b, per_backup);
        let all = remaining_batches(max_recordings, counter, per_backup);
        assert(all.drop_first() =~= rest);
        assert forall|i: int| 0 <= i < all.len() implies 0 < #[trigger] all[i] <= per_backup by {
            if i > 0 {
                assert(all[i] == rest[i - 1]);
            }
        }
        assert forall|i: int| 0 <= i < all.len() - 1 implies #[trigger] all[i] == per_backup by {
            if i > 0 {
                assert(all[i] == rest[i - 1]);
            } else if b < per_backup {
                assert(rest.len() == 0);
            }
        }
    }
}

/// A run's progress through its recordings.
#[derive(Clone, Copy, Debug)]
pub struct RecordingSchedule {
    pub max_recordings: u32,
    pub recordings_until_backup: u32,
    pub recordings_counter: u32,
    pub backup_number: u32,
}

impl RecordingSchedule {
    pub open spec fn wf(&self) -> bool {
        self.recordings_counter <= self.max_recordings
    }

    /// The schedule of a run that starts with no recording made and writes
    /// its first backup under number `backup_number`.
    pub fn new(exec_par: &ExecutorParameters, backup_number: u32) -> (res: Self)
        ensures
            res.wf(),
            res.max_recordings == recording_limit(exec_par.halting_condition),
            res.recordings_until_backup == exec_par.recordings_until_backup,
            res.recordings_counter == 0,
            res.backup_number == backup_number,
    {
        let max_recordings = match exec_par.halting_condition {
            HaltingCondition::Recordings(rec) => rec,
            HaltingCondition::Time(_) => 0x8000_0000u32,
        };
        RecordingSchedule {
            max_recordings,
            recordings_until_backup: exec_par.recordings_until_backup,
            recordings_counter: 0,
            backup_number,
        }
    }

    /// Whether recordings are left to make.
    pub fn has_recordings_left(&self) -> (res: bool)
        ensures
            res == (self.recordings_counter < self.max_recordings),
    {
        self.recordings_counter < self.max_recordings
    }

    /// How many recordings the next backup holds.
    pub fn next_batch(&self) -> (res: u32)
        requires
            self.recordings_counter < self.max_recordings,
        ensures
            res == batch_size(
                self.max_recordings as int,
                self.recordings_counter as int,
                self.recordings_until_backup as int,
            ),
            self.recordings_counter + res <= self.max_recordings,
    {
        if self.max_recordings - self.recordings_counter >= self.recordings_until_backup {
            self.recordings_until_backup
        } else {
            self.max_recordings - self.recordings_counter
        }
    }

    /// Counts a backup of `recordings` recordings as written.
    pub fn finish_batch(&mut self, recordings: u32)
        requires
            old(self).recordings_counter + recordings <= old(self).max_recordings,
            old(self).backup_number < u32::MAX,
        ensures
            final(self).recordings_counter == old(self).recordings_counter + recordings,
            final(self).backup_number == old(self).backup_number + 1,
            final(self).max_recordings == old(self).max_recordings,
            final(self).recordings_until_backup == old(self).recordings_until_backup,
            final(self).wf(),
    {
        self.recordings_counter = self.recordings_counter + recordings;
        self.backup_number = self.backup_number + 1;
    }
}

} // verus!
