//! Per-week and per-student operations on the record store: single
//! current-week marks and unmarks, week queries, and the week reset.

use vstd::prelude::*;
use crate::attendance::upsert;
use crate::manager::{has_student, rec_index, recs_view, status_of, AttendanceManager};
use crate::models::{Attendance, AttendanceError, RecordV, Status};
use crate::seq_facts::{
    lemma_filter_subset, lemma_filter_take_step, lemma_filter_unique_keys, lemma_remove_record,
};

verus! {

impl AttendanceManager {
    /// Marks the student with id `andrew_id` present for the current
    /// week; an id not on the roster is refused.
    pub fn mark_attended(&mut self, andrew_id: &str) -> (r: Result<(), AttendanceError>)
        requires
            old(self).wf(),
            old(self).is_active(),
        ensures
            final(self).wf(),
            has_student(old(self).roster_v(), andrew_id@) ==> r == Ok::<(), AttendanceError>(())
                && final(self).recs() == upsert(
                old(self).recs(),
                RecordV {
                    student: andrew_id@,
                    week: old(self).current_week,
                    status: Status::Present,
                },
            ),
            !has_student(old(self).roster_v(), andrew_id@) ==> r == Err::<(), AttendanceError>(
                AttendanceError::NotFound,
            ) && *final(self) == *old(self),
            final(self).roster@ == old(self).roster@,
            final(self).weeks@ == old(self).weeks@,
            final(self).current_week == old(self).current_week,
    {
        if self.find_student(andrew_id).is_none() {
            return Err(AttendanceError::NotFound);
        }
        let week = self.current_week;
        self.upsert_record(week, andrew_id, Status::Present);
        Ok(())
    }

    /// Marks the student with id `andrew_id` excused for the current
    /// week; an id not on the roster is refused.
    pub fn mark_excused_current(&mut self, andrew_id: &str) -> (r: Result<(), AttendanceError>)
        requires
            old(self).wf(),
            old(self).is_active(),
        ensures
            final(self).wf(),
            has_student(old(self).roster_v(), andrew_id@) ==> r == Ok::<(), AttendanceError>(())
                && final(self).recs() == upsert(
                old(self).recs(),
                RecordV {
                    student: andrew_id@,
                    week: old(self).current_week,
                    status: Status::Excused,
                },
            ),
            !has_student(old(self).roster_v(), andrew_id@) ==> r == Err::<(), AttendanceError>(
                AttendanceError::NotFound,
            ) && *final(self) == *old(self),
            final(self).roster@ == old(self).roster@,
            final(self).weeks@ == old(self).weeks@,
            final(self).current_week == old(self).current_week,
    {
        if self.find_student(andrew_id).is_none() {
            return Err(AttendanceError::NotFound);
        }
        let week = self.current_week;
        self.upsert_record(week, andrew_id, Status::Excused);
        Ok(())
    }

    /// Drops the present record of `andrew_id` for the current week, if
    /// one exists; anything else is a no-op.
    pub fn remove_attended(&mut self, andrew_id: &str)
        requires
            old(self).wf(),
        ensures
            final(self).wf(),
            status_of(old(self).recs(), andrew_id@, old(self).current_week) == Some(
                Status::Present,
            ) ==> final(self).recs() == old(self).recs().remove(
                rec_index(old(self).recs(), andrew_id@, old(self).current_week),
            ),
            status_of(old(self).recs(), andrew_id@, old(self).current_week) != Some(
                Status::Present,
            ) ==> *final(self) == *old(self),
            final(self).roster@ == old(self).roster@,
            final(self).weeks@ == old(self).weeks@,
            final(self).current_week == old(self).current_week,
    {
        self.remove_current_record(andrew_id, Status::Present);
    }

    /// Drops the excused record of `andrew_id` for the current week, if
    /// one exists; anything else is a no-op.
    pub fn remove_excused(&mut self, andrew_id: &str)
        requires
            old(self).wf(),
        ensures
            final(self).wf(),
            status_of(old(self).recs(), andrew_id@, old(self).current_week) == Some(
                Status::Excused,
            ) ==> final(self).recs() == old(self).recs().remove(
                rec_index(old(self).recs(), andrew_id@, old(self).current_week),
            ),
            status_of(old(self).recs(), andrew_id@, old(self).current_week) != Some(
                Status::Excused,
            ) ==> *final(self) == *old(self),
            final(self).roster@ == old(self).roster@,
            final(self).weeks@ == old(self).weeks@,
            final(self).current_week == old(self).current_week,
    {
        self.remove_current_record(andrew_id, Status::Excused);
    }

    /// Drops the current-week record of `andrew_id` when it carries
    /// exactly the given status.
    fn remove_current_record(&mut self, andrew_id: &str, status: Status)
        requires
            old(self).wf(),
        ensures
            final(self).wf(),
            status_of(old(self).recs(), andrew_id@, old(self).current_week) == Some(status)
                ==> final(self).recs() == old(self).recs().remove(
                rec_index(old(self).recs(), andrew_id@, old(self).current_week),
            ),
            status_of(old(self).recs(), andrew_id@, old(self).current_week) != Some(status)
                ==> *final(self) == *old(self),
            final(self).roster@ == old(self).roster@,
            final(self).weeks@ == old(self).weeks@,
            final(self).current_week == old(self).current_week,
    {
        let week = self.current_week;
        let ghost pre = *self;
        match self.find_record(andrew_id, week) {
            Some(i) => {
                if self.records[i].status == status {
                    proof {
                        lemma_remove_record(pre.recs(), i as int);
                    }
                    self.records.remove(i);
                    proof {
                        assert(self.recs() =~= pre.recs().remove(i as int));
                        assert forall|a: int| 0 <= a < self.recs().len() implies has_student(
                            self.roster_v(),
                            (#[trigger] self.recs()[a]).student,
                        ) && 1 <= self.recs()[a].week <= self.weeks@.len() by {
                            assert(pre.recs().contains(self.recs()[a]));
                            let b = choose|b: int|
                                0 <= b < pre.recs().len() && pre.recs()[b] == self.recs()[a];
                        }
                    }
                }
            },
            None => {},
        }
    }

    /// Returns all attendance records for a given week.
    pub fn get_week_attendance(&self, week_num: u32) -> (r: Vec<Attendance>)
        ensures
            recs_view(r@) == self.recs().filter(|rv: RecordV| rv.week == week_num),
    {
        let ghost pred = |rv: RecordV| rv.week == week_num;
        let mut out: Vec<Attendance> = Vec::new();
        let mut k: usize = 0;
        while k < self.records.len()
            invariant
                k <= self.records@.len(),
                pred == (|rv: RecordV| rv.week == week_num),
                recs_view(out@) =~= self.recs().take(k as int).filter(pred),
            decreases self.records@.len() - k,
        {
            proof {
                lemma_filter_take_step(self.recs(), k as int, pred);
            }
            if self.records[k].week == week_num {
                out.push(self.records[k].clone());
            }
            k = k + 1;
        }
        proof {
            assert(self.recs().take(self.records@.len() as int) =~= self.recs());
        }
        out
    }

    /// Clears all attendance records of a given week; records of other
    /// weeks are untouched.
    pub fn delete_week_attendance(&mut self, week_num: u32)
        requires
            old(self).wf(),
        ensures
            final(self).wf(),
            final(self).recs() == old(self).recs().filter(|rv: RecordV| rv.week != week_num),
            final(self).roster@ == old(self).roster@,
            final(self).weeks@ == old(self).weeks@,
            final(self).current_week == old(self).current_week,
    {
        let ghost pre = *self;
        let ghost pred = |rv: RecordV| rv.week != week_num;
        let mut kept: Vec<Attendance> = Vec::new();
        let mut k: usize = 0;
        while k < self.records.len()
            invariant
                *self == pre,
                pre.wf(),
                k <= self.records@.len(),
                pred == (|rv: RecordV| rv.week != week_num),
                recs_view(kept@) =~= pre.recs().take(k as int).filter(pred),
            decreases self.records@.len() - k,
        {
            proof {
                lemma_filter_take_step(pre.recs(), k as int, pred);
            }
            if self.records[k].week != week_num {
                kept.push(self.records[k].clone());
            }
            k = k + 1;
        }
        proof {
            assert(pre.recs().take(pre.records@.len() as int) =~= pre.recs());
        }
        self.records = kept;
        proof {
            lemma_filter_unique_keys(pre.recs(), pred);
            lemma_filter_subset(pre.recs(), pred);
            assert forall|a: int| 0 <= a < self.recs().len() implies has_student(
                self.roster_v(),
                (#[trigger] self.recs()[a]).student,
            ) && 1 <= self.recs()[a].week <= self.weeks@.len() by {
                assert(pre.recs().contains(self.recs()[a]));
                let b = choose|b: int|
                    0 <= b < pre.recs().len() && pre.recs()[b] == self.recs()[a];
            }
        }
    }

    /// Resets the current week: clears every record of that week.
    pub fn reset_weekly_data(&mut self)
        requires
            old(self).wf(),
        ensures
            final(self).wf(),
            final(self).recs() == old(self).recs().filter(
                (|rv: RecordV| rv.week != old(self).current_week),
            ),
            final(self).roster@ == old(self).roster@,
            final(self).weeks@ == old(self).weeks@,
            final(self).current_week == old(self).current_week,
    {
        let week = self.current_week;
        self.delete_week_attendance(week);
    }
}

} // verus!
