//! The week ledger: one-time initialization from a start date and a
//! valid-week mask, appending the next week, and moving the current-week
//! pointer with a guarded retroactive move.

use vstd::prelude::*;
use crate::date::{Date, MAX_DAY};
use crate::models::{AttendanceError, RecordV, Week};
use crate::manager::AttendanceManager;

verus! {

/// How many of the first `k` mask positions are valid.
pub open spec fn count_true_upto(mask: Seq<bool>, k: int) -> int
    decreases k,
{
    if k <= 0 {
        0
    } else {
        count_true_upto(mask, k - 1) + (if mask[k - 1] {
            1int
        } else {
            0int
        })
    }
}

/// How many mask positions are valid.
pub open spec fn count_true(mask: Seq<bool>) -> int {
    count_true_upto(mask, mask.len() as int)
}

/// The count of valid positions never exceeds the positions walked.
pub proof fn lemma_count_true_bound(mask: Seq<bool>, k: int)
    requires
        0 <= k <= mask.len(),
    ensures
        0 <= count_true_upto(mask, k) <= k,
    decreases k,
{
    if k > 0 {
        lemma_count_true_bound(mask, k - 1);
    }
}

/// Walking further never decreases the count of valid positions.
pub proof fn lemma_count_true_mono(mask: Seq<bool>, a: int, b: int)
    requires
        0 <= a <= b <= mask.len(),
    ensures
        count_true_upto(mask, a) <= count_true_upto(mask, b),
    decreases b - a,
{
    if a < b {
        lemma_count_true_mono(mask, a, b - 1);
    }
}

/// The outcome of moving the current-week pointer: either it moved, or
/// a retroactive move was declined — a no-op, not an error.
#[derive(Clone, Copy, Debug, PartialEq, Eq, Structural)]
pub enum SetWeekOutcome {
    Changed,
    Cancelled,
}

impl AttendanceManager {
    /// Rebuilds the week ledger from a start date and a valid-week mask:
    /// for each mask position, valid or not, the calendar first advances
    /// by seven days, and then a week row (sequential 1-indexed id, the
    /// advanced date) is appended if the position is valid.  Existing week rows are
    /// cleared first, and with them all attendance records, so that no
    /// record refers to a week of a discarded calendar.  The current
    /// week becomes week 1 when any position is valid, else the ledger
    /// stays uninitialized.
    pub fn initialize_weeks(&mut self, start_date: Date, valid_weeks: &Vec<bool>)
        requires
            old(self).wf(),
            start_date.in_range(),
            start_date.day + 7 * valid_weeks@.len() <= MAX_DAY,
            valid_weeks@.len() < 0xFFFF_FFFFusize,
        ensures
            final(self).wf(),
            final(self).weeks@.len() == count_true(valid_weeks@),
            forall|p: int|
                0 <= p < valid_weeks@.len() && valid_weeks@[p] ==> (#[trigger] final(self).weeks@[count_true_upto(valid_weeks@, p)]).id == count_true_upto(valid_weeks@, p)
                    + 1 && final(self).weeks@[count_true_upto(valid_weeks@, p)].date.day
                    == start_date.day + 7 * p + 7,
            forall|i: int|
                0 <= i < final(self).weeks@.len() ==> (#[trigger] final(self).weeks@[i]).id == i + 1,
            final(self).current_week == (if count_true(valid_weeks@) > 0 {
                1u32
            } else {
                0u32
            }),
            final(self).records@.len() == 0,
            final(self).roster@ == old(self).roster@,
    {
        self.weeks.clear();
        self.records.clear();
        let ghost mask = valid_weeks@;
        let mut cur = start_date;
        let mut p: usize = 0;
        let n = valid_weeks.len();
        while p < n
            invariant
                n == mask.len(),
                mask == valid_weeks@,
                n < 0xFFFF_FFFFusize,
                p <= n,
                start_date.day + 7 * n <= MAX_DAY,
                crate::date::MIN_DAY <= start_date.day,
                cur.day == start_date.day + 7 * p,
                self.weeks@.len() == count_true_upto(mask, p as int),
                forall|q: int|
                    0 <= q < p && mask[q] ==> (#[trigger] self.weeks@[count_true_upto(mask, q)]).id
                        == count_true_upto(mask, q) + 1 && self.weeks@[count_true_upto(
                        mask,
                        q,
                    )].date.day == start_date.day + 7 * q + 7,
                forall|i: int|
                    0 <= i < self.weeks@.len() ==> (#[trigger] self.weeks@[i]).id == i + 1
                        && self.weeks@[i].date.in_range(),
                self.records@.len() == 0,
                self.roster@ == old(self).roster@,
                self.current_week == old(self).current_week,
            decreases n - p,
        {
            proof {
                lemma_count_true_bound(mask, p as int);
            }
            cur = cur.plus_week();
            if valid_weeks[p] {
                let id = (self.weeks.len() as u32) + 1;
                self.weeks.push(Week { id, date: cur });
            }
            proof {
                assert forall|q: int| 0 <= q < p + 1 && mask[q] implies (#[trigger] self.weeks@[
                count_true_upto(mask, q)]).id == count_true_upto(mask, q) + 1 && self.weeks@[
                count_true_upto(mask, q)].date.day == start_date.day + 7 * q + 7 by {
                    lemma_count_true_bound(mask, q);
                    if q < p {
                        lemma_count_true_mono(mask, q + 1, p as int);
                        assert(count_true_upto(mask, q + 1) == count_true_upto(mask, q) + 1);
                    }
                }
            }
            p = p + 1;
        }
        self.current_week = if self.weeks.len() > 0 {
            1
        } else {
            0
        };
        proof {
            lemma_count_true_bound(mask, mask.len() as int);
            assert(self.recs() =~= Seq::<RecordV>::empty());
        }
    }

    /// Appends the next week, with id one past the current row count and
    /// a date one week after the last, and moves the current week to it.
    pub fn bump_week(&mut self)
        requires
            old(self).wf(),
            old(self).is_active(),
            old(self).weeks@.last().date.day + 7 <= MAX_DAY,
            old(self).weeks@.len() + 1 < 0xFFFF_FFFFusize,
        ensures
            final(self).wf(),
            final(self).weeks@ == old(self).weeks@.push(
                Week {
                    id: (old(self).weeks@.len() + 1) as u32,
                    date: Date { day: (old(self).weeks@.last().date.day + 7) as i64 },
                },
            ),
            final(self).current_week == old(self).weeks@.len() + 1,
            final(self).roster@ == old(self).roster@,
            final(self).records@ == old(self).records@,
    {
        let n32 = self.weeks.len() as u32;
        let last_date = self.weeks[self.weeks.len() - 1].date;
        let next = Week { id: n32 + 1, date: last_date.plus_week() };
        self.weeks.push(next);
        self.current_week = n32 + 1;
        proof {
            assert(forall|i: int|
                0 <= i < old(self).weeks@.len() ==> self.weeks@[i] == old(self).weeks@[i]);
            assert(self.weeks@.last().id == old(self).weeks@.len() + 1);
        }
    }

    /// Moves the current-week pointer to `new_week`.  An id that names
    /// no week is refused.  A move to a week at or before the current
    /// one only takes effect when the caller passes the user's explicit
    /// confirmation; declined confirmation cancels the move, leaving the
    /// state unchanged — an outcome, not an error.
    pub fn set_current_week(&mut self, new_week: u32, confirmed: bool) -> (r: Result<
        SetWeekOutcome,
        AttendanceError,
    >)
        requires
            old(self).wf(),
        ensures
            final(self).wf(),
            !(1 <= new_week <= old(self).weeks@.len()) ==> r == Err::<
                SetWeekOutcome,
                AttendanceError,
            >(AttendanceError::NonexistentWeek(new_week)) && *final(self) == *old(self),
            (1 <= new_week <= old(self).weeks@.len()) && new_week <= old(self).current_week
                && !confirmed ==> r == Ok::<SetWeekOutcome, AttendanceError>(
                SetWeekOutcome::Cancelled,
            ) && *final(self) == *old(self),
            (1 <= new_week <= old(self).weeks@.len()) && (new_week > old(self).current_week
                || confirmed) ==> r == Ok::<SetWeekOutcome, AttendanceError>(
                SetWeekOutcome::Changed,
            ) && final(self).current_week == new_week && final(self).roster@ == old(self).roster@
                && final(self).weeks@ == old(self).weeks@ && final(self).records@ == old(
                self,
            ).records@,
    {
        if new_week < 1 || new_week as usize > self.weeks.len() {
            return Err(AttendanceError::NonexistentWeek(new_week));
        }
        if new_week <= self.current_week && !confirmed {
            return Ok(SetWeekOutcome::Cancelled);
        }
        self.current_week = new_week;
        Ok(SetWeekOutcome::Changed)
    }

    /// Whether moving the pointer to `new_week` is a retroactive move,
    /// the kind that only takes effect with explicit confirmation.
    pub fn is_retroactive_move(&self, new_week: u32) -> (r: bool)
        ensures
            r == (new_week <= self.current_week),
    {
        new_week <= self.current_week
    }

    /// The current week id; 0 while the ledger is uninitialized.
    pub fn get_current_week(&self) -> (r: u32)
        ensures
            r == self.current_week,
    {
        self.current_week
    }
}

} // verus!
