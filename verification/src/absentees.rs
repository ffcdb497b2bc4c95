//! Selecting absentees for notification and display.  An absence here
//! is an unexcused week: the student carries neither a present nor an
//! excused record for it, whether the absence was left implicit or
//! materialized as an explicit absent record — both count alike, and
//! exactly as the per-week unexcused listing counts them.

use vstd::prelude::*;
use crate::aggregate::{lemma_unexcused_since_bound, unexcused_since, unexcused_since_upto};
use crate::date::Date;
use crate::manager::AttendanceManager;
use crate::models::{RecordV, Status, Student};
use crate::seq_facts::lemma_filter_take_step;
use crate::stats::{dated_week, unexcused};

verus! {

impl AttendanceManager {
    /// The explicit absent records of one student for weeks at or after
    /// `after_week`, each joined with its week's date, in record order;
    /// this lists the materialized rows themselves, for display.
    pub fn absences_since(&self, student_id: &str, after_week: u32) -> (r: Vec<(u32, Date)>)
        requires
            self.wf(),
        ensures
            r@ == self.recs().filter(
                (|rv: RecordV| rv.student == student_id@ && rv.status == Status::Absent && rv.week
                    >= after_week),
            ).map_values(|rv: RecordV| dated_week(self.weeks@, rv)),
    {
        let ghost pred = |rv: RecordV| rv.student == student_id@ && rv.status == Status::Absent
            && rv.week >= after_week;
        let ghost f = |rv: RecordV| dated_week(self.weeks@, rv);
        let mut out: Vec<(u32, Date)> = Vec::new();
        let mut k: usize = 0;
        while k < self.records.len()
            invariant
                self.wf(),
                k <= self.records@.len(),
                pred == (|rv: RecordV| rv.student == student_id@ && rv.status == Status::Absent
                    && rv.week >= after_week),
                f == (|rv: RecordV| dated_week(self.weeks@, rv)),
                out@ =~= self.recs().take(k as int).filter(pred).map_values(f),
            decreases self.records@.len() - k,
        {
            proof {
                lemma_filter_take_step(self.recs(), k as int, pred);
            }
            let matches_status = match self.records[k].status {
                Status::Absent => true,
                _ => false,
            };
            if matches_status && self.records[k].week >= after_week && crate::text::str_eq(
                self.records[k].student.as_str(),
                student_id,
            ) {
                proof {
                    assert(1 <= self.recs()[k as int].week <= self.weeks@.len());
                }
                let w = self.records[k].week;
                let d = self.weeks[(w - 1) as usize].date;
                out.push((w, d));
            }
            k = k + 1;
        }
        proof {
            assert(self.recs().take(self.records@.len() as int) =~= self.recs());
        }
        out
    }

    /// How many ledger weeks at or after `after_week` the student at
    /// roster position `k` spent unexcused.
    fn count_unexcused_since(&self, k: usize, after_week: u32) -> (r: usize)
        requires
            self.wf(),
            k < self.roster@.len(),
        ensures
            r as int == unexcused_since(
                self.recs(),
                self.roster_v()[k as int].id,
                after_week,
                self.weeks@.len() as int,
            ),
    {
        let sid = self.roster[k].id.clone();
        let lo: u32 = if after_week < 1 {
            1
        } else {
            after_week
        };
        let n = self.weeks.len();
        if lo as usize > n {
            return 0;
        }
        let mut cnt: usize = 0;
        let mut w: u32 = lo;
        while (w as usize) <= n
            invariant
                self.wf(),
                sid@ == self.roster_v()[k as int].id,
                k < self.roster@.len(),
                n == self.weeks@.len(),
                1 <= lo <= w,
                w as int <= n + 1,
                cnt as int == unexcused_since_upto(self.recs(), sid@, lo as int, w - 1),
                cnt as int <= w - lo,
            decreases n + 1 - w,
        {
            proof {
                lemma_unexcused_since_bound(self.recs(), sid@, lo as int, w - 1);
            }
            let is_absent = match self.find_record(sid.as_str(), w) {
                Some(i) => {
                    let st = self.records[i].status;
                    st != Status::Present && st != Status::Excused
                },
                None => true,
            };
            if is_absent {
                cnt = cnt + 1;
            }
            w = w + 1;
        }
        cnt
    }

    /// The students with at least `min_absences` unexcused ledger weeks
    /// at or after `after_week`, each with their count, in roster
    /// order; a week with no record counts like one with an explicit
    /// absent record.
    pub fn cumulative_absentees(&self, after_week: u32, min_absences: usize) -> (r: Vec<
        (Student, usize),
    >)
        requires
            self.wf(),
        ensures
            r@ == self.roster@.filter(
                (|s: Student| unexcused_since(
                    self.recs(),
                    s@.id,
                    after_week,
                    self.weeks@.len() as int,
                ) >= min_absences),
            ).map_values(
                |s: Student| (
                    s,
                    unexcused_since(
                        self.recs(),
                        s@.id,
                        after_week,
                        self.weeks@.len() as int,
                    ) as usize,
                ),
            ),
    {
        let ghost pred = |s: Student| unexcused_since(
            self.recs(),
            s@.id,
            after_week,
            self.weeks@.len() as int,
        ) >= min_absences;
        let ghost f = |s: Student| (
            s,
            unexcused_since(self.recs(), s@.id, after_week, self.weeks@.len() as int) as usize,
        );
        let mut out: Vec<(Student, usize)> = Vec::new();
        let mut k: usize = 0;
        while k < self.roster.len()
            invariant
                self.wf(),
                k <= self.roster@.len(),
                pred == (|s: Student| unexcused_since(
                    self.recs(),
                    s@.id,
                    after_week,
                    self.weeks@.len() as int,
                ) >= min_absences),
                f == (|s: Student| (
                    s,
                    unexcused_since(
                        self.recs(),
                        s@.id,
                        after_week,
                        self.weeks@.len() as int,
                    ) as usize,
                )),
                out@ =~= self.roster@.take(k as int).filter(pred).map_values(f),
            decreases self.roster@.len() - k,
        {
            proof {
                lemma_filter_take_step(self.roster@, k as int, pred);
            }
            let cnt = self.count_unexcused_since(k, after_week);
            if cnt >= min_absences {
                out.push((self.roster[k].clone(), cnt));
            }
            k = k + 1;
        }
        proof {
            assert(self.roster@.take(self.roster@.len() as int) =~= self.roster@);
        }
        out
    }

    /// The students who count as unexcused absentees for the given
    /// ledger week, in roster order: no present and no excused record,
    /// with or without an explicit absent record.  A week id outside
    /// the ledger selects nobody.
    pub fn weekly_absentees(&self, week: u32) -> (r: Vec<Student>)
        requires
            self.wf(),
        ensures
            1 <= week <= self.weeks@.len() ==> r@ == self.roster@.filter(
                (|s: Student| unexcused(self.recs(), s@.id, week)),
            ),
            !(1 <= week <= self.weeks@.len()) ==> r@ == Seq::<Student>::empty(),
    {
        if week < 1 || week as usize > self.weeks.len() {
            let out: Vec<Student> = Vec::new();
            return out;
        }
        let ghost pred = |s: Student| unexcused(self.recs(), s@.id, week);
        let mut out: Vec<Student> = Vec::new();
        let mut k: usize = 0;
        while k < self.roster.len()
            invariant
                self.wf(),
                k <= self.roster@.len(),
                pred == (|s: Student| unexcused(self.recs(), s@.id, week)),
                out@ =~= self.roster@.take(k as int).filter(pred),
            decreases self.roster@.len() - k,
        {
            proof {
                lemma_filter_take_step(self.roster@, k as int, pred);
            }
            let keep = match self.find_record(self.roster[k].id.as_str(), week) {
                Some(i) => {
                    let st = self.records[i].status;
                    st != Status::Present && st != Status::Excused
                },
                None => true,
            };
            if keep {
                out.push(self.roster[k].clone());
            }
            k = k + 1;
        }
        proof {
            assert(self.roster@.take(self.roster@.len() as int) =~= self.roster@);
        }
        out
    }
}

/// The email addresses of a selection of students, in order.
pub fn recipient_emails(students: &Vec<Student>) -> (r: Vec<String>)
    ensures
        r@.len() == students@.len(),
        forall|i: int| 0 <= i < r@.len() ==> (#[trigger] r@[i])@ == students@[i]@.email,
{
    let mut out: Vec<String> = Vec::new();
    let mut k: usize = 0;
    while k < students.len()
        invariant
            k <= students@.len(),
            out@.len() == k,
            forall|i: int| 0 <= i < k ==> (#[trigger] out@[i])@ == students@[i]@.email,
        decreases students@.len() - k,
    {
        out.push(students[k].email.clone());
        k = k + 1;
    }
    out
}

} // verus!
