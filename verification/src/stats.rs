//! Read-only statistics over the record store: the per-student join with
//! week dates, per-week tallies, and the current week's unexcused
//! absentees.

use vstd::prelude::*;
use crate::date::Date;
use crate::manager::{status_of, str_views, AttendanceManager};
use crate::models::{RecordV, Status, Student, StudentAttendance, Week};
use crate::seq_facts::lemma_filter_take_step;
use crate::text::str_eq;

verus! {

/// A record joined with its week's calendar date.
pub open spec fn dated_week(weeks: Seq<Week>, rv: RecordV) -> (u32, Date) {
    (rv.week, weeks[rv.week - 1].date)
}

/// Whether the pair (`sid`, `w`) counts as an unexcused absence: the
/// student carries neither a present nor an excused record for that
/// week; an explicit absent record and no record at all count alike.
pub open spec fn unexcused(rs: Seq<RecordV>, sid: Seq<char>, w: u32) -> bool {
    status_of(rs, sid, w) != Some(Status::Present) && status_of(rs, sid, w) != Some(
        Status::Excused,
    )
}

/// How many records of week `w` carry status `st`.
pub open spec fn week_status_count(rs: Seq<RecordV>, w: u32, st: Status) -> int {
    rs.filter(|rv: RecordV| rv.week == w && rv.status == st).len() as int
}

impl AttendanceManager {
    /// Retrieves a student's attendance over the recorded semester,
    /// each record joined with its week's date, partitioned by status.
    pub fn get_student_attendance(&self, student_id: &str) -> (r: StudentAttendance)
        requires
            self.wf(),
        ensures
            r.present@ == self.recs().filter(
                (|rv: RecordV| rv.student == student_id@ && rv.status == Status::Present),
            ).map_values(|rv: RecordV| dated_week(self.weeks@, rv)),
            r.excused@ == self.recs().filter(
                (|rv: RecordV| rv.student == student_id@ && rv.status == Status::Excused),
            ).map_values(|rv: RecordV| dated_week(self.weeks@, rv)),
            r.absent@ == self.recs().filter(
                (|rv: RecordV| rv.student == student_id@ && rv.status == Status::Absent),
            ).map_values(|rv: RecordV| dated_week(self.weeks@, rv)),
    {
        let ghost p_p = |rv: RecordV| rv.student == student_id@ && rv.status == Status::Present;
        let ghost p_e = |rv: RecordV| rv.student == student_id@ && rv.status == Status::Excused;
        let ghost p_a = |rv: RecordV| rv.student == student_id@ && rv.status == Status::Absent;
        let ghost f = |rv: RecordV| dated_week(self.weeks@, rv);
        let mut present: Vec<(u32, Date)> = Vec::new();
        let mut excused: Vec<(u32, Date)> = Vec::new();
        let mut absent: Vec<(u32, Date)> = Vec::new();
        let mut k: usize = 0;
        while k < self.records.len()
            invariant
                self.wf(),
                k <= self.records@.len(),
                p_p == (|rv: RecordV| rv.student == student_id@ && rv.status == Status::Present),
                p_e == (|rv: RecordV| rv.student == student_id@ && rv.status == Status::Excused),
                p_a == (|rv: RecordV| rv.student == student_id@ && rv.status == Status::Absent),
                f == (|rv: RecordV| dated_week(self.weeks@, rv)),
                present@ =~= self.recs().take(k as int).filter(p_p).map_values(f),
                excused@ =~= self.recs().take(k as int).filter(p_e).map_values(f),
                absent@ =~= self.recs().take(k as int).filter(p_a).map_values(f),
            decreases self.records@.len() - k,
        {
            proof {
                lemma_filter_take_step(self.recs(), k as int, p_p);
                lemma_filter_take_step(self.recs(), k as int, p_e);
                lemma_filter_take_step(self.recs(), k as int, p_a);
            }
            if str_eq(self.records[k].student.as_str(), student_id) {
                proof {
                    assert(1 <= self.recs()[k as int].week <= self.weeks@.len());
                }
                let w = self.records[k].week;
                let d = self.weeks[(w - 1) as usize].date;
                proof {
                    assert((w, d) == dated_week(self.weeks@, self.recs()[k as int]));
                }
                match self.records[k].status {
                    Status::Present => present.push((w, d)),
                    Status::Excused => excused.push((w, d)),
                    Status::Absent => absent.push((w, d)),
                }
            }
            k = k + 1;
        }
        proof {
            assert(self.recs().take(self.records@.len() as int) =~= self.recs());
        }
        StudentAttendance { present, excused, absent }
    }

    /// The students of the roster, in roster order, who count as
    /// unexcused absentees for the current week.
    pub fn get_unexcused_absentees(&self) -> (r: Vec<Student>)
        requires
            self.wf(),
        ensures
            r@ == self.roster@.filter(
                (|s: Student| unexcused(self.recs(), s@.id, self.current_week)),
            ),
    {
        let ghost pred = |s: Student| unexcused(self.recs(), s@.id, self.current_week);
        let week = self.current_week;
        let mut out: Vec<Student> = Vec::new();
        let mut k: usize = 0;
        while k < self.roster.len()
            invariant
                self.wf(),
                week == self.current_week,
                k <= self.roster@.len(),
                pred == (|s: Student| unexcused(self.recs(), s@.id, self.current_week)),
                out@ =~= self.roster@.take(k as int).filter(pred),
            decreases self.roster@.len() - k,
        {
            proof {
                lemma_filter_take_step(self.roster@, k as int, pred);
            }
            let keep = match self.find_record(self.roster[k].id.as_str(), week) {
                Some(i) => {
                    let st = self.records[i].status;
                    st != Status::Present && st != Status::Excused
                },
                None => true,
            };
            if keep {
                out.push(self.roster[k].clone());
            }
            k = k + 1;
        }
        proof {
            assert(self.roster@.take(self.roster@.len() as int) =~= self.roster@);
        }
        out
    }

    /// The per-week tallies of excused and attended records, one entry
    /// per ledger week, in week order.
    pub fn get_weekly_summary(&self) -> (r: Vec<(u32, (usize, usize))>)
        requires
            self.wf(),
        ensures
            r@.len() == self.weeks@.len(),
            forall|i: int|
                0 <= i < r@.len() ==> #[trigger] r@[i] == (
                    ((i + 1) as u32),
                    (
                        week_status_count(self.recs(), (i + 1) as u32, Status::Excused) as usize,
                        week_status_count(self.recs(), (i + 1) as u32, Status::Present) as usize,
                    ),
                ),
    {
        let mut out: Vec<(u32, (usize, usize))> = Vec::new();
        let mut i: usize = 0;
        let n = self.weeks.len();
        while i < n
            invariant
                self.wf(),
                n == self.weeks@.len(),
                i <= n,
                out@.len() == i,
                forall|j: int|
                    0 <= j < i ==> #[trigger] out@[j] == (
                        ((j + 1) as u32),
                        (
                            week_status_count(self.recs(), (j + 1) as u32, Status::Excused)
                                as usize,
                            week_status_count(self.recs(), (j + 1) as u32, Status::Present)
                                as usize,
                        ),
                    ),
            decreases n - i,
        {
            let w = (i as u32) + 1;
            let ex = self.count_week_status(w, Status::Excused);
            let at = self.count_week_status(w, Status::Present);
            out.push((w, (ex, at)));
            i = i + 1;
        }
        out
    }

    /// The per-week partition of one ledger week, read off the record
    /// store: who is excused and who attended, in record order.
    pub fn weekly_data_for(&self, week: u32) -> (r: WeeklyData)
        ensures
            r.week == week,
            str_views(r.excused@) == self.recs().filter(
                (|rv: RecordV| rv.week == week && rv.status == Status::Excused),
            ).map_values(|rv: RecordV| rv.student),
            str_views(r.attended@) == self.recs().filter(
                (|rv: RecordV| rv.week == week && rv.status == Status::Present),
            ).map_values(|rv: RecordV| rv.student),
    {
        let ghost p_e = |rv: RecordV| rv.week == week && rv.status == Status::Excused;
        let ghost p_a = |rv: RecordV| rv.week == week && rv.status == Status::Present;
        let ghost f = |rv: RecordV| rv.student;
        let mut out = WeeklyData::new(week);
        let mut k: usize = 0;
        while k < self.records.len()
            invariant
                k <= self.records@.len(),
                out.week == week,
                p_e == (|rv: RecordV| rv.week == week && rv.status == Status::Excused),
                p_a == (|rv: RecordV| rv.week == week && rv.status == Status::Present),
                f == (|rv: RecordV| rv.student),
                str_views(out.excused@) =~= self.recs().take(k as int).filter(p_e).map_values(f),
                str_views(out.attended@) =~= self.recs().take(k as int).filter(p_a).map_values(f),
            decreases self.records@.len() - k,
        {
            proof {
                lemma_filter_take_step(self.recs(), k as int, p_e);
                lemma_filter_take_step(self.recs(), k as int, p_a);
            }
            let ghost old_ex = out.excused@;
            let ghost old_at = out.attended@;
            if self.records[k].week == week {
                match self.records[k].status {
                    Status::Excused => out.excused.push(self.records[k].student.clone()),
                    Status::Present => out.attended.push(self.records[k].student.clone()),
                    Status::Absent => {},
                }
            }
            proof {
                if out.excused@.len() > old_ex.len() {
                    assert(str_views(out.excused@) =~= str_views(old_ex).push(
                        self.recs()[k as int].student,
                    ));
                }
                if out.attended@.len() > old_at.len() {
                    assert(str_views(out.attended@) =~= str_views(old_at).push(
                        self.recs()[k as int].student,
                    ));
                }
                assert(str_views(out.excused@) =~= self.recs().take(k + 1).filter(p_e).map_values(
                    f,
                ));
                assert(str_views(out.attended@) =~= self.recs().take(k + 1).filter(p_a).map_values(
                    f,
                ));
            }
            k = k + 1;
        }
        proof {
            assert(self.recs().take(self.records@.len() as int) =~= self.recs());
        }
        out
    }

    /// Counts the records of week `w` carrying status `st`.
    fn count_week_status(&self, w: u32, st: Status) -> (r: usize)
        ensures
            r as int == week_status_count(self.recs(), w, st),
    {
        let ghost pred = |rv: RecordV| rv.week == w && rv.status == st;
        let mut cnt: usize = 0;
        let mut k: usize = 0;
        while k < self.records.len()
            invariant
                k <= self.records@.len(),
                pred == (|rv: RecordV| rv.week == w && rv.status == st),
                cnt as int == self.recs().take(k as int).filter(pred).len(),
                cnt <= k,
            decreases self.records@.len() - k,
        {
            proof {
                lemma_filter_take_step(self.recs(), k as int, pred);
            }
            if self.records[k].week == w && self.records[k].status == st {
                cnt = cnt + 1;
            }
            k = k + 1;
        }
        proof {
            assert(self.recs().take(self.records@.len() as int) =~= self.recs());
        }
        cnt
    }
}

/// The per-week partition of ids that the summaries work with: who was
/// excused and who attended in one week.
pub struct WeeklyData {
    pub week: u32,
    pub excused: Vec<String>,
    pub attended: Vec<String>,
}

impl WeeklyData {
    /// Empty data for one week.
    pub fn new(week: u32) -> (r: Self)
        ensures
            r.week == week,
            r.excused@ == Seq::<String>::empty(),
            r.attended@ == Seq::<String>::empty(),
    {
        WeeklyData { week, excused: Vec::new(), attended: Vec::new() }
    }

    /// The ids of `roster`, in roster order, that sit in neither the
    /// excused nor the attended set.
    pub fn get_unexcused_absences(&self, roster: &Vec<Student>) -> (r: Vec<String>)
        ensures
            str_views(r@) == crate::manager::ids_of(crate::manager::roster_view(roster@)).filter(
                (|sid: Seq<char>| !str_views(self.excused@).contains(sid) && !str_views(
                    self.attended@,
                ).contains(sid)),
            ),
    {
        let ghost pred = |sid: Seq<char>| !str_views(self.excused@).contains(sid) && !str_views(
            self.attended@,
        ).contains(sid);
        let ghost all_ids = crate::manager::ids_of(crate::manager::roster_view(roster@));
        let mut out: Vec<String> = Vec::new();
        let mut k: usize = 0;
        while k < roster.len()
            invariant
                k <= roster@.len(),
                pred == (|sid: Seq<char>| !str_views(self.excused@).contains(sid) && !str_views(
                    self.attended@,
                ).contains(sid)),
                all_ids == crate::manager::ids_of(crate::manager::roster_view(roster@)),
                str_views(out@) =~= all_ids.take(k as int).filter(pred),
            decreases roster@.len() - k,
        {
            proof {
                lemma_filter_take_step(all_ids, k as int, pred);
                assert(all_ids[k as int] == roster@[k as int].id@);
            }
            let id = &roster[k].id;
            if !contains_str(&self.excused, id.as_str()) && !contains_str(
                &self.attended,
                id.as_str(),
            ) {
                out.push(id.clone());
                proof {
                    assert(str_views(out@) =~= all_ids.take(k as int).filter(pred).push(
                        all_ids[k as int],
                    ));
                }
            }
            k = k + 1;
        }
        proof {
            assert(all_ids.take(all_ids.len() as int) =~= all_ids);
        }
        out
    }
}

/// Whether some entry of `v` reads as `s`.
pub fn contains_str(v: &Vec<String>, s: &str) -> (r: bool)
    ensures
        r == str_views(v@).contains(s@),
{
    let mut k: usize = 0;
    while k < v.len()
        invariant
            k <= v@.len(),
            forall|j: int| 0 <= j < k ==> (#[trigger] v@[j])@ != s@,
        decreases v@.len() - k,
    {
        if str_eq(v[k].as_str(), s) {
            proof {
                assert(str_views(v@)[k as int] == s@);
            }
            return true;
        }
        k = k + 1;
    }
    proof {
        if str_views(v@).contains(s@) {
            let j = choose|j: int| 0 <= j < str_views(v@).len() && str_views(v@)[j] == s@;
            assert((v@[j])@ == s@);
        }
    }
    false
}

} // verus!
