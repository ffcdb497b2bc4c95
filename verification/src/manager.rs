//! The attendance engine's state and its roster operations.
//!
//! One [`AttendanceManager`] value holds the roster, the week ledger, the
//! attendance records and the current-week pointer.  The surrounding
//! process loads such a value from wherever it keeps it, calls the
//! engine, and stores the result back; the engine itself never touches
//! storage.

use vstd::prelude::*;
use crate::models::{Attendance, AttendanceError, RecordV, Status, Student, StudentV, Week};
use crate::seq_facts::{lemma_filter_take_step, lemma_filter_subset, lemma_filter_unique_keys};
use crate::text::str_eq;

verus! {

/// The roster, as the mathematical content of each entry.
pub open spec fn roster_view(roster: Seq<Student>) -> Seq<StudentV> {
    roster.map_values(|s: Student| s@)
}

/// The records, as the mathematical content of each entry.
pub open spec fn recs_view(records: Seq<Attendance>) -> Seq<RecordV> {
    records.map_values(|a: Attendance| a@)
}

/// A sequence of strings, as their character sequences.
pub open spec fn str_views(ss: Seq<String>) -> Seq<Seq<char>> {
    ss.map_values(|s: String| s@)
}

/// The ids of a roster, in roster order.
pub open spec fn ids_of(roster: Seq<StudentV>) -> Seq<Seq<char>> {
    roster.map_values(|s: StudentV| s.id)
}

/// Whether some roster entry carries the id `sid`.
pub open spec fn has_student(roster: Seq<StudentV>, sid: Seq<char>) -> bool {
    exists|i: int| 0 <= i < roster.len() && (#[trigger] roster[i]).id == sid
}

/// The position of the roster entry carrying `sid`; meaningful when
/// `has_student` holds and ids are unique.
pub open spec fn student_index(roster: Seq<StudentV>, sid: Seq<char>) -> int {
    choose|i: int| 0 <= i < roster.len() && (#[trigger] roster[i]).id == sid
}

/// The roster entry carrying `sid`.
pub open spec fn student_of(roster: Seq<StudentV>, sid: Seq<char>) -> StudentV {
    roster[student_index(roster, sid)]
}

/// No two roster entries share an id.
pub open spec fn unique_ids(roster: Seq<StudentV>) -> bool {
    forall|i: int, j: int|
        0 <= i < j < roster.len() ==> (#[trigger] roster[i]).id != (#[trigger] roster[j]).id
}

/// Whether the record `r` is keyed by (`sid`, `w`).
pub open spec fn rec_key_is(r: RecordV, sid: Seq<char>, w: u32) -> bool {
    r.student == sid && r.week == w
}

/// Whether some record is keyed by (`sid`, `w`).
pub open spec fn has_rec(rs: Seq<RecordV>, sid: Seq<char>, w: u32) -> bool {
    exists|i: int| 0 <= i < rs.len() && rec_key_is(#[trigger] rs[i], sid, w)
}

/// The position of the record keyed by (`sid`, `w`); meaningful when
/// `has_rec` holds and keys are unique.
pub open spec fn rec_index(rs: Seq<RecordV>, sid: Seq<char>, w: u32) -> int {
    choose|i: int| 0 <= i < rs.len() && rec_key_is(#[trigger] rs[i], sid, w)
}

/// The status recorded for (`sid`, `w`), if any.  This is the observable
/// content of the record store: a partial map from keys to statuses.
pub open spec fn status_of(rs: Seq<RecordV>, sid: Seq<char>, w: u32) -> Option<Status> {
    if has_rec(rs, sid, w) {
        Some(rs[rec_index(rs, sid, w)].status)
    } else {
        None
    }
}

/// No two records share a (student, week) key.
pub open spec fn unique_keys(rs: Seq<RecordV>) -> bool {
    forall|i: int, j: int|
        0 <= i < j < rs.len()
            ==> !((#[trigger] rs[i]).student == (#[trigger] rs[j]).student && rs[i].week
            == rs[j].week)
}

/// A position whose record matches the key is the `rec_index`, and pins
/// `status_of`, as long as keys are unique.
pub proof fn lemma_rec_at(rs: Seq<RecordV>, sid: Seq<char>, w: u32, i: int)
    requires
        unique_keys(rs),
        0 <= i < rs.len(),
        rec_key_is(rs[i], sid, w),
    ensures
        has_rec(rs, sid, w),
        rec_index(rs, sid, w) == i,
        status_of(rs, sid, w) == Some(rs[i].status),
{
    assert(has_rec(rs, sid, w));
    let j = rec_index(rs, sid, w);
    assert(rec_key_is(rs[j], sid, w));
    if i < j {
        assert(false);
    } else if j < i {
        assert(false);
    }
}

/// A position whose entry carries the id is the `student_index`, as long
/// as ids are unique.
pub proof fn lemma_student_at(roster: Seq<StudentV>, sid: Seq<char>, i: int)
    requires
        unique_ids(roster),
        0 <= i < roster.len(),
        roster[i].id == sid,
    ensures
        has_student(roster, sid),
        student_index(roster, sid) == i,
        student_of(roster, sid) == roster[i],
{
    assert(has_student(roster, sid));
    let j = student_index(roster, sid);
    assert(roster[j].id == sid);
    if i < j {
        assert(false);
    } else if j < i {
        assert(false);
    }
}

/// The manager for recording, modifying, and retrieving attendance data.
pub struct AttendanceManager {
    /// The current roster; ids are unique.
    pub roster: Vec<Student>,
    /// The week ledger; ids are dense, 1-indexed, in order.
    pub weeks: Vec<Week>,
    /// At most one record per (student, week) pair, each referring to a
    /// roster student and a ledger week.
    pub records: Vec<Attendance>,
    /// The current week id; 0 until a ledger with at least one week
    /// exists, afterwards always a real week id.
    pub current_week: u32,
}

impl AttendanceManager {
    /// The roster's mathematical content.
    pub open spec fn roster_v(self) -> Seq<StudentV> {
        roster_view(self.roster@)
    }

    /// The records' mathematical content.
    pub open spec fn recs(self) -> Seq<RecordV> {
        recs_view(self.records@)
    }

    /// Well-formedness of the week ledger: dense 1-indexed ids, dates in
    /// range, and room to number one more week.
    pub open spec fn weeks_wf(self) -> bool {
        &&& self.weeks@.len() < 0xFFFF_FFFFu32
        &&& forall|i: int|
            0 <= i < self.weeks@.len()
                ==> (#[trigger] self.weeks@[i]).id == i + 1 && self.weeks@[i].date.in_range()
    }

    /// The engine's invariant: unique roster ids, a well-formed ledger,
    /// unique record keys, referential integrity of every record, and a
    /// current-week pointer that resolves to a real week once set.
    pub open spec fn wf(self) -> bool {
        &&& unique_ids(self.roster_v())
        &&& self.weeks_wf()
        &&& unique_keys(self.recs())
        &&& forall|i: int|
            0 <= i < self.recs().len()
                ==> has_student(self.roster_v(), (#[trigger] self.recs()[i]).student) && 1
                <= self.recs()[i].week <= self.weeks@.len()
        &&& self.current_week <= self.weeks@.len()
    }

    /// Whether the ledger has been initialized, i.e. the current-week
    /// pointer names a real week.
    pub open spec fn is_active(self) -> bool {
        self.current_week >= 1
    }

    /// An empty manager: no students, no weeks, no records.
    pub fn new() -> (r: Self)
        ensures
            r.wf(),
            r.roster@ == Seq::<Student>::empty(),
            r.weeks@ == Seq::<Week>::empty(),
            r.records@ == Seq::<Attendance>::empty(),
            r.current_week == 0,
    {
        let r = AttendanceManager {
            roster: Vec::new(),
            weeks: Vec::new(),
            records: Vec::new(),
            current_week: 0,
        };
        proof {
            assert(r.roster_v() =~= Seq::<StudentV>::empty());
            assert(r.recs() =~= Seq::<RecordV>::empty());
        }
        r
    }

    /// Returns the total number of students on the roster.
    pub fn num_students(&self) -> (r: usize)
        ensures
            r == self.roster@.len(),
    {
        self.roster.len()
    }

    /// Retrieves all students on the roster.
    pub fn get_roster(&self) -> (r: Vec<Student>)
        ensures
            r@ == self.roster@,
    {
        let mut out: Vec<Student> = Vec::new();
        let mut i: usize = 0;
        while i < self.roster.len()
            invariant
                i <= self.roster@.len(),
                out@ =~= self.roster@.subrange(0, i as int),
            decreases self.roster@.len() - i,
        {
            out.push(self.roster[i].clone());
            i = i + 1;
        }
        proof {
            assert(out@ =~= self.roster@);
        }
        out
    }

    /// Retrieves the ids of all students on the roster, in roster order.
    pub fn get_roster_ids(&self) -> (r: Vec<String>)
        ensures
            str_views(r@) == ids_of(self.roster_v()),
    {
        let mut out: Vec<String> = Vec::new();
        let mut i: usize = 0;
        while i < self.roster.len()
            invariant
                i <= self.roster@.len(),
                out@.len() == i,
                forall|j: int| 0 <= j < i ==> (#[trigger] out@[j])@ == self.roster_v()[j].id,
            decreases self.roster@.len() - i,
        {
            out.push(self.roster[i].id.clone());
            i = i + 1;
        }
        proof {
            assert(str_views(out@) =~= ids_of(self.roster_v()));
        }
        out
    }

    /// The roster position of the student with id `student_id`, if any.
    pub fn find_student(&self, student_id: &str) -> (r: Option<usize>)
        requires
            self.wf(),
        ensures
            r matches Some(i) ==> i < self.roster@.len() && self.roster_v()[i as int].id
                == student_id@ && has_student(self.roster_v(), student_id@) && student_index(
                self.roster_v(),
                student_id@,
            ) == i as int,
            r is None ==> !has_student(self.roster_v(), student_id@),
    {
        let mut i: usize = 0;
        while i < self.roster.len()
            invariant
                self.wf(),
                i <= self.roster@.len(),
                forall|j: int| 0 <= j < i ==> (#[trigger] self.roster_v()[j]).id != student_id@,
            decreases self.roster@.len() - i,
        {
            if str_eq(self.roster[i].id.as_str(), student_id) {
                proof {
                    lemma_student_at(self.roster_v(), student_id@, i as int);
                }
                return Some(i);
            }
            i = i + 1;
        }
        None
    }

    /// Retrieves a specific student from the roster based on their id.
    pub fn get_student(&self, student_id: &str) -> (r: Result<Student, AttendanceError>)
        requires
            self.wf(),
        ensures
            has_student(self.roster_v(), student_id@) ==> (r matches Ok(s) && s@ == student_of(
                self.roster_v(),
                student_id@,
            )),
            !has_student(self.roster_v(), student_id@) ==> r == Err::<Student, AttendanceError>(
                AttendanceError::NotFound,
            ),
    {
        match self.find_student(student_id) {
            Some(i) => Ok(self.roster[i].clone()),
            None => Err(AttendanceError::NotFound),
        }
    }

    /// Adds one student to the roster; an id that is already on the
    /// roster is refused with no effect.
    pub fn add_student(&mut self, student: Student) -> (r: Result<(), AttendanceError>)
        requires
            old(self).wf(),
        ensures
            final(self).wf(),
            has_student(old(self).roster_v(), student@.id) ==> r == Err::<(), AttendanceError>(
                AttendanceError::DuplicateKey,
            ) && *final(self) == *old(self),
            !has_student(old(self).roster_v(), student@.id) ==> r == Ok::<(), AttendanceError>(())
                && final(self).roster@ == old(self).roster@.push(student),
            final(self).weeks@ == old(self).weeks@,
            final(self).records@ == old(self).records@,
            final(self).current_week == old(self).current_week,
    {
        let ghost pre = *self;
        if self.find_student(student.id.as_str()).is_some() {
            return Err(AttendanceError::DuplicateKey);
        }
        self.roster.push(student);
        proof {
            assert(self.roster_v() =~= pre.roster_v().push(student@));
            assert forall|k: int| 0 <= k < self.recs().len() implies has_student(
                self.roster_v(),
                (#[trigger] self.recs()[k]).student,
            ) by {
                let si = student_index(pre.roster_v(), pre.recs()[k].student);
                assert(self.roster_v()[si].id == pre.roster_v()[si].id);
                assert(has_student(self.roster_v(), self.recs()[k].student));
            }
        }
        Ok(())
    }

    /// Inserts a batch of students into the roster, all or nothing: the
    /// whole batch is refused when any incoming id already sits on the
    /// roster or is repeated inside the batch.
    pub fn insert_students(&mut self, new_students: &Vec<Student>) -> (r: Result<
        (),
        AttendanceError,
    >)
        requires
            old(self).wf(),
        ensures
            final(self).wf(),
            r is Ok <==> batch_ok(old(self).roster_v(), roster_view(new_students@)),
            r is Ok ==> final(self).roster@ == old(self).roster@ + new_students@,
            r is Err ==> r == Err::<(), AttendanceError>(AttendanceError::DuplicateKey) && *final(self) == *old(self),
            final(self).weeks@ == old(self).weeks@,
            final(self).records@ == old(self).records@,
            final(self).current_week == old(self).current_week,
    {
        let ghost batch = roster_view(new_students@);
        let mut i: usize = 0;
        while i < new_students.len()
            invariant
                self == old(self),
                self.wf(),
                batch == roster_view(new_students@),
                i <= new_students@.len(),
                forall|j: int|
                    0 <= j < i ==> !has_student(self.roster_v(), (#[trigger] batch[j]).id),
                forall|j: int, k: int| 0 <= j < k < i ==> batch[j].id != batch[k].id,
            decreases new_students@.len() - i,
        {
            if self.find_student(new_students[i].id.as_str()).is_some() {
                proof {
                    assert(has_student(self.roster_v(), batch[i as int].id));
                    assert(!batch_ok(old(self).roster_v(), batch));
                }
                return Err(AttendanceError::DuplicateKey);
            }
            let mut j: usize = 0;
            while j < i
                invariant
                    self == old(self),
                    self.wf(),
                    i < new_students@.len(),
                    j <= i,
                    batch == roster_view(new_students@),
                    forall|k: int| 0 <= k < j ==> (#[trigger] batch[k]).id != batch[i as int].id,
                decreases i - j,
            {
                if str_eq(new_students[j].id.as_str(), new_students[i].id.as_str()) {
                    proof {
                        assert(batch[j as int].id == batch[i as int].id);
                        assert(!unique_ids(batch));
                    }
                    return Err(AttendanceError::DuplicateKey);
                }
                j = j + 1;
            }
            i = i + 1;
        }
        let ghost pre = *self;
        let mut k: usize = 0;
        while k < new_students.len()
            invariant
                k <= new_students@.len(),
                self.roster@ =~= pre.roster@ + new_students@.subrange(0, k as int),
                self.weeks@ == pre.weeks@,
                self.records@ == pre.records@,
                self.current_week == pre.current_week,
            decreases new_students@.len() - k,
        {
            self.roster.push(new_students[k].clone());
            k = k + 1;
        }
        proof {
            assert(self.roster@ =~= pre.roster@ + new_students@);
            assert(self.roster_v() =~= pre.roster_v() + batch);
            assert forall|a: int, b: int|
                0 <= a < b < self.roster_v().len() implies (#[trigger] self.roster_v()[a]).id != (
            #[trigger] self.roster_v()[b]).id by {
                let n = pre.roster_v().len();
                if a < n && b >= n {
                    assert(!has_student(pre.roster_v(), batch[b - n].id));
                }
            }
            assert forall|a: int| 0 <= a < self.recs().len() implies has_student(
                self.roster_v(),
                (#[trigger] self.recs()[a]).student,
            ) by {
                let si = student_index(pre.roster_v(), pre.recs()[a].student);
                assert(self.roster_v()[si] == pre.roster_v()[si]);
            }
        }
        Ok(())
    }

    /// Removes and returns the student with id `student_id`, together
    /// with every attendance record of that student, so that no record
    /// ever refers to a student who left the roster.
    pub fn delete_student(&mut self, student_id: &str) -> (r: Result<Student, AttendanceError>)
        requires
            old(self).wf(),
        ensures
            final(self).wf(),
            has_student(old(self).roster_v(), student_id@) ==> (r matches Ok(s) && s@
                == student_of(old(self).roster_v(), student_id@) && final(self).roster_v() == old(self).roster_v().remove(student_index(old(self).roster_v(), student_id@)) && final(self).recs() == old(self).recs().filter(|rv: RecordV| rv.student != student_id@)),
            !has_student(old(self).roster_v(), student_id@) ==> r == Err::<
                Student,
                AttendanceError,
            >(AttendanceError::NotFound) && *final(self) == *old(self),
            final(self).weeks@ == old(self).weeks@,
            final(self).current_week == old(self).current_week,
    {
        let i = match self.find_student(student_id) {
            Some(i) => i,
            None => {
                return Err(AttendanceError::NotFound);
            },
        };
        let ghost pre = *self;
        let ghost pred = |rv: RecordV| rv.student != student_id@;
        let removed = self.roster.remove(i);
        let mut kept: Vec<Attendance> = Vec::new();
        let mut k: usize = 0;
        while k < self.records.len()
            invariant
                k <= self.records@.len(),
                self.records@ == pre.records@,
                pred == (|rv: RecordV| rv.student != student_id@),
                recs_view(kept@) =~= recs_view(pre.records@).take(k as int).filter(pred),
            decreases self.records@.len() - k,
        {
            proof {
                lemma_filter_take_step(recs_view(pre.records@), k as int, pred);
            }
            if !str_eq(self.records[k].student.as_str(), student_id) {
                kept.push(self.records[k].clone());
            }
            k = k + 1;
        }
        proof {
            assert(recs_view(pre.records@).take(pre.records@.len() as int) =~= recs_view(
                pre.records@,
            ));
        }
        self.records = kept;
        proof {
            assert(self.roster_v() =~= pre.roster_v().remove(i as int));
            lemma_filter_unique_keys(pre.recs(), pred);
            lemma_filter_subset(pre.recs(), pred);
            assert forall|a: int| 0 <= a < self.recs().len() implies has_student(
                self.roster_v(),
                (#[trigger] self.recs()[a]).student,
            ) && 1 <= self.recs()[a].week <= self.weeks@.len() by {
                assert(pre.recs().contains(self.recs()[a]));
                let b = choose|b: int| 0 <= b < pre.recs().len() && pre.recs()[b] == self.recs()[a];
                let si = student_index(pre.roster_v(), pre.recs()[b].student);
                assert(pre.roster_v()[si].id == pre.recs()[b].student);
                assert(pre.recs()[b].student != student_id@);
                if si < i as int {
                    assert(self.roster_v()[si] == pre.roster_v()[si]);
                } else {
                    assert(pre.roster_v()[si].id != pre.roster_v()[i as int].id);
                    assert(self.roster_v()[si - 1] == pre.roster_v()[si]);
                }
            }
        }
        Ok(removed)
    }

    /// Removes the student with id `andrew_id`, together with that
    /// student's records; an unknown id is refused with no effect.
    pub fn remove_student(&mut self, andrew_id: &str) -> (r: Result<(), AttendanceError>)
        requires
            old(self).wf(),
        ensures
            final(self).wf(),
            has_student(old(self).roster_v(), andrew_id@) ==> r == Ok::<(), AttendanceError>(())
                && final(self).roster_v() == old(self).roster_v().remove(
                student_index(old(self).roster_v(), andrew_id@),
            ) && final(self).recs() == old(self).recs().filter(
                (|rv: RecordV| rv.student != andrew_id@),
            ),
            !has_student(old(self).roster_v(), andrew_id@) ==> r == Err::<(), AttendanceError>(
                AttendanceError::NotFound,
            ) && *final(self) == *old(self),
            final(self).weeks@ == old(self).weeks@,
            final(self).current_week == old(self).current_week,
    {
        match self.delete_student(andrew_id) {
            Ok(_) => Ok(()),
            Err(e) => Err(e),
        }
    }

    /// Removes and returns all students from the roster, and with them
    /// every attendance record.
    pub fn delete_roster(&mut self) -> (r: Vec<Student>)
        requires
            old(self).wf(),
        ensures
            final(self).wf(),
            r@ == old(self).roster@,
            final(self).roster@.len() == 0,
            final(self).records@.len() == 0,
            final(self).weeks@ == old(self).weeks@,
            final(self).current_week == old(self).current_week,
    {
        let out = self.get_roster();
        self.roster.clear();
        self.records.clear();
        proof {
            assert(self.roster_v() =~= Seq::<StudentV>::empty());
            assert(self.recs() =~= Seq::<RecordV>::empty());
        }
        out
    }

} // impl AttendanceManager

/// Whether a batch may be inserted next to an existing roster: its ids
/// are unique among themselves and absent from the roster.
pub open spec fn batch_ok(roster: Seq<StudentV>, batch: Seq<StudentV>) -> bool {
    &&& unique_ids(batch)
    &&& forall|i: int| 0 <= i < batch.len() ==> !has_student(roster, (#[trigger] batch[i]).id)
}

} // verus!
