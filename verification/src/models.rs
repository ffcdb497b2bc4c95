//! The engine's data model: students, weeks, attendance records, the
//! three-valued attendance status with its fixed text encoding, and the
//! engine's error type.

use vstd::prelude::*;
use crate::date::Date;
use crate::text::str_eq;

verus! {

/// Attendance status of one student for one week.
#[derive(Clone, Copy, Debug, PartialEq, Eq, Structural)]
pub enum Status {
    Present,
    Excused,
    Absent,
}

impl Status {
    /// The fixed text encoding of each status.
    pub open spec fn text(self) -> Seq<char> {
        match self {
            Status::Present => "Present"@,
            Status::Excused => "Excused"@,
            Status::Absent => "Absent"@,
        }
    }

    /// Encodes the status as its fixed text.
    pub fn encode(&self) -> (r: String)
        ensures
            r@ == self.text(),
    {
        match self {
            Status::Present => "Present".to_owned(),
            Status::Excused => "Excused".to_owned(),
            Status::Absent => "Absent".to_owned(),
        }
    }

    /// Decodes a status from its fixed text; any other text is refused,
    /// never defaulted.
    pub fn decode(s: &str) -> (r: Result<Status, AttendanceError>)
        ensures
            r matches Ok(st) ==> s@ == st.text(),
            s@ == Status::Present.text() ==> r == Ok::<Status, AttendanceError>(Status::Present),
            s@ == Status::Excused.text() ==> r == Ok::<Status, AttendanceError>(Status::Excused),
            s@ == Status::Absent.text() ==> r == Ok::<Status, AttendanceError>(Status::Absent),
            r is Err ==> r == Err::<Status, AttendanceError>(AttendanceError::DecodeError)
                && s@ != Status::Present.text() && s@ != Status::Excused.text()
                && s@ != Status::Absent.text(),
    {
        proof {
            lemma_status_texts_distinct();
        }
        if str_eq(s, "Present") {
            Ok(Status::Present)
        } else if str_eq(s, "Excused") {
            Ok(Status::Excused)
        } else if str_eq(s, "Absent") {
            Ok(Status::Absent)
        } else {
            Err(AttendanceError::DecodeError)
        }
    }
}

/// The three status texts are pairwise distinct.
proof fn lemma_status_texts_distinct()
    ensures
        "Present"@ != "Excused"@,
        "Present"@ != "Absent"@,
        "Excused"@ != "Absent"@,
{
    reveal_strlit("Present");
    reveal_strlit("Excused");
    reveal_strlit("Absent");
    assert("Present"@.len() == 7);
    assert("Excused"@.len() == 7);
    assert("Absent"@.len() == 6);
    assert("Present"@[0] == 'P');
    assert("Excused"@[0] == 'E');
}

/// Everything that can go wrong inside the engine.  Failures of the
/// surrounding process (unreadable files, unreachable stores) are not the
/// engine's and are reported by the shell around it.
#[derive(Clone, Copy, Debug, PartialEq, Eq, Structural)]
pub enum AttendanceError {
    /// A week id that names no week in the ledger.
    NonexistentWeek(u32),
    /// A student id that is not on the roster.
    NotFound,
    /// A batch insert that would duplicate an existing or repeated id.
    DuplicateKey,
    /// A status text outside the fixed encoding.
    DecodeError,
}

/// An entry in the roster of students.
#[derive(Debug, PartialEq, Eq)]
pub struct Student {
    pub id: String,
    pub email: String,
    pub first_name: String,
    pub last_name: String,
    pub major: String,
    pub class: i64,
    pub graduation_semester: String,
}

/// The mathematical content of a [`Student`]: each text field as its
/// character sequence.
#[verifier::ext_equal]
pub struct StudentV {
    pub id: Seq<char>,
    pub email: Seq<char>,
    pub first_name: Seq<char>,
    pub last_name: Seq<char>,
    pub major: Seq<char>,
    pub class: i64,
    pub graduation_semester: Seq<char>,
}

impl View for Student {
    type V = StudentV;

    open spec fn view(&self) -> StudentV {
        StudentV {
            id: self.id@,
            email: self.email@,
            first_name: self.first_name@,
            last_name: self.last_name@,
            major: self.major@,
            class: self.class,
            graduation_semester: self.graduation_semester@,
        }
    }
}

impl Clone for Student {
    fn clone(&self) -> (r: Self)
        ensures
            r == *self,
    {
        Student {
            id: self.id.clone(),
            email: self.email.clone(),
            first_name: self.first_name.clone(),
            last_name: self.last_name.clone(),
            major: self.major.clone(),
            class: self.class,
            graduation_semester: self.graduation_semester.clone(),
        }
    }
}

/// The calendar date of a class week; ids are dense and 1-indexed.
#[derive(Clone, Copy, Debug, PartialEq, Eq, Structural)]
pub struct Week {
    pub id: u32,
    pub date: Date,
}

/// The attendance record of one student for one week: at most one per
/// (student, week) pair.
#[derive(Debug, PartialEq, Eq)]
pub struct Attendance {
    pub student: String,
    pub week: u32,
    pub status: Status,
}

/// The mathematical content of an [`Attendance`] record.
#[verifier::ext_equal]
pub struct RecordV {
    pub student: Seq<char>,
    pub week: u32,
    pub status: Status,
}

impl View for Attendance {
    type V = RecordV;

    open spec fn view(&self) -> RecordV {
        RecordV { student: self.student@, week: self.week, status: self.status }
    }
}

impl Clone for Attendance {
    fn clone(&self) -> (r: Self)
        ensures
            r == *self,
    {
        Attendance { student: self.student.clone(), week: self.week, status: self.status }
    }
}

/// A student's attendance over the recorded semester, joined with the
/// week dates and partitioned by status.
#[derive(Debug, PartialEq, Eq)]
pub struct StudentAttendance {
    /// The (week id, date) pairs where the student is present.
    pub present: Vec<(u32, Date)>,
    /// The (week id, date) pairs where the student is excused.
    pub excused: Vec<(u32, Date)>,
    /// The (week id, date) pairs with an explicit absent record.
    pub absent: Vec<(u32, Date)>,
}

} // verus!
