//! Rebuilding an engine state from parts that came from outside — a
//! persisted file, a migration — with every invariant checked rather
//! than assumed.

use vstd::prelude::*;
use crate::date::{MAX_DAY, MIN_DAY};
use crate::manager::{
    has_student, rec_key_is, unique_ids, unique_keys, AttendanceManager,
};
use crate::models::{Attendance, Student, Week};
use crate::text::str_eq;

verus! {

impl AttendanceManager {
    /// Assembles a manager from plain parts, accepting them only when
    /// they satisfy the engine invariant: unique roster ids, a dense
    /// 1-indexed week ledger with dates in range, unique record keys
    /// referring to roster students and ledger weeks, and a current
    /// week that names a real week once set.
    pub fn from_parts(
        roster: Vec<Student>,
        weeks: Vec<Week>,
        records: Vec<Attendance>,
        current_week: u32,
    ) -> (r: Option<AttendanceManager>)
        ensures
            r matches Some(m) ==> m.wf() && m.roster@ == roster@ && m.weeks@ == weeks@
                && m.records@ == records@ && m.current_week == current_week,
            r is None ==> !(AttendanceManager { roster, weeks, records, current_week }).wf(),
    {
        let ghost m0 = AttendanceManager { roster, weeks, records, current_week };
        let mut i: usize = 0;
        while i < roster.len()
            invariant
                m0.roster@ == roster@,
                i <= roster@.len(),
                forall|a: int, b: int|
                    0 <= a < b < i ==> (#[trigger] m0.roster_v()[a]).id != (
                    #[trigger] m0.roster_v()[b]).id,
            decreases roster@.len() - i,
        {
            let mut j: usize = 0;
            while j < i
                invariant
                    m0.roster@ == roster@,
                    i < roster@.len(),
                    j <= i,
                    forall|a: int, b: int|
                        0 <= a < b < i ==> (#[trigger] m0.roster_v()[a]).id != (
                        #[trigger] m0.roster_v()[b]).id,
                    forall|a: int|
                        0 <= a < j ==> (#[trigger] m0.roster_v()[a]).id != m0.roster_v()[i as int].id,
                decreases i - j,
            {
                if str_eq(roster[j].id.as_str(), roster[i].id.as_str()) {
                    proof {
                        assert(m0.roster_v()[j as int].id == m0.roster_v()[i as int].id);
                        assert(!unique_ids(m0.roster_v()));
                    }
                    return None;
                }
                j = j + 1;
            }
            i = i + 1;
        }
        if weeks.len() >= 0xFFFF_FFFFusize {
            return None;
        }
        let mut w: usize = 0;
        while w < weeks.len()
            invariant
                m0.weeks@ == weeks@,
                w <= weeks@.len(),
                weeks@.len() < 0xFFFF_FFFFusize,
                forall|a: int|
                    0 <= a < w ==> (#[trigger] weeks@[a]).id == a + 1 && weeks@[a].date.in_range(),
            decreases weeks@.len() - w,
        {
            let ok = weeks[w].id as usize == w + 1 && weeks[w].date.day >= MIN_DAY
                && weeks[w].date.day <= MAX_DAY;
            if !ok {
                proof {
                    if m0.weeks_wf() {
                        assert(weeks@[w as int].id == w + 1 && weeks@[w as int].date.in_range());
                    }
                }
                return None;
            }
            w = w + 1;
        }
        let mut p: usize = 0;
        while p < records.len()
            invariant
                m0.records@ == records@,
                m0.roster@ == roster@,
                m0.weeks@ == weeks@,
                p <= records@.len(),
                forall|a: int, b: int|
                    0 <= a < b < p ==> !((#[trigger] m0.recs()[a]).student == (
                    #[trigger] m0.recs()[b]).student && m0.recs()[a].week == m0.recs()[b].week),
                forall|a: int|
                    0 <= a < p ==> has_student(m0.roster_v(), (#[trigger] m0.recs()[a]).student)
                        && 1 <= m0.recs()[a].week <= weeks@.len(),
            decreases records@.len() - p,
        {
            if records[p].week < 1 || records[p].week as usize > weeks.len() {
                proof {
                    if m0.wf() {
                        assert(1 <= m0.recs()[p as int].week <= m0.weeks@.len());
                    }
                }
                return None;
            }
            let mut found = false;
            let mut q: usize = 0;
            while q < roster.len()
                invariant
                    m0.roster@ == roster@,
                    m0.records@ == records@,
                    p < records@.len(),
                    q <= roster@.len(),
                    !found ==> forall|a: int|
                        0 <= a < q ==> (#[trigger] m0.roster_v()[a]).id != m0.recs()[p as int].student,
                    found ==> has_student(m0.roster_v(), m0.recs()[p as int].student),
                decreases roster@.len() - q + (if found {
                    0int
                } else {
                    1int
                }),
            {
                if !found && str_eq(roster[q].id.as_str(), records[p].student.as_str()) {
                    proof {
                        assert(m0.roster_v()[q as int].id == m0.recs()[p as int].student);
                    }
                    found = true;
                }
                q = q + 1;
            }
            if !found {
                proof {
                    if m0.wf() {
                        assert(has_student(m0.roster_v(), m0.recs()[p as int].student));
                        let a = choose|a: int|
                            0 <= a < m0.roster_v().len() && (#[trigger] m0.roster_v()[a]).id
                                == m0.recs()[p as int].student;
                        assert(false);
                    }
                }
                return None;
            }
            let mut b: usize = 0;
            while b < p
                invariant
                    m0.records@ == records@,
                    p < records@.len(),
                    b <= p,
                    forall|a: int|
                        0 <= a < b ==> !((#[trigger] m0.recs()[a]).student == m0.recs()[p as int].student && m0.recs()[a].week == m0.recs()[p as int].week),
                decreases p - b,
            {
                if records[b].week == records[p].week && str_eq(
                    records[b].student.as_str(),
                    records[p].student.as_str(),
                ) {
                    proof {
                        assert(rec_key_is(
                            m0.recs()[b as int],
                            m0.recs()[p as int].student,
                            m0.recs()[p as int].week,
                        ));
                        assert(!unique_keys(m0.recs()));
                    }
                    return None;
                }
                b = b + 1;
            }
            p = p + 1;
        }
        if current_week as usize > weeks.len() {
            return None;
        }
        let m = AttendanceManager { roster, weeks, records, current_week };
        proof {
            assert(m == m0);
        }
        Some(m)
    }
}

} // verus!
