//! Recording attendance: replace-on-conflict marking for a batch of
//! students, and the bulk materialization of absent records.

use vstd::prelude::*;
use crate::manager::{
    has_rec, has_student, rec_index, rec_key_is, status_of, str_views, student_index, unique_ids,
    unique_keys, AttendanceManager, lemma_rec_at,
};
use crate::models::{Attendance, AttendanceError, RecordV, Status, StudentV};

verus! {

/// One record written over the store: the record keyed like `r` is
/// replaced by `r`, or `r` is appended when its key is new.
pub open spec fn upsert(rs: Seq<RecordV>, r: RecordV) -> Seq<RecordV> {
    if has_rec(rs, r.student, r.week) {
        rs.update(rec_index(rs, r.student, r.week), r)
    } else {
        rs.push(r)
    }
}

/// What `upsert` does, stated over the observable record map: the
/// written key now carries `r.status`, every other key is untouched,
/// keys stay unique, and every record either was there before or is `r`.
pub proof fn lemma_upsert(rs: Seq<RecordV>, r: RecordV)
    requires
        unique_keys(rs),
    ensures
        unique_keys(upsert(rs, r)),
        status_of(upsert(rs, r), r.student, r.week) == Some(r.status),
        forall|sid: Seq<char>, w: u32|
            !(sid == r.student && w == r.week) ==> #[trigger] status_of(upsert(rs, r), sid, w)
                == status_of(rs, sid, w),
        forall|i: int|
            0 <= i < upsert(rs, r).len() ==> upsert(rs, r)[i] == r || rs.contains(
                #[trigger] upsert(rs, r)[i],
            ),
        upsert(rs, r).len() == rs.len() + (if has_rec(rs, r.student, r.week) {
            0int
        } else {
            1int
        }),
{
    let out = upsert(rs, r);
    if has_rec(rs, r.student, r.week) {
        let idx = rec_index(rs, r.student, r.week);
        assert(0 <= idx < rs.len() && rec_key_is(rs[idx], r.student, r.week));
        assert(unique_keys(out)) by {
            assert forall|i: int, j: int| 0 <= i < j < out.len() implies !((#[trigger] out[i]).student
                == (#[trigger] out[j]).student && out[i].week == out[j].week) by {
                assert(out[i].student == rs[i].student && out[i].week == rs[i].week);
                assert(out[j].student == rs[j].student && out[j].week == rs[j].week);
            }
        }
        lemma_rec_at(out, r.student, r.week, idx);
        assert forall|sid: Seq<char>, w: u32| !(sid == r.student && w == r.week)
            implies #[trigger] status_of(out, sid, w) == status_of(rs, sid, w) by {
            if has_rec(rs, sid, w) {
                let k = rec_index(rs, sid, w);
                assert(rec_key_is(rs[k], sid, w));
                assert(k != idx);
                assert(rec_key_is(out[k], sid, w));
                lemma_rec_at(out, sid, w, k);
                lemma_rec_at(rs, sid, w, k);
            } else {
                assert(!has_rec(out, sid, w)) by {
                    if has_rec(out, sid, w) {
                        let m = choose|m: int|
                            0 <= m < out.len() && rec_key_is(#[trigger] out[m], sid, w);
                        assert(m != idx);
                        assert(rec_key_is(rs[m], sid, w));
                    }
                }
            }
        }
        assert forall|i: int| 0 <= i < out.len() implies out[i] == r || rs.contains(
            #[trigger] out[i],
        ) by {
            if i != idx {
                assert(out[i] == rs[i]);
            }
        }
    } else {
        assert(out == rs.push(r));
        assert(unique_keys(out)) by {
            assert forall|i: int, j: int| 0 <= i < j < out.len() implies !((#[trigger] out[i]).student
                == (#[trigger] out[j]).student && out[i].week == out[j].week) by {
                if j == rs.len() {
                    assert(out[j] == r);
                    assert(out[i] == rs[i]);
                    if out[i].student == r.student && out[i].week == r.week {
                        assert(rec_key_is(rs[i], r.student, r.week));
                    }
                } else {
                    assert(out[i] == rs[i] && out[j] == rs[j]);
                }
            }
        }
        lemma_rec_at(out, r.student, r.week, rs.len() as int);
        assert forall|sid: Seq<char>, w: u32| !(sid == r.student && w == r.week)
            implies #[trigger] status_of(out, sid, w) == status_of(rs, sid, w) by {
            if has_rec(rs, sid, w) {
                let k = rec_index(rs, sid, w);
                assert(rec_key_is(rs[k], sid, w));
                assert(rec_key_is(out[k], sid, w));
                lemma_rec_at(out, sid, w, k);
                lemma_rec_at(rs, sid, w, k);
            } else {
                assert(!has_rec(out, sid, w)) by {
                    if has_rec(out, sid, w) {
                        let m = choose|m: int|
                            0 <= m < out.len() && rec_key_is(#[trigger] out[m], sid, w);
                        assert(m != rs.len());
                        assert(rec_key_is(rs[m], sid, w));
                    }
                }
            }
        }
        assert forall|i: int| 0 <= i < out.len() implies out[i] == r || rs.contains(
            #[trigger] out[i],
        ) by {
            if i < rs.len() {
                assert(out[i] == rs[i]);
            }
        }
    }
}

/// The record store after marking the first `k` of `ids` with status
/// `st` for week `w`: ids on the roster are upserted in order, the rest
/// leave no trace.
pub open spec fn mark_upto(
    rs: Seq<RecordV>,
    roster: Seq<StudentV>,
    ids: Seq<Seq<char>>,
    k: int,
    w: u32,
    st: Status,
) -> Seq<RecordV>
    decreases k,
{
    if k <= 0 {
        rs
    } else {
        let prev = mark_upto(rs, roster, ids, k - 1, w, st);
        if has_student(roster, ids[k - 1]) {
            upsert(prev, RecordV { student: ids[k - 1], week: w, status: st })
        } else {
            prev
        }
    }
}

/// The record store after marking all of `ids`.
pub open spec fn marked(
    rs: Seq<RecordV>,
    roster: Seq<StudentV>,
    ids: Seq<Seq<char>>,
    w: u32,
    st: Status,
) -> Seq<RecordV> {
    mark_upto(rs, roster, ids, ids.len() as int, w, st)
}

/// The ids among the first `k` of `ids` that are not on the roster, in
/// order of appearance, repeats kept.
pub open spec fn skipped_upto(roster: Seq<StudentV>, ids: Seq<Seq<char>>, k: int) -> Seq<
    Seq<char>,
>
    decreases k,
{
    if k <= 0 {
        Seq::empty()
    } else {
        let prev = skipped_upto(roster, ids, k - 1);
        if has_student(roster, ids[k - 1]) {
            prev
        } else {
            prev.push(ids[k - 1])
        }
    }
}

/// The ids of `ids` that are not on the roster.
pub open spec fn skipped_ids(roster: Seq<StudentV>, ids: Seq<Seq<char>>) -> Seq<Seq<char>> {
    skipped_upto(roster, ids, ids.len() as int)
}

/// Marking keeps keys unique and every new record on-roster for week
/// `w`, and changes the observable map exactly on the marked keys.
pub proof fn lemma_mark_upto(
    rs: Seq<RecordV>,
    roster: Seq<StudentV>,
    ids: Seq<Seq<char>>,
    k: int,
    w: u32,
    st: Status,
)
    requires
        unique_keys(rs),
        0 <= k <= ids.len(),
    ensures
        unique_keys(mark_upto(rs, roster, ids, k, w, st)),
        forall|i: int|
            0 <= i < mark_upto(rs, roster, ids, k, w, st).len() ==> rs.contains(
                #[trigger] mark_upto(rs, roster, ids, k, w, st)[i],
            ) || (has_student(roster, mark_upto(rs, roster, ids, k, w, st)[i].student)
                && mark_upto(rs, roster, ids, k, w, st)[i].week == w),
        forall|sid: Seq<char>, w2: u32|
            #[trigger] status_of(mark_upto(rs, roster, ids, k, w, st), sid, w2) == (if w2 == w
                && has_student(roster, sid) && ids.take(k).contains(sid) {
                Some(st)
            } else {
                status_of(rs, sid, w2)
            }),
    decreases k,
{
    let out = mark_upto(rs, roster, ids, k, w, st);
    if k <= 0 {
        assert forall|sid: Seq<char>, w2: u32| true implies #[trigger] status_of(out, sid, w2)
            == (if w2 == w && has_student(roster, sid) && ids.take(k).contains(sid) {
            Some(st)
        } else {
            status_of(rs, sid, w2)
        }) by {
            assert(!ids.take(k).contains(sid));
        }
    } else {
        let prev = mark_upto(rs, roster, ids, k - 1, w, st);
        lemma_mark_upto(rs, roster, ids, k - 1, w, st);
        if has_student(roster, ids[k - 1]) {
            let r = RecordV { student: ids[k - 1], week: w, status: st };
            lemma_upsert(prev, r);
            assert forall|i: int| 0 <= i < out.len() implies rs.contains(#[trigger] out[i]) || (
            has_student(roster, out[i].student) && out[i].week == w) by {
                if out[i] != r {
                    assert(prev.contains(out[i]));
                    let j = choose|j: int| 0 <= j < prev.len() && prev[j] == out[i];
                }
            }
            assert forall|sid: Seq<char>, w2: u32| true implies #[trigger] status_of(out, sid, w2)
                == (if w2 == w && has_student(roster, sid) && ids.take(k).contains(sid) {
                Some(st)
            } else {
                status_of(rs, sid, w2)
            }) by {
                if sid == ids[k - 1] && w2 == w {
                    assert(ids.take(k)[k - 1] == ids[k - 1]);
                    assert(ids.take(k).contains(sid));
                } else {
                    assert(status_of(out, sid, w2) == status_of(prev, sid, w2));
                    if ids.take(k).contains(sid) {
                        let j = choose|j: int| 0 <= j < k && #[trigger] ids.take(k)[j] == sid;
                        if j < k - 1 {
                            assert(ids.take(k - 1)[j] == sid);
                            assert(ids.take(k - 1).contains(sid));
                        }
                    }
                    if ids.take(k - 1).contains(sid) {
                        let j = choose|j: int| 0 <= j < k - 1 && #[trigger] ids.take(k - 1)[j] == sid;
                        assert(ids.take(k)[j] == sid);
                        assert(ids.take(k).contains(sid));
                    }
                }
            }
        } else {
            assert(out == prev);
            assert forall|sid: Seq<char>, w2: u32| true implies #[trigger] status_of(out, sid, w2)
                == (if w2 == w && has_student(roster, sid) && ids.take(k).contains(sid) {
                Some(st)
            } else {
                status_of(rs, sid, w2)
            }) by {
                if ids.take(k).contains(sid) && has_student(roster, sid) {
                    let j = choose|j: int| 0 <= j < k && #[trigger] ids.take(k)[j] == sid;
                    assert(j != k - 1);
                    assert(ids.take(k - 1)[j] == sid);
                    assert(ids.take(k - 1).contains(sid));
                } else if ids.take(k - 1).contains(sid) {
                    let j = choose|j: int| 0 <= j < k - 1 && #[trigger] ids.take(k - 1)[j] == sid;
                    assert(ids.take(k)[j] == sid);
                    assert(ids.take(k).contains(sid));
                }
            }
        }
    }
}


/// The record store after walking the first `k` roster entries and
/// appending an explicit absent record for week `w` for each entry that
/// had no record for `w`; existing records are untouched.
pub open spec fn absent_fill_upto(
    rs: Seq<RecordV>,
    roster: Seq<StudentV>,
    k: int,
    w: u32,
) -> Seq<RecordV>
    decreases k,
{
    if k <= 0 {
        rs
    } else {
        let prev = absent_fill_upto(rs, roster, k - 1, w);
        if has_rec(rs, roster[k - 1].id, w) {
            prev
        } else {
            prev.push(RecordV { student: roster[k - 1].id, week: w, status: Status::Absent })
        }
    }
}

/// The record store after materializing absents for week `w` for the
/// whole roster.
pub open spec fn absent_filled(rs: Seq<RecordV>, roster: Seq<StudentV>, w: u32) -> Seq<RecordV> {
    absent_fill_upto(rs, roster, roster.len() as int, w)
}

/// How many of the first `k` roster entries have no record for week `w`.
pub open spec fn missing_upto(rs: Seq<RecordV>, roster: Seq<StudentV>, k: int, w: u32) -> int
    decreases k,
{
    if k <= 0 {
        0
    } else {
        missing_upto(rs, roster, k - 1, w) + (if has_rec(rs, roster[k - 1].id, w) {
            0int
        } else {
            1int
        })
    }
}

/// How many roster entries have no record for week `w`.
pub open spec fn missing_count(rs: Seq<RecordV>, roster: Seq<StudentV>, w: u32) -> int {
    missing_upto(rs, roster, roster.len() as int, w)
}

/// Filling absents keeps keys unique and records on-roster, adds one
/// record per uncovered roster entry, and changes the observable map
/// exactly by giving uncovered walked entries an absent record.
pub proof fn lemma_absent_fill(rs: Seq<RecordV>, roster: Seq<StudentV>, k: int, w: u32)
    requires
        unique_keys(rs),
        unique_ids(roster),
        0 <= k <= roster.len(),
    ensures
        unique_keys(absent_fill_upto(rs, roster, k, w)),
        forall|i: int|
            0 <= i < absent_fill_upto(rs, roster, k, w).len() ==> rs.contains(
                #[trigger] absent_fill_upto(rs, roster, k, w)[i],
            ) || (has_student(roster, absent_fill_upto(rs, roster, k, w)[i].student)
                && absent_fill_upto(rs, roster, k, w)[i].week == w),
        absent_fill_upto(rs, roster, k, w).len() == rs.len() + missing_upto(rs, roster, k, w),
        0 <= missing_upto(rs, roster, k, w) <= k,
        forall|sid: Seq<char>, w2: u32|
            #[trigger] status_of(absent_fill_upto(rs, roster, k, w), sid, w2) == (if w2 == w
                && !has_rec(rs, sid, w) && (exists|j: int|
                0 <= j < k && (#[trigger] roster[j]).id == sid) {
                Some(Status::Absent)
            } else {
                status_of(rs, sid, w2)
            }),
    decreases k,
{
    let out = absent_fill_upto(rs, roster, k, w);
    if k <= 0 {
        assert forall|sid: Seq<char>, w2: u32| true implies #[trigger] status_of(out, sid, w2) == (
        if w2 == w && !has_rec(rs, sid, w) && (exists|j: int|
            0 <= j < k && (#[trigger] roster[j]).id == sid) {
            Some(Status::Absent)
        } else {
            status_of(rs, sid, w2)
        }) by {}
    } else {
        let prev = absent_fill_upto(rs, roster, k - 1, w);
        lemma_absent_fill(rs, roster, k - 1, w);
        let rid = roster[k - 1].id;
        if has_rec(rs, rid, w) {
            assert(out == prev);
            assert forall|sid: Seq<char>, w2: u32| true implies #[trigger] status_of(out, sid, w2)
                == (if w2 == w && !has_rec(rs, sid, w) && (exists|j: int|
                0 <= j < k && (#[trigger] roster[j]).id == sid) {
                Some(Status::Absent)
            } else {
                status_of(rs, sid, w2)
            }) by {
                if w2 == w && !has_rec(rs, sid, w) && (exists|j: int|
                    0 <= j < k && (#[trigger] roster[j]).id == sid) {
                    let j = choose|j: int| 0 <= j < k && (#[trigger] roster[j]).id == sid;
                    assert(j != k - 1);
                } else {
                    if exists|j: int| 0 <= j < k - 1 && (#[trigger] roster[j]).id == sid {
                        let j = choose|j: int| 0 <= j < k - 1 && (#[trigger] roster[j]).id == sid;
                        assert(0 <= j < k && roster[j].id == sid);
                    }
                }
            }
        } else {
            let r = RecordV { student: rid, week: w, status: Status::Absent };
            assert(!has_rec(prev, rid, w)) by {
                assert(status_of(prev, rid, w) == (if w == w && !has_rec(rs, rid, w) && (
                exists|j: int| 0 <= j < k - 1 && (#[trigger] roster[j]).id == rid) {
                    Some(Status::Absent)
                } else {
                    status_of(rs, rid, w)
                }));
                if exists|j: int| 0 <= j < k - 1 && (#[trigger] roster[j]).id == rid {
                    let j = choose|j: int| 0 <= j < k - 1 && (#[trigger] roster[j]).id == rid;
                    assert(roster[j].id == roster[k - 1].id);
                    assert(false);
                }
                assert(status_of(prev, rid, w) == status_of(rs, rid, w));
                assert(status_of(rs, rid, w) is None);
            }
            lemma_upsert(prev, r);
            assert(out == upsert(prev, r));
            assert(missing_upto(rs, roster, k, w) == missing_upto(rs, roster, k - 1, w) + 1);
            assert forall|i: int| 0 <= i < out.len() implies rs.contains(#[trigger] out[i]) || (
            has_student(roster, out[i].student) && out[i].week == w) by {
                if out[i] != r {
                    assert(prev.contains(out[i]));
                    let j = choose|j: int| 0 <= j < prev.len() && prev[j] == out[i];
                } else {
                    assert(has_student(roster, rid)) by {
                        assert(roster[k - 1].id == rid);
                    }
                }
            }
            assert forall|sid: Seq<char>, w2: u32| true implies #[trigger] status_of(out, sid, w2)
                == (if w2 == w && !has_rec(rs, sid, w) && (exists|j: int|
                0 <= j < k && (#[trigger] roster[j]).id == sid) {
                Some(Status::Absent)
            } else {
                status_of(rs, sid, w2)
            }) by {
                if sid == rid && w2 == w {
                    assert(roster[k - 1].id == sid);
                } else {
                    assert(status_of(out, sid, w2) == status_of(prev, sid, w2));
                    if exists|j: int| 0 <= j < k && (#[trigger] roster[j]).id == sid {
                        let j = choose|j: int| 0 <= j < k && (#[trigger] roster[j]).id == sid;
                        if j < k - 1 {
                            assert(exists|j2: int|
                                0 <= j2 < k - 1 && (#[trigger] roster[j2]).id == sid);
                        } else {
                            assert(sid == rid);
                        }
                    }
                    if exists|j: int| 0 <= j < k - 1 && (#[trigger] roster[j]).id == sid {
                        let j = choose|j: int| 0 <= j < k - 1 && (#[trigger] roster[j]).id == sid;
                        assert(0 <= j < k && roster[j].id == sid);
                    }
                }
            }
        }
    }
}

impl AttendanceManager {
    /// Writes one record in place: replaces the record keyed by
    /// (`student_id`, `week`) or appends a fresh one.
    pub(crate) fn upsert_record(&mut self, week: u32, student_id: &str, status: Status)
        requires
            old(self).wf(),
            has_student(old(self).roster_v(), student_id@),
            1 <= week <= old(self).weeks@.len(),
        ensures
            final(self).wf(),
            final(self).recs() == upsert(
                old(self).recs(),
                RecordV { student: student_id@, week, status },
            ),
            final(self).roster@ == old(self).roster@,
            final(self).weeks@ == old(self).weeks@,
            final(self).current_week == old(self).current_week,
    {
        let ghost r = RecordV { student: student_id@, week, status };
        let ghost pre = *self;
        let mut i: usize = 0;
        let n = self.records.len();
        let mut found: Option<usize> = None;
        while i < n
            invariant
                *self == pre,
                pre.wf(),
                n == self.records@.len(),
                i <= n,
                found matches Some(fi) ==> fi < n && rec_key_is(self.recs()[fi as int], student_id@, week),
                found is None ==> forall|j: int|
                    0 <= j < i ==> !rec_key_is(#[trigger] self.recs()[j], student_id@, week),
            decreases n - i,
        {
            if found.is_none() && self.records[i].week == week
                && crate::text::str_eq(self.records[i].student.as_str(), student_id) {
                found = Some(i);
            }
            if found.is_none() {
                i = i + 1;
            } else {
                i = n;
            }
        }
        proof {
            lemma_upsert(pre.recs(), r);
        }
        match found {
            Some(fi) => {
                proof {
                    lemma_rec_at(pre.recs(), student_id@, week, fi as int);
                }
                self.records.set(
                    fi,
                    Attendance { student: student_id.to_owned(), week, status },
                );
                proof {
                    assert(self.recs() =~= pre.recs().update(
                        rec_index(pre.recs(), student_id@, week),
                        r,
                    ));
                    assert(self.recs() == upsert(pre.recs(), r));
                }
            },
            None => {
                proof {
                    assert(!has_rec(pre.recs(), student_id@, week)) by {
                        if has_rec(pre.recs(), student_id@, week) {
                            let m = choose|m: int|
                                0 <= m < pre.recs().len() && rec_key_is(
                                    #[trigger] pre.recs()[m],
                                    student_id@,
                                    week,
                                );
                        }
                    }
                }
                self.records.push(Attendance { student: student_id.to_owned(), week, status });
                proof {
                    assert(self.recs() =~= pre.recs().push(r));
                }
            },
        }
        proof {
            assert forall|a: int| 0 <= a < self.recs().len() implies has_student(
                self.roster_v(),
                (#[trigger] self.recs()[a]).student,
            ) && 1 <= self.recs()[a].week <= self.weeks@.len() by {
                if self.recs()[a] != r {
                    assert(pre.recs().contains(self.recs()[a]));
                    let b = choose|b: int|
                        0 <= b < pre.recs().len() && pre.recs()[b] == self.recs()[a];
                }
            }
        }
    }

    /// For a given week, marks all of the given students with the given
    /// status, replacing any existing record for the same (student,
    /// week) pair.  Ids not on the roster are skipped, and returned so
    /// that the caller can report them; the rest of the batch still
    /// applies.  An unknown week is refused before anything is written.
    pub fn mark(&mut self, week: u32, student_ids: &Vec<String>, status: Status) -> (r: Result<
        Vec<String>,
        AttendanceError,
    >)
        requires
            old(self).wf(),
        ensures
            final(self).wf(),
            1 <= week <= old(self).weeks@.len() ==> (r matches Ok(skipped) && final(self).recs()
                == marked(
                old(self).recs(),
                old(self).roster_v(),
                str_views(student_ids@),
                week,
                status,
            ) && str_views(skipped@) == skipped_ids(old(self).roster_v(), str_views(student_ids@))),
            1 <= week <= old(self).weeks@.len() ==> forall|sid: Seq<char>, w2: u32|
                #[trigger] status_of(final(self).recs(), sid, w2) == (if w2 == week && has_student(
                    old(self).roster_v(),
                    sid,
                ) && str_views(student_ids@).contains(sid) {
                    Some(status)
                } else {
                    status_of(old(self).recs(), sid, w2)
                }),
            !(1 <= week <= old(self).weeks@.len()) ==> r == Err::<Vec<String>, AttendanceError>(
                AttendanceError::NonexistentWeek(week),
            ) && *final(self) == *old(self),
            final(self).roster@ == old(self).roster@,
            final(self).weeks@ == old(self).weeks@,
            final(self).current_week == old(self).current_week,
    {
        if week < 1 || week as usize > self.weeks.len() {
            return Err(AttendanceError::NonexistentWeek(week));
        }
        let ghost pre = *self;
        let ghost idsv = str_views(student_ids@);
        let mut skipped: Vec<String> = Vec::new();
        let mut k: usize = 0;
        while k < student_ids.len()
            invariant
                pre.wf(),
                self.wf(),
                1 <= week <= pre.weeks@.len(),
                k <= student_ids@.len(),
                idsv == str_views(student_ids@),
                self.roster@ == pre.roster@,
                self.weeks@ == pre.weeks@,
                self.current_week == pre.current_week,
                self.recs() == mark_upto(pre.recs(), pre.roster_v(), idsv, k as int, week, status),
                str_views(skipped@) =~= skipped_upto(pre.roster_v(), idsv, k as int),
            decreases student_ids@.len() - k,
        {
            let ghost prev_recs = self.recs();
            match self.find_student(student_ids[k].as_str()) {
                Some(_) => {
                    self.upsert_record(week, student_ids[k].as_str(), status);
                    proof {
                        assert(idsv[k as int] == student_ids@[k as int]@);
                        assert(self.recs() == mark_upto(
                            pre.recs(),
                            pre.roster_v(),
                            idsv,
                            k + 1,
                            week,
                            status,
                        ));
                        assert(str_views(skipped@) =~= skipped_upto(
                            pre.roster_v(),
                            idsv,
                            k + 1,
                        ));
                    }
                },
                None => {
                    skipped.push(student_ids[k].clone());
                    proof {
                        assert(idsv[k as int] == student_ids@[k as int]@);
                        assert(self.recs() == mark_upto(
                            pre.recs(),
                            pre.roster_v(),
                            idsv,
                            k + 1,
                            week,
                            status,
                        ));
                        assert(str_views(skipped@) =~= skipped_upto(
                            pre.roster_v(),
                            idsv,
                            k + 1,
                        ));
                    }
                },
            }
            k = k + 1;
        }
        proof {
            assert(idsv.len() == student_ids@.len());
            lemma_mark_upto(
                pre.recs(),
                pre.roster_v(),
                idsv,
                idsv.len() as int,
                week,
                status,
            );
            assert(idsv.take(idsv.len() as int) =~= idsv);
        }
        Ok(skipped)
    }

    /// For a given week, marks all of the given students present;
    /// unknown ids are skipped and returned.
    pub fn mark_present(&mut self, week: u32, student_ids: &Vec<String>) -> (r: Result<
        Vec<String>,
        AttendanceError,
    >)
        requires
            old(self).wf(),
        ensures
            final(self).wf(),
            1 <= week <= old(self).weeks@.len() ==> (r matches Ok(skipped) && final(self).recs()
                == marked(
                old(self).recs(),
                old(self).roster_v(),
                str_views(student_ids@),
                week,
                Status::Present,
            ) && str_views(skipped@) == skipped_ids(old(self).roster_v(), str_views(student_ids@))),
            !(1 <= week <= old(self).weeks@.len()) ==> r == Err::<Vec<String>, AttendanceError>(
                AttendanceError::NonexistentWeek(week),
            ) && *final(self) == *old(self),
            final(self).roster@ == old(self).roster@,
            final(self).weeks@ == old(self).weeks@,
            final(self).current_week == old(self).current_week,
    {
        self.mark(week, student_ids, Status::Present)
    }

    /// For a given week, marks all of the given students excused;
    /// unknown ids are skipped and returned.
    pub fn mark_excused(&mut self, week: u32, student_ids: &Vec<String>) -> (r: Result<
        Vec<String>,
        AttendanceError,
    >)
        requires
            old(self).wf(),
        ensures
            final(self).wf(),
            1 <= week <= old(self).weeks@.len() ==> (r matches Ok(skipped) && final(self).recs()
                == marked(
                old(self).recs(),
                old(self).roster_v(),
                str_views(student_ids@),
                week,
                Status::Excused,
            ) && str_views(skipped@) == skipped_ids(old(self).roster_v(), str_views(student_ids@))),
            !(1 <= week <= old(self).weeks@.len()) ==> r == Err::<Vec<String>, AttendanceError>(
                AttendanceError::NonexistentWeek(week),
            ) && *final(self) == *old(self),
            final(self).roster@ == old(self).roster@,
            final(self).weeks@ == old(self).weeks@,
            final(self).current_week == old(self).current_week,
    {
        self.mark(week, student_ids, Status::Excused)
    }

    /// The position of the record keyed by (`student_id`, `week`), if
    /// any.
    pub(crate) fn find_record(&self, student_id: &str, week: u32) -> (r: Option<usize>)
        requires
            self.wf(),
        ensures
            r matches Some(i) ==> i < self.records@.len() && rec_key_is(
                self.recs()[i as int],
                student_id@,
                week,
            ) && has_rec(self.recs(), student_id@, week) && rec_index(
                self.recs(),
                student_id@,
                week,
            ) == i as int,
            r is None ==> !has_rec(self.recs(), student_id@, week),
    {
        let n = self.records.len();
        let mut i: usize = 0;
        while i < n
            invariant
                self.wf(),
                n == self.records@.len(),
                i <= n,
                forall|j: int| 0 <= j < i ==> !rec_key_is(#[trigger] self.recs()[j], student_id@, week),
            decreases n - i,
        {
            if self.records[i].week == week
                && crate::text::str_eq(self.records[i].student.as_str(), student_id) {
                proof {
                    lemma_rec_at(self.recs(), student_id@, week, i as int);
                }
                return Some(i);
            }
            i = i + 1;
        }
        None
    }

    /// For a given week, marks every roster student who has no record
    /// yet with an explicit absent record, and returns how many were
    /// inserted; existing records are untouched, so a second call
    /// inserts nothing.  An unknown week is refused.
    pub fn mark_remaining_absent(&mut self, week: u32) -> (r: Result<usize, AttendanceError>)
        requires
            old(self).wf(),
        ensures
            final(self).wf(),
            1 <= week <= old(self).weeks@.len() ==> (r matches Ok(n) && n as int == missing_count(
                old(self).recs(),
                old(self).roster_v(),
                week,
            ) && final(self).recs() == absent_filled(
                old(self).recs(),
                old(self).roster_v(),
                week,
            )),
            1 <= week <= old(self).weeks@.len() ==> forall|sid: Seq<char>, w2: u32|
                #[trigger] status_of(final(self).recs(), sid, w2) == (if w2 == week && !has_rec(
                    old(self).recs(),
                    sid,
                    week,
                ) && has_student(old(self).roster_v(), sid) {
                    Some(Status::Absent)
                } else {
                    status_of(old(self).recs(), sid, w2)
                }),
            !(1 <= week <= old(self).weeks@.len()) ==> r == Err::<usize, AttendanceError>(
                AttendanceError::NonexistentWeek(week),
            ) && *final(self) == *old(self),
            final(self).roster@ == old(self).roster@,
            final(self).weeks@ == old(self).weeks@,
            final(self).current_week == old(self).current_week,
    {
        if week < 1 || week as usize > self.weeks.len() {
            return Err(AttendanceError::NonexistentWeek(week));
        }
        let ghost pre = *self;
        let mut count: usize = 0;
        let mut k: usize = 0;
        let n = self.roster.len();
        while k < n
            invariant
                pre.wf(),
                self.wf(),
                1 <= week <= pre.weeks@.len(),
                n == pre.roster@.len(),
                k <= n,
                self.roster@ == pre.roster@,
                self.weeks@ == pre.weeks@,
                self.current_week == pre.current_week,
                self.recs() == absent_fill_upto(pre.recs(), pre.roster_v(), k as int, week),
                count as int == missing_upto(pre.recs(), pre.roster_v(), k as int, week),
                count <= k,
            decreases n - k,
        {
            let sid = self.roster[k].id.clone();
            proof {
                lemma_absent_fill(pre.recs(), pre.roster_v(), k as int, week);
                assert(pre.roster_v()[k as int].id == sid@);
                assert(status_of(self.recs(), sid@, week) == (if !has_rec(pre.recs(), sid@, week)
                    && (exists|j: int|
                    0 <= j < k && (#[trigger] pre.roster_v()[j]).id == sid@) {
                    Some(Status::Absent)
                } else {
                    status_of(pre.recs(), sid@, week)
                }));
                if exists|j: int| 0 <= j < k && (#[trigger] pre.roster_v()[j]).id == sid@ {
                    let j = choose|j: int|
                        0 <= j < k && (#[trigger] pre.roster_v()[j]).id == sid@;
                    assert(pre.roster_v()[j].id == pre.roster_v()[k as int].id);
                    assert(false);
                }
                assert(status_of(self.recs(), sid@, week) == status_of(pre.recs(), sid@, week));
            }
            match self.find_record(sid.as_str(), week) {
                Some(_) => {
                    proof {
                        assert(has_rec(pre.recs(), sid@, week));
                        assert(self.recs() == absent_fill_upto(
                            pre.recs(),
                            pre.roster_v(),
                            k + 1,
                            week,
                        ));
                    }
                },
                None => {
                    proof {
                        assert(!has_rec(pre.recs(), sid@, week)) by {
                            if has_rec(pre.recs(), sid@, week) {
                                let m = rec_index(pre.recs(), sid@, week);
                                lemma_rec_at(pre.recs(), sid@, week, m);
                            }
                        }
                    }
                    let ghost prev_recs = self.recs();
                    self.records.push(
                        Attendance { student: sid, week, status: Status::Absent },
                    );
                    count = count + 1;
                    proof {
                        assert(self.recs() =~= prev_recs.push(
                            RecordV {
                                student: pre.roster_v()[k as int].id,
                                week,
                                status: Status::Absent,
                            },
                        ));
                        assert(self.recs() == absent_fill_upto(
                            pre.recs(),
                            pre.roster_v(),
                            k + 1,
                            week,
                        ));
                        lemma_absent_fill(pre.recs(), pre.roster_v(), k + 1, week);
                    }
                },
            }
            proof {
                lemma_absent_fill(pre.recs(), pre.roster_v(), k + 1, week);
            }
            k = k + 1;
        }
        proof {
            lemma_absent_fill(pre.recs(), pre.roster_v(), pre.roster@.len() as int, week);
            assert forall|sid: Seq<char>, w2: u32| true implies #[trigger] status_of(
                self.recs(),
                sid,
                w2,
            ) == (if w2 == week && !has_rec(pre.recs(), sid, week) && has_student(
                pre.roster_v(),
                sid,
            ) {
                Some(Status::Absent)
            } else {
                status_of(pre.recs(), sid, w2)
            }) by {
                if has_student(pre.roster_v(), sid) {
                    let j = student_index(pre.roster_v(), sid);
                    assert(0 <= j < pre.roster_v().len() && pre.roster_v()[j].id == sid);
                }
            }
        }
        Ok(count)
    }
}

} // verus!
