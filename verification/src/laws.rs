//! The engine's laws: idempotence of marking, idempotence of absent
//! materialization, stability of the absence aggregation under absent
//! materialization, and stability of reconciliation against an unchanged
//! roster.  Each is stated over the same spec functions that the
//! corresponding operations' contracts use, so what the operations
//! promise is exactly what the laws speak about.

use vstd::prelude::*;
use crate::aggregate::{unexcused_count, unexcused_in_range};
use crate::attendance::{
    absent_fill_upto, absent_filled, lemma_absent_fill, lemma_mark_upto, mark_upto, marked,
    missing_count, missing_upto, upsert,
};
use crate::manager::{
    has_rec, has_student, rec_index, rec_key_is, roster_view, status_of, unique_ids, unique_keys,
    lemma_rec_at, lemma_student_at,
};
use crate::models::{RecordV, Status, Student, StudentV};
use crate::reconcile::snapshot_entry;
use crate::stats::unexcused;

verus! {

/// Writing a record that is already there, byte for byte, changes
/// nothing.
proof fn lemma_upsert_noop(rs: Seq<RecordV>, r: RecordV)
    requires
        unique_keys(rs),
        has_rec(rs, r.student, r.week),
        rs[rec_index(rs, r.student, r.week)] == r,
    ensures
        upsert(rs, r) == rs,
{
    let idx = rec_index(rs, r.student, r.week);
    assert(0 <= idx < rs.len() && rec_key_is(rs[idx], r.student, r.week));
    assert(rs.update(idx, r) =~= rs);
}

/// After a batch mark, every marked key holds exactly the record the
/// mark wrote.
proof fn lemma_marked_key_pinned(
    rs: Seq<RecordV>,
    roster: Seq<StudentV>,
    ids: Seq<Seq<char>>,
    w: u32,
    st: Status,
    sid: Seq<char>,
)
    requires
        unique_keys(rs),
        has_student(roster, sid),
        ids.contains(sid),
    ensures
        has_rec(marked(rs, roster, ids, w, st), sid, w),
        marked(rs, roster, ids, w, st)[rec_index(marked(rs, roster, ids, w, st), sid, w)]
            == (RecordV { student: sid, week: w, status: st }),
{
    let out = marked(rs, roster, ids, w, st);
    lemma_mark_upto(rs, roster, ids, ids.len() as int, w, st);
    assert(ids.take(ids.len() as int) =~= ids);
    assert(status_of(out, sid, w) == Some(st));
    let idx = rec_index(out, sid, w);
    assert(rec_key_is(out[idx], sid, w));
    assert(out[idx].status == st);
    assert(out[idx] == (RecordV { student: sid, week: w, status: st }));
}

/// Marking is idempotent: marking the same batch of students with the
/// same status for the same week a second time leaves the record store
/// exactly as the first marking left it.
pub proof fn lemma_mark_idempotent(
    rs: Seq<RecordV>,
    roster: Seq<StudentV>,
    ids: Seq<Seq<char>>,
    w: u32,
    st: Status,
)
    requires
        unique_keys(rs),
    ensures
        marked(marked(rs, roster, ids, w, st), roster, ids, w, st) == marked(
            rs,
            roster,
            ids,
            w,
            st,
        ),
{
    let r1 = marked(rs, roster, ids, w, st);
    lemma_mark_upto(rs, roster, ids, ids.len() as int, w, st);
    lemma_mark_upto_fixed(rs, roster, ids, ids.len() as int, w, st);
}

/// Every prefix of the second marking pass leaves the once-marked store
/// unchanged.
proof fn lemma_mark_upto_fixed(
    rs: Seq<RecordV>,
    roster: Seq<StudentV>,
    ids: Seq<Seq<char>>,
    k: int,
    w: u32,
    st: Status,
)
    requires
        unique_keys(rs),
        0 <= k <= ids.len(),
    ensures
        mark_upto(marked(rs, roster, ids, w, st), roster, ids, k, w, st) == marked(
            rs,
            roster,
            ids,
            w,
            st,
        ),
    decreases k,
{
    let r1 = marked(rs, roster, ids, w, st);
    lemma_mark_upto(rs, roster, ids, ids.len() as int, w, st);
    if k > 0 {
        lemma_mark_upto_fixed(rs, roster, ids, k - 1, w, st);
        if has_student(roster, ids[k - 1]) {
            assert(ids.contains(ids[k - 1]));
            lemma_marked_key_pinned(rs, roster, ids, w, st, ids[k - 1]);
            lemma_upsert_noop(r1, RecordV { student: ids[k - 1], week: w, status: st });
        }
    }
}

/// After materializing absents for a week, every roster student has a
/// record for that week.
proof fn lemma_filled_covers(rs: Seq<RecordV>, roster: Seq<StudentV>, w: u32, j: int)
    requires
        unique_keys(rs),
        unique_ids(roster),
        0 <= j < roster.len(),
    ensures
        has_rec(absent_filled(rs, roster, w), roster[j].id, w),
{
    lemma_absent_fill(rs, roster, roster.len() as int, w);
    let sid = roster[j].id;
    assert(status_of(absent_filled(rs, roster, w), sid, w) == (if !has_rec(rs, sid, w) && (
    exists|j2: int| 0 <= j2 < roster.len() && (#[trigger] roster[j2]).id == sid) {
        Some(Status::Absent)
    } else {
        status_of(rs, sid, w)
    }));
    if !has_rec(rs, sid, w) {
        assert(roster[j].id == sid);
        assert(status_of(absent_filled(rs, roster, w), sid, w) == Some(Status::Absent));
    } else {
        let m = rec_index(rs, sid, w);
        lemma_rec_at(rs, sid, w, m);
        assert(status_of(absent_filled(rs, roster, w), sid, w) == status_of(rs, sid, w));
    }
}

/// Materializing absents is idempotent: once every roster student has a
/// record for the week, a second pass finds nobody missing and inserts
/// nothing.
pub proof fn lemma_mark_remaining_absent_idempotent(
    rs: Seq<RecordV>,
    roster: Seq<StudentV>,
    w: u32,
)
    requires
        unique_keys(rs),
        unique_ids(roster),
    ensures
        missing_count(absent_filled(rs, roster, w), roster, w) == 0,
        absent_filled(absent_filled(rs, roster, w), roster, w) == absent_filled(rs, roster, w),
{
    lemma_fill_fixed(rs, roster, roster.len() as int, w);
}

/// Every prefix of the second materialization pass finds nobody missing
/// and changes nothing.
proof fn lemma_fill_fixed(rs: Seq<RecordV>, roster: Seq<StudentV>, k: int, w: u32)
    requires
        unique_keys(rs),
        unique_ids(roster),
        0 <= k <= roster.len(),
    ensures
        missing_upto(absent_filled(rs, roster, w), roster, k, w) == 0,
        absent_fill_upto(absent_filled(rs, roster, w), roster, k, w) == absent_filled(
            rs,
            roster,
            w,
        ),
    decreases k,
{
    if k > 0 {
        lemma_fill_fixed(rs, roster, k - 1, w);
        lemma_filled_covers(rs, roster, w, k - 1);
    }
}

/// The absence aggregation is blind to absent materialization: for any
/// student and any exclusive upper week, the unexcused count over the
/// store with materialized absents equals the count over the store
/// without them.  A week carrying a present or excused record is never
/// counted either way.
pub proof fn lemma_unexcused_count_stable(
    rs: Seq<RecordV>,
    roster: Seq<StudentV>,
    fill_week: u32,
    sid: Seq<char>,
    upto: u32,
)
    requires
        unique_keys(rs),
        unique_ids(roster),
    ensures
        unexcused_count(absent_filled(rs, roster, fill_week), sid, upto) == unexcused_count(
            rs,
            sid,
            upto,
        ),
{
    lemma_unexcused_range_stable(rs, roster, fill_week, sid, upto - 1);
}

/// The week-by-week absence tally is unchanged by materialized absents.
proof fn lemma_unexcused_range_stable(
    rs: Seq<RecordV>,
    roster: Seq<StudentV>,
    fill_week: u32,
    sid: Seq<char>,
    k: int,
)
    requires
        unique_keys(rs),
        unique_ids(roster),
    ensures
        unexcused_in_range(absent_filled(rs, roster, fill_week), sid, k) == unexcused_in_range(
            rs,
            sid,
            k,
        ),
    decreases k,
{
    if k > 0 {
        lemma_unexcused_range_stable(rs, roster, fill_week, sid, k - 1);
        lemma_absent_fill(rs, roster, roster.len() as int, fill_week);
        let w2 = k as u32;
        assert(unexcused(absent_filled(rs, roster, fill_week), sid, w2) == unexcused(
            rs,
            sid,
            w2,
        )) by {
            if status_of(absent_filled(rs, roster, fill_week), sid, w2) != status_of(
                rs,
                sid,
                w2,
            ) {
                assert(status_of(absent_filled(rs, roster, fill_week), sid, w2) == Some(
                    Status::Absent,
                ) && status_of(rs, sid, w2) is None);
            }
        }
    }
}

/// A filter that keeps everything returns the sequence unchanged.
proof fn lemma_filter_all<A>(s: Seq<A>, pred: spec_fn(A) -> bool)
    requires
        forall|i: int| 0 <= i < s.len() ==> pred(#[trigger] s[i]),
    ensures
        s.filter(pred) == s,
    decreases s.len(),
{
    reveal(Seq::filter);
    if s.len() > 0 {
        assert forall|i: int| 0 <= i < s.drop_last().len() implies pred(
            #[trigger] s.drop_last()[i],
        ) by {
            assert(s.drop_last()[i] == s[i]);
        }
        lemma_filter_all(s.drop_last(), pred);
        assert(s.filter(pred) =~= s);
    }
}

/// A filter that keeps nothing returns the empty sequence.
proof fn lemma_filter_none<A>(s: Seq<A>, pred: spec_fn(A) -> bool)
    requires
        forall|i: int| 0 <= i < s.len() ==> !pred(#[trigger] s[i]),
    ensures
        s.filter(pred) == Seq::<A>::empty(),
    decreases s.len(),
{
    reveal(Seq::filter);
    if s.len() > 0 {
        assert forall|i: int| 0 <= i < s.drop_last().len() implies !pred(
            #[trigger] s.drop_last()[i],
        ) by {
            assert(s.drop_last()[i] == s[i]);
        }
        lemma_filter_none(s.drop_last(), pred);
        assert(s.filter(pred) =~= Seq::<A>::empty());
    }
}

/// Reconciling against a snapshot equal to the current roster drops
/// nobody, adds nobody, and rebuilds the roster exactly as it was.
pub proof fn lemma_reconcile_self(roster: Seq<Student>)
    requires
        unique_ids(roster_view(roster)),
    ensures
        roster.filter((|s: Student| !has_student(roster_view(roster), s@.id))) == Seq::<
            Student,
        >::empty(),
        roster.filter((|s: Student| has_student(roster_view(roster), s@.id))).map_values(
            |s: Student| snapshot_entry(roster, s@.id),
        ) == roster,
{
    let rv = roster_view(roster);
    assert forall|i: int| 0 <= i < roster.len() implies has_student(
        rv,
        (#[trigger] roster[i])@.id,
    ) by {
        assert(rv[i].id == roster[i]@.id);
    }
    lemma_filter_none(roster, |s: Student| !has_student(rv, s@.id));
    lemma_filter_all(roster, |s: Student| has_student(rv, s@.id));
    assert(roster.filter((|s: Student| has_student(rv, s@.id))).map_values(
        |s: Student| snapshot_entry(roster, s@.id),
    ) =~= roster) by {
        assert forall|i: int| 0 <= i < roster.len() implies snapshot_entry(
            roster,
            (#[trigger] roster[i])@.id,
        ) == roster[i] by {
            lemma_student_at(rv, roster[i]@.id, i);
        }
    }
}

} // verus!
