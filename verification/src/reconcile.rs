//! Roster reconciliation against an external snapshot: an add/drop diff
//! keyed by student id, then applying it.
//!
//! The historical behavior compared full student records, so a student
//! with one changed field appeared as both dropped and added.  Here the
//! diff is keyed by id alone, and a student present on both sides keeps
//! their roster place with the snapshot's field values.

use vstd::prelude::*;
use crate::manager::{
    has_student, recs_view, roster_view, student_index, unique_ids, unique_keys, AttendanceManager,
    lemma_student_at,
};
use crate::models::{Attendance, AttendanceError, RecordV, Student};
use crate::seq_facts::{lemma_filter_subset, lemma_filter_take_step, lemma_filter_unique_keys};
use crate::text::str_eq;

verus! {

/// The snapshot entry carrying the id `sid`.
pub open spec fn snapshot_entry(snap: Seq<Student>, sid: Seq<char>) -> Student {
    snap[student_index(roster_view(snap), sid)]
}

/// Filtering a roster whose entries carry pairwise distinct ids keeps
/// the ids pairwise distinct.
pub proof fn lemma_filter_unique_ids(s: Seq<Student>, pred: spec_fn(Student) -> bool)
    requires
        forall|i: int, j: int| 0 <= i < j < s.len() ==> (#[trigger] s[i])@.id != (#[trigger] s[j])@.id,
    ensures
        forall|i: int, j: int|
            0 <= i < j < s.filter(pred).len() ==> (#[trigger] s.filter(pred)[i])@.id != (
            #[trigger] s.filter(pred)[j])@.id,
    decreases s.len(),
{
    reveal(Seq::filter);
    if s.len() > 0 {
        assert forall|i: int, j: int|
            0 <= i < j < s.drop_last().len() implies (#[trigger] s.drop_last()[i])@.id != (
        #[trigger] s.drop_last()[j])@.id by {
            assert(s.drop_last()[i] == s[i]);
            assert(s.drop_last()[j] == s[j]);
        }
        lemma_filter_unique_ids(s.drop_last(), pred);
        if pred(s.last()) {
            let sub = s.drop_last().filter(pred);
            assert forall|i: int, j: int|
                0 <= i < j < s.filter(pred).len() implies (#[trigger] s.filter(pred)[i])@.id != (
            #[trigger] s.filter(pred)[j])@.id by {
                if j == s.filter(pred).len() - 1 {
                    lemma_filter_subset(s.drop_last(), pred);
                    assert(s.drop_last().contains(sub[i]));
                    let k = choose|k: int|
                        0 <= k < s.drop_last().len() && s.drop_last()[k] == sub[i];
                    assert(s[k] == s.filter(pred)[i]);
                    assert(s.filter(pred)[j] == s.last());
                    assert(s[k]@.id != s[s.len() - 1]@.id);
                }
            }
        }
    }
}

/// Whether some entry of `v` carries the id `sid`.
fn roster_has(v: &Vec<Student>, sid: &str) -> (r: bool)
    ensures
        r == has_student(roster_view(v@), sid@),
{
    let mut k: usize = 0;
    while k < v.len()
        invariant
            k <= v@.len(),
            forall|j: int| 0 <= j < k ==> (#[trigger] roster_view(v@)[j]).id != sid@,
        decreases v@.len() - k,
    {
        if str_eq(v[k].id.as_str(), sid) {
            proof {
                assert(roster_view(v@)[k as int].id == sid@);
            }
            return true;
        }
        k = k + 1;
    }
    false
}

/// The position of the entry of `v` carrying `sid`, if any.
fn roster_find(v: &Vec<Student>, sid: &str) -> (r: Option<usize>)
    ensures
        r matches Some(i) ==> i < v@.len() && roster_view(v@)[i as int].id == sid@ && has_student(
            roster_view(v@),
            sid@,
        ),
        r is None ==> !has_student(roster_view(v@), sid@),
{
    let mut k: usize = 0;
    while k < v.len()
        invariant
            k <= v@.len(),
            forall|j: int| 0 <= j < k ==> (#[trigger] roster_view(v@)[j]).id != sid@,
        decreases v@.len() - k,
    {
        if str_eq(v[k].id.as_str(), sid) {
            proof {
                assert(roster_view(v@)[k as int].id == sid@);
            }
            return Some(k);
        }
        k = k + 1;
    }
    None
}

/// The id-keyed set difference of two rosters: who is only in
/// `current` (dropped), and who is only in `incoming` (added).
pub fn diff(current: &Vec<Student>, incoming: &Vec<Student>) -> (r: (Vec<Student>, Vec<Student>))
    ensures
        r.0@ == current@.filter(
            (|s: Student| !has_student(roster_view(incoming@), s@.id)),
        ),
        r.1@ == incoming@.filter(
            (|s: Student| !has_student(roster_view(current@), s@.id)),
        ),
{
    let ghost p_drop = |s: Student| !has_student(roster_view(incoming@), s@.id);
    let ghost p_add = |s: Student| !has_student(roster_view(current@), s@.id);
    let mut dropped: Vec<Student> = Vec::new();
    let mut k: usize = 0;
    while k < current.len()
        invariant
            k <= current@.len(),
            p_drop == (|s: Student| !has_student(roster_view(incoming@), s@.id)),
            dropped@ =~= current@.take(k as int).filter(p_drop),
        decreases current@.len() - k,
    {
        proof {
            lemma_filter_take_step(current@, k as int, p_drop);
            assert(roster_view(current@)[k as int].id == current@[k as int]@.id);
        }
        if !roster_has(incoming, current[k].id.as_str()) {
            dropped.push(current[k].clone());
        }
        k = k + 1;
    }
    let mut added: Vec<Student> = Vec::new();
    let mut k2: usize = 0;
    while k2 < incoming.len()
        invariant
            k2 <= incoming@.len(),
            p_add == (|s: Student| !has_student(roster_view(current@), s@.id)),
            added@ =~= incoming@.take(k2 as int).filter(p_add),
        decreases incoming@.len() - k2,
    {
        proof {
            lemma_filter_take_step(incoming@, k2 as int, p_add);
        }
        if !roster_has(current, incoming[k2].id.as_str()) {
            added.push(incoming[k2].clone());
        }
        k2 = k2 + 1;
    }
    proof {
        assert(current@.take(current@.len() as int) =~= current@);
        assert(incoming@.take(incoming@.len() as int) =~= incoming@);
    }
    (dropped, added)
}

impl AttendanceManager {
    /// Replaces the roster's membership to match the snapshot: students
    /// missing from the snapshot leave, with their records; students
    /// new in the snapshot join; students on both sides keep their
    /// roster place, with the snapshot's field values.  Returns the
    /// (dropped, added) diff.  A snapshot with a repeated id is refused
    /// whole.
    pub fn reconcile(&mut self, new_snapshot: &Vec<Student>) -> (r: Result<
        (Vec<Student>, Vec<Student>),
        AttendanceError,
    >)
        requires
            old(self).wf(),
        ensures
            final(self).wf(),
            !unique_ids(roster_view(new_snapshot@)) ==> r == Err::<
                (Vec<Student>, Vec<Student>),
                AttendanceError,
            >(AttendanceError::DuplicateKey) && *final(self) == *old(self),
            unique_ids(roster_view(new_snapshot@)) ==> (r matches Ok(p) && p.0@ == old(
                self,
            ).roster@.filter(
                (|s: Student| !has_student(roster_view(new_snapshot@), s@.id)),
            ) && p.1@ == new_snapshot@.filter(
                (|s: Student| !has_student(old(self).roster_v(), s@.id)),
            ) && final(self).roster@ == old(self).roster@.filter(
                (|s: Student| has_student(roster_view(new_snapshot@), s@.id)),
            ).map_values(|s: Student| snapshot_entry(new_snapshot@, s@.id)) + new_snapshot@.filter(
                (|s: Student| !has_student(old(self).roster_v(), s@.id)),
            ) && final(self).recs() == old(self).recs().filter(
                (|rv: RecordV| has_student(roster_view(new_snapshot@), rv.student)),
            )),
            final(self).weeks@ == old(self).weeks@,
            final(self).current_week == old(self).current_week,
    {
        let ghost snapv = roster_view(new_snapshot@);
        let mut i: usize = 0;
        while i < new_snapshot.len()
            invariant
                *self == *old(self),
                self.wf(),
                snapv == roster_view(new_snapshot@),
                i <= new_snapshot@.len(),
                forall|a: int, b: int| 0 <= a < b < i ==> (#[trigger] snapv[a]).id != (
                #[trigger] snapv[b]).id,
            decreases new_snapshot@.len() - i,
        {
            let mut j: usize = 0;
            while j < i
                invariant
                    *self == *old(self),
                    self.wf(),
                    snapv == roster_view(new_snapshot@),
                    i < new_snapshot@.len(),
                    j <= i,
                    forall|a: int, b: int| 0 <= a < b < i ==> (#[trigger] snapv[a]).id != (
                    #[trigger] snapv[b]).id,
                    forall|a: int| 0 <= a < j ==> (#[trigger] snapv[a]).id != snapv[i as int].id,
                decreases i - j,
            {
                if str_eq(new_snapshot[j].id.as_str(), new_snapshot[i].id.as_str()) {
                    proof {
                        assert(snapv[j as int].id == snapv[i as int].id);
                        assert(!unique_ids(snapv));
                    }
                    return Err(AttendanceError::DuplicateKey);
                }
                j = j + 1;
            }
            i = i + 1;
        }
        let ghost pre = *self;
        let ghost p_keep = |s: Student| has_student(snapv, s@.id);
        let ghost p_add = |s: Student| !has_student(pre.roster_v(), s@.id);
        let ghost upd = |s: Student| snapshot_entry(new_snapshot@, s@.id);
        let (dropped, added) = diff(&self.roster, new_snapshot);

        let mut new_roster: Vec<Student> = Vec::new();
        let mut k: usize = 0;
        while k < self.roster.len()
            invariant
                *self == pre,
                pre.wf(),
                unique_ids(snapv),
                snapv == roster_view(new_snapshot@),
                p_keep == (|s: Student| has_student(snapv, s@.id)),
                upd == (|s: Student| snapshot_entry(new_snapshot@, s@.id)),
                k <= self.roster@.len(),
                new_roster@ =~= self.roster@.take(k as int).filter(p_keep).map_values(upd),
            decreases self.roster@.len() - k,
        {
            proof {
                lemma_filter_take_step(pre.roster@, k as int, p_keep);
                assert(roster_view(pre.roster@)[k as int].id == pre.roster@[k as int]@.id);
            }
            match roster_find(new_snapshot, self.roster[k].id.as_str()) {
                Some(si) => {
                    proof {
                        lemma_student_at(snapv, pre.roster@[k as int]@.id, si as int);
                    }
                    new_roster.push(new_snapshot[si].clone());
                },
                None => {},
            }
            k = k + 1;
        }
        proof {
            assert(pre.roster@.take(pre.roster@.len() as int) =~= pre.roster@);
        }
        let mut k2: usize = 0;
        while k2 < added.len()
            invariant
                *self == pre,
                k2 <= added@.len(),
                new_roster@ =~= pre.roster@.filter(p_keep).map_values(upd) + added@.take(
                    k2 as int,
                ),
            decreases added@.len() - k2,
        {
            new_roster.push(added[k2].clone());
            k2 = k2 + 1;
        }
        proof {
            assert(added@.take(added@.len() as int) =~= added@);
        }

        let ghost p_rec = |rv: RecordV| has_student(snapv, rv.student);
        let mut kept: Vec<Attendance> = Vec::new();
        let mut k3: usize = 0;
        while k3 < self.records.len()
            invariant
                *self == pre,
                pre.wf(),
                p_rec == (|rv: RecordV| has_student(snapv, rv.student)),
                snapv == roster_view(new_snapshot@),
                k3 <= self.records@.len(),
                recs_view(kept@) =~= pre.recs().take(k3 as int).filter(p_rec),
            decreases self.records@.len() - k3,
        {
            proof {
                lemma_filter_take_step(pre.recs(), k3 as int, p_rec);
            }
            if roster_has(new_snapshot, self.records[k3].student.as_str()) {
                kept.push(self.records[k3].clone());
            }
            k3 = k3 + 1;
        }
        proof {
            assert(pre.recs().take(pre.records@.len() as int) =~= pre.recs());
        }
        self.roster = new_roster;
        self.records = kept;
        proof {
            lemma_reconcile_wf(pre, new_snapshot@, *self);
        }
        Ok((dropped, added))
    }
}

/// The rebuilt roster and the kept records satisfy the engine invariant.
proof fn lemma_reconcile_wf(pre: AttendanceManager, snap: Seq<Student>, post: AttendanceManager)
    requires
        pre.wf(),
        unique_ids(roster_view(snap)),
        post.roster@ == pre.roster@.filter(
            (|s: Student| has_student(roster_view(snap), s@.id)),
        ).map_values(|s: Student| snapshot_entry(snap, s@.id)) + snap.filter(
            (|s: Student| !has_student(pre.roster_v(), s@.id)),
        ),
        post.recs() == pre.recs().filter(
            (|rv: RecordV| has_student(roster_view(snap), rv.student)),
        ),
        post.weeks@ == pre.weeks@,
        post.current_week == pre.current_week,
    ensures
        post.wf(),
{
    broadcast use vstd::seq_lib::group_filter_ensures;

    let snapv = roster_view(snap);
    let p_keep = |s: Student| has_student(snapv, s@.id);
    let p_add = |s: Student| !has_student(pre.roster_v(), s@.id);
    let p_rec = |rv: RecordV| has_student(snapv, rv.student);
    let survivors = pre.roster@.filter(p_keep);
    let surv_upd = survivors.map_values(|s: Student| snapshot_entry(snap, s@.id));
    let addeds = snap.filter(p_add);

    // the updated survivor at position i keeps the survivor's id
    assert forall|i: int| 0 <= i < surv_upd.len() implies (#[trigger] roster_view(
        post.roster@,
    )[i]).id == roster_view(survivors)[i].id && has_student(snapv, roster_view(survivors)[i].id)
        && has_student(pre.roster_v(), roster_view(survivors)[i].id) by {
        assert(p_keep(survivors[i]));
        lemma_student_at(
            snapv,
            survivors[i]@.id,
            student_index(snapv, survivors[i]@.id),
        );
        assert(post.roster@[i] == snapshot_entry(snap, survivors[i]@.id));
        lemma_filter_subset(pre.roster@, p_keep);
        assert(pre.roster@.contains(survivors[i]));
        let j = choose|j: int| 0 <= j < pre.roster@.len() && pre.roster@[j] == survivors[i];
        assert(pre.roster_v()[j].id == survivors[i]@.id);
    }
    // every added entry keeps its own id and is not in the old roster
    assert forall|i: int| 0 <= i < addeds.len() implies p_add(#[trigger] addeds[i])
        && snapv.contains(addeds[i]@) by {
        lemma_filter_subset(snap, p_add);
        assert(snap.contains(addeds[i]));
        let j = choose|j: int| 0 <= j < snap.len() && snap[j] == addeds[i];
        assert(snapv[j] == addeds[i]@);
    }
    assert(unique_ids(roster_view(post.roster@))) by {
        assert forall|i: int, j: int|
            0 <= i < j < pre.roster@.len() implies (#[trigger] pre.roster@[i])@.id != (
        #[trigger] pre.roster@[j])@.id by {
            assert(pre.roster_v()[i].id == pre.roster@[i]@.id);
            assert(pre.roster_v()[j].id == pre.roster@[j]@.id);
        }
        assert forall|i: int, j: int|
            0 <= i < j < snap.len() implies (#[trigger] snap[i])@.id != (#[trigger] snap[j])@.id by {
            assert(roster_view(snap)[i].id == snap[i]@.id);
            assert(roster_view(snap)[j].id == snap[j]@.id);
        }
        lemma_filter_unique_ids(pre.roster@, p_keep);
        lemma_filter_unique_ids(snap, p_add);
        assert forall|a: int, b: int|
            0 <= a < b < post.roster@.len() implies (#[trigger] roster_view(post.roster@)[a]).id
            != (#[trigger] roster_view(post.roster@)[b]).id by {
            let n = surv_upd.len() as int;
            if a < n && b < n {
                assert(survivors[a]@.id != survivors[b]@.id);
                assert(roster_view(survivors)[a].id == survivors[a]@.id);
                assert(roster_view(survivors)[b].id == survivors[b]@.id);
            } else if a < n && b >= n {
                assert(post.roster@[b] == addeds[b - n]);
                assert(!has_student(pre.roster_v(), addeds[b - n]@.id));
                assert(roster_view(post.roster@)[a].id == roster_view(survivors)[a].id
                    && has_student(pre.roster_v(), roster_view(survivors)[a].id));
            } else {
                assert(post.roster@[a] == addeds[a - n]);
                assert(post.roster@[b] == addeds[b - n]);
                assert(addeds[a - n]@.id != addeds[b - n]@.id);
            }
        }
    }
    assert(unique_keys(post.recs())) by {
        lemma_filter_unique_keys(pre.recs(), p_rec);
    }
    assert forall|i: int| 0 <= i < post.recs().len() implies has_student(
        roster_view(post.roster@),
        (#[trigger] post.recs()[i]).student,
    ) && 1 <= post.recs()[i].week <= post.weeks@.len() by {
        lemma_filter_subset(pre.recs(), p_rec);
        assert(pre.recs().contains(post.recs()[i]));
        let b = choose|b: int| 0 <= b < pre.recs().len() && pre.recs()[b] == post.recs()[i];
        assert(p_rec(post.recs()[i]));
        // the record's student survives: find them in the old roster
        let sid = post.recs()[i].student;
        let jo = student_index(pre.roster_v(), sid);
        assert(0 <= jo < pre.roster@.len() && pre.roster_v()[jo].id == sid) by {
            assert(has_student(pre.roster_v(), sid));
        }
        assert(p_keep(pre.roster@[jo]));
        assert(survivors.contains(pre.roster@[jo]));
        let js = choose|js: int| 0 <= js < survivors.len() && survivors[js] == pre.roster@[jo];
        assert(roster_view(post.roster@)[js].id == roster_view(survivors)[js].id);
        assert(roster_view(survivors)[js].id == sid);
    }
}

} // verus!
