//! Absence aggregation: unexcused-absence counts per student over a week
//! range, and the deterministically ordered at-risk list derived from
//! them.

use vstd::prelude::*;
use vstd::multiset::Multiset;
use crate::manager::AttendanceManager;
use crate::models::{RecordV, Status, Student};
use crate::seq_facts::lemma_filter_take_step;
use crate::stats::unexcused;
use crate::text::{lemma_lex_asym, lemma_lex_connex, lemma_lex_irrefl, lemma_lex_trans, lex_lt, str_lt};

verus! {

/// How many of the weeks 1..=k count as unexcused absences for `sid`.
pub open spec fn unexcused_in_range(rs: Seq<RecordV>, sid: Seq<char>, k: int) -> int
    decreases k,
{
    if k <= 0 {
        0
    } else {
        unexcused_in_range(rs, sid, k - 1) + (if unexcused(rs, sid, k as u32) {
            1int
        } else {
            0int
        })
    }
}

/// How many of the weeks in [1, `upto`) count as unexcused absences for
/// `sid`; both absence by omission and an explicit absent record count.
pub open spec fn unexcused_count(rs: Seq<RecordV>, sid: Seq<char>, upto: u32) -> int {
    unexcused_in_range(rs, sid, upto - 1)
}

/// How many of the weeks `lo..=k` count as unexcused absences for
/// `sid`.
pub open spec fn unexcused_since_upto(
    rs: Seq<RecordV>,
    sid: Seq<char>,
    lo: int,
    k: int,
) -> int
    decreases k,
{
    if k <= 0 || k < lo {
        0
    } else {
        unexcused_since_upto(rs, sid, lo, k - 1) + (if unexcused(rs, sid, k as u32) {
            1int
        } else {
            0int
        })
    }
}

/// How many of the ledger's weeks at or after `after_week` count as
/// unexcused absences for `sid`; both absence by omission and an
/// explicit absent record count.
pub open spec fn unexcused_since(
    rs: Seq<RecordV>,
    sid: Seq<char>,
    after_week: u32,
    n_weeks: int,
) -> int {
    unexcused_since_upto(
        rs,
        sid,
        if after_week < 1 {
            1int
        } else {
            after_week as int
        },
        n_weeks,
    )
}

/// The count over `lo..=k` is bounded by that range's length.
pub proof fn lemma_unexcused_since_bound(rs: Seq<RecordV>, sid: Seq<char>, lo: int, k: int)
    requires
        1 <= lo,
    ensures
        0 <= unexcused_since_upto(rs, sid, lo, k) <= (if k < lo {
            0int
        } else {
            k - lo + 1
        }),
    decreases k,
{
    if k > 0 && k >= lo {
        lemma_unexcused_since_bound(rs, sid, lo, k - 1);
    }
}

/// The count over a range is bounded by the range's length.
pub proof fn lemma_unexcused_in_range_bound(rs: Seq<RecordV>, sid: Seq<char>, k: int)
    ensures
        0 <= unexcused_in_range(rs, sid, k) <= (if k <= 0 {
            0int
        } else {
            k
        }),
    decreases k,
{
    if k > 0 {
        lemma_unexcused_in_range_bound(rs, sid, k - 1);
    }
}

/// At-risk ordering: `a` comes no later than `b` when its count is
/// higher, or equal with an id that is not lexicographically later.
pub open spec fn flag_le(a: (Student, u32), b: (Student, u32)) -> bool {
    a.1 > b.1 || (a.1 == b.1 && !lex_lt(b.0@.id, a.0@.id))
}

/// Descending count, ascending id on ties.
pub open spec fn flags_sorted(s: Seq<(Student, u32)>) -> bool {
    forall|i: int, j: int| 0 <= i < j < s.len() ==> flag_le(#[trigger] s[i], #[trigger] s[j])
}

/// The at-risk ordering can always order a pair.
pub proof fn lemma_flag_le_total(a: (Student, u32), b: (Student, u32))
    ensures
        flag_le(a, b) || flag_le(b, a),
{
    if a.1 == b.1 {
        lemma_lex_asym(a.0@.id, b.0@.id);
    }
}

/// The at-risk ordering is transitive.
pub proof fn lemma_flag_le_trans(a: (Student, u32), b: (Student, u32), c: (Student, u32))
    requires
        flag_le(a, b),
        flag_le(b, c),
    ensures
        flag_le(a, c),
{
    if a.1 == b.1 && b.1 == c.1 {
        if lex_lt(c.0@.id, a.0@.id) {
            lemma_lex_connex(b.0@.id, c.0@.id, 0);
            if lex_lt(b.0@.id, c.0@.id) {
                lemma_lex_trans(b.0@.id, c.0@.id, a.0@.id, 0);
            } else {
                assert(b.0@.id == c.0@.id);
            }
        }
    }
}

impl AttendanceManager {
    /// How many weeks in [1, `upto_week`) the student at roster position
    /// `k` spent unexcused.
    fn count_unexcused_for(&self, k: usize, upto_week: u32) -> (r: u32)
        requires
            self.wf(),
            k < self.roster@.len(),
        ensures
            r as int == unexcused_count(self.recs(), self.roster_v()[k as int].id, upto_week),
    {
        let sid = self.roster[k].id.clone();
        let mut cnt: u32 = 0;
        let mut w: u32 = 1;
        if upto_week == 0 {
            return 0;
        }
        while w < upto_week
            invariant
                self.wf(),
                sid@ == self.roster_v()[k as int].id,
                k < self.roster@.len(),
                1 <= w <= upto_week,
                cnt as int == unexcused_in_range(self.recs(), sid@, w - 1),
                cnt < w,
            decreases upto_week - w,
        {
            proof {
                lemma_unexcused_in_range_bound(self.recs(), sid@, w - 1);
            }
            let is_absent = match self.find_record(sid.as_str(), w) {
                Some(i) => {
                    let st = self.records[i].status;
                    st != Status::Present && st != Status::Excused
                },
                None => true,
            };
            if is_absent {
                cnt = cnt + 1;
            }
            w = w + 1;
        }
        cnt
    }

    /// One entry per roster student, in roster order: the student's id
    /// and the number of weeks in [1, `upto_week`) spent unexcused —
    /// weeks carrying a present or excused record never count, whether
    /// or not absents were materialized for them.
    pub fn unexcused_counts(&self, upto_week: u32) -> (r: Vec<(String, u32)>)
        requires
            self.wf(),
        ensures
            r@.len() == self.roster@.len(),
            forall|i: int|
                0 <= i < r@.len() ==> ((#[trigger] r@[i]).0)@ == self.roster_v()[i].id
                    && r@[i].1 as int == unexcused_count(
                    self.recs(),
                    self.roster_v()[i].id,
                    upto_week,
                ),
    {
        let mut out: Vec<(String, u32)> = Vec::new();
        let mut k: usize = 0;
        while k < self.roster.len()
            invariant
                self.wf(),
                k <= self.roster@.len(),
                out@.len() == k,
                forall|i: int|
                    0 <= i < k ==> ((#[trigger] out@[i]).0)@ == self.roster_v()[i].id
                        && out@[i].1 as int == unexcused_count(
                        self.recs(),
                        self.roster_v()[i].id,
                        upto_week,
                    ),
            decreases self.roster@.len() - k,
        {
            let cnt = self.count_unexcused_for(k, upto_week);
            out.push((self.roster[k].id.clone(), cnt));
            k = k + 1;
        }
        out
    }

    /// The unexcused-absence counts over all weeks before the current
    /// one, one entry per roster student, in roster order.
    pub fn aggregate_unexcused(&self) -> (r: Vec<(String, u32)>)
        requires
            self.wf(),
        ensures
            r@.len() == self.roster@.len(),
            forall|i: int|
                0 <= i < r@.len() ==> ((#[trigger] r@[i]).0)@ == self.roster_v()[i].id
                    && r@[i].1 as int == unexcused_count(
                    self.recs(),
                    self.roster_v()[i].id,
                    self.current_week,
                ),
    {
        self.unexcused_counts(self.current_week)
    }

    /// The counts before the current week, together with the at-risk
    /// list: every student whose count reaches `warning_threshold`,
    /// ordered by descending count and ascending id on ties.
    pub fn aggregate_unexcused_with_warning(&self, warning_threshold: u32) -> (r: (
        Vec<(String, u32)>,
        Vec<(Student, u32)>,
    ))
        requires
            self.wf(),
        ensures
            r.0@.len() == self.roster@.len(),
            forall|i: int|
                0 <= i < r.0@.len() ==> ((#[trigger] r.0@[i]).0)@ == self.roster_v()[i].id
                    && r.0@[i].1 as int == unexcused_count(
                    self.recs(),
                    self.roster_v()[i].id,
                    self.current_week,
                ),
            r.1@.to_multiset() == self.roster@.map_values(
                (|s: Student| (
                    s,
                    unexcused_count(self.recs(), s@.id, self.current_week) as u32,
                )),
            ).filter((|e: (Student, u32)| e.1 >= warning_threshold)).to_multiset(),
            flags_sorted(r.1@),
    {
        let counts = self.aggregate_unexcused();
        let ghost f = |s: Student| (
            s,
            unexcused_count(self.recs(), s@.id, self.current_week) as u32,
        );
        let ghost pred = |e: (Student, u32)| e.1 >= warning_threshold;
        let mut flagged: Vec<(Student, u32)> = Vec::new();
        let mut k: usize = 0;
        while k < self.roster.len()
            invariant
                self.wf(),
                k <= self.roster@.len(),
                f == (|s: Student| (
                    s,
                    unexcused_count(self.recs(), s@.id, self.current_week) as u32,
                )),
                pred == (|e: (Student, u32)| e.1 >= warning_threshold),
                flagged@ =~= self.roster@.map_values(f).take(k as int).filter(pred),
            decreases self.roster@.len() - k,
        {
            proof {
                lemma_filter_take_step(self.roster@.map_values(f), k as int, pred);
                lemma_unexcused_in_range_bound(
                    self.recs(),
                    self.roster_v()[k as int].id,
                    self.current_week - 1,
                );
            }
            let cnt = self.count_unexcused_for(k, self.current_week);
            if cnt >= warning_threshold {
                flagged.push((self.roster[k].clone(), cnt));
            }
            k = k + 1;
        }
        proof {
            assert(self.roster@.map_values(f).take(self.roster@.len() as int) =~= self.roster@
                .map_values(f));
        }
        let warnings = sort_flagged(flagged);
        (counts, warnings)
    }
}

/// Orders the flagged students by descending count, then ascending id,
/// by repeatedly extracting an entry that precedes all remaining ones.
fn sort_flagged(input: Vec<(Student, u32)>) -> (r: Vec<(Student, u32)>)
    ensures
        r@.to_multiset() == input@.to_multiset(),
        flags_sorted(r@),
{
    let ghost orig = input@;
    let mut work = input;
    let mut out: Vec<(Student, u32)> = Vec::new();
    proof {
        out@.to_multiset_ensures();
        work@.to_multiset_ensures();
        assert(out@.to_multiset() =~= Multiset::<(Student, u32)>::empty());
        assert(out@.to_multiset().add(work@.to_multiset()) =~= work@.to_multiset());
    }
    while work.len() > 0
        invariant
            out@.to_multiset().add(work@.to_multiset()) =~= orig.to_multiset(),
            flags_sorted(out@),
            forall|i: int, j: int|
                0 <= i < out@.len() && 0 <= j < work@.len() ==> flag_le(
                    #[trigger] out@[i],
                    #[trigger] work@[j],
                ),
        decreases work@.len(),
    {
        let mut m: usize = 0;
        let mut j: usize = 1;
        proof {
            lemma_lex_irrefl(work@[0].0@.id, 0);
        }
        while j < work.len()
            invariant
                work@.len() > 0,
                m < j,
                j <= work@.len(),
                forall|q: int| 0 <= q < j ==> flag_le(work@[m as int], #[trigger] work@[q]),
            decreases work@.len() - j,
        {
            let better = work[j].1 > work[m].1 || (work[j].1 == work[m].1 && str_lt(
                work[j].0.id.as_str(),
                work[m].0.id.as_str(),
            ));
            if better {
                proof {
                    lemma_flag_le_total(work@[j as int], work@[m as int]);
                    assert(flag_le(work@[j as int], work@[m as int]));
                    assert forall|q: int| 0 <= q < j + 1 implies flag_le(
                        work@[j as int],
                        #[trigger] work@[q],
                    ) by {
                        if q < j {
                            lemma_flag_le_trans(work@[j as int], work@[m as int], work@[q]);
                        } else {
                            lemma_lex_irrefl(work@[j as int].0@.id, 0);
                        }
                    }
                }
                m = j;
            } else {
                proof {
                    lemma_flag_le_total(work@[m as int], work@[j as int]);
                    assert(flag_le(work@[m as int], work@[j as int]));
                }
            }
            j = j + 1;
        }
        let ghost pre_work = work@;
        let ghost pre_out = out@;
        let picked = work.remove(m);
        out.push(picked);
        proof {
            pre_work.to_multiset_ensures();
            pre_out.to_multiset_ensures();
            assert(pre_work.remove(m as int).to_multiset() =~= pre_work.to_multiset().remove(
                pre_work[m as int],
            ));
            assert(pre_out.push(pre_work[m as int]).to_multiset() =~= pre_out.to_multiset().insert(
                pre_work[m as int],
            ));
            assert(pre_work.to_multiset().contains(pre_work[m as int]));
            assert(out@.to_multiset().add(work@.to_multiset()) =~= orig.to_multiset());
            assert forall|i: int, j2: int|
                0 <= i < out@.len() && 0 <= j2 < work@.len() implies flag_le(
                #[trigger] out@[i],
                #[trigger] work@[j2],
            ) by {
                let j0 = if j2 < m as int {
                    j2
                } else {
                    j2 + 1
                };
                assert(work@[j2] == pre_work[j0]);
                if i < out@.len() - 1 {
                    assert(flag_le(out@[i], pre_work[j0]));
                } else {
                    assert(out@[i] == pre_work[m as int]);
                    assert(flag_le(pre_work[m as int], pre_work[j0]));
                }
            }
            assert forall|i: int, j2: int| 0 <= i < j2 < out@.len() implies flag_le(
                #[trigger] out@[i],
                #[trigger] out@[j2],
            ) by {
                if j2 < out@.len() - 1 {
                    assert(flag_le(pre_out[i], pre_out[j2]));
                } else {
                    assert(flag_le(pre_out[i], pre_work[m as int]));
                }
            }
        }
    }
    proof {
        work@.to_multiset_ensures();
        assert(work@.to_multiset() =~= Multiset::<(Student, u32)>::empty());
        assert(out@.to_multiset().add(Multiset::<(Student, u32)>::empty()) =~= out@.to_multiset());
    }
    out
}

} // verus!
