//! Small reusable facts about sequences and the record model, used by
//! the engine's loop proofs.

use vstd::prelude::*;
use crate::manager::{has_rec, rec_key_is, status_of, unique_keys};
use crate::models::RecordV;

verus! {

/// Extending a prefix by one element extends its filtered image by that
/// element exactly when the predicate holds of it.
pub proof fn lemma_filter_take_step<A>(s: Seq<A>, k: int, pred: spec_fn(A) -> bool)
    requires
        0 <= k < s.len(),
    ensures
        s.take(k + 1).filter(pred) == (if pred(s[k]) {
            s.take(k).filter(pred).push(s[k])
        } else {
            s.take(k).filter(pred)
        }),
{
    reveal(Seq::filter);
    assert(s.take(k + 1).drop_last() =~= s.take(k));
    assert(s.take(k + 1).last() == s[k]);
}

/// Every element of a filtered sequence is an element of the original.
pub proof fn lemma_filter_subset<A>(s: Seq<A>, pred: spec_fn(A) -> bool)
    ensures
        forall|i: int|
            0 <= i < s.filter(pred).len() ==> s.contains(#[trigger] s.filter(pred)[i]),
    decreases s.len(),
{
    reveal(Seq::filter);
    if s.len() > 0 {
        lemma_filter_subset(s.drop_last(), pred);
        assert forall|i: int|
            0 <= i < s.filter(pred).len() implies s.contains(#[trigger] s.filter(pred)[i]) by {
            if i < s.drop_last().filter(pred).len() {
                assert(s.drop_last().contains(s.drop_last().filter(pred)[i]));
                let j = choose|j: int|
                    0 <= j < s.drop_last().len() && s.drop_last()[j] == s.drop_last().filter(
                        pred,
                    )[i];
                assert(s[j] == s.filter(pred)[i]);
            } else {
                assert(s[s.len() - 1] == s.filter(pred)[i]);
            }
        }
    }
}

/// Filtering keeps record keys unique.
pub proof fn lemma_filter_unique_keys(s: Seq<RecordV>, pred: spec_fn(RecordV) -> bool)
    requires
        unique_keys(s),
    ensures
        unique_keys(s.filter(pred)),
    decreases s.len(),
{
    reveal(Seq::filter);
    if s.len() > 0 {
        assert(unique_keys(s.drop_last())) by {
            assert(forall|i: int|
                0 <= i < s.drop_last().len() ==> s.drop_last()[i] == s[i]);
        }
        lemma_filter_unique_keys(s.drop_last(), pred);
        if pred(s.last()) {
            let sub = s.drop_last().filter(pred);
            assert forall|i: int, j: int|
                0 <= i < j < s.filter(pred).len() implies !((#[trigger] s.filter(pred)[i]).student
                == (#[trigger] s.filter(pred)[j]).student && s.filter(pred)[i].week == s.filter(
                pred,
            )[j].week) by {
                if j == s.filter(pred).len() - 1 {
                    lemma_filter_subset(s.drop_last(), pred);
                    assert(s.drop_last().contains(sub[i]));
                    let k = choose|k: int|
                        0 <= k < s.drop_last().len() && s.drop_last()[k] == sub[i];
                    assert(s[k] == s.filter(pred)[i]);
                    assert(s.filter(pred)[j] == s.last());
                }
            }
        }
    }
}

/// Removing one record keeps keys unique, keeps only records that were
/// there, and erases exactly the removed key from the observable map.
pub proof fn lemma_remove_record(s: Seq<RecordV>, i: int)
    requires
        unique_keys(s),
        0 <= i < s.len(),
    ensures
        unique_keys(s.remove(i)),
        forall|j: int| 0 <= j < s.remove(i).len() ==> s.contains(#[trigger] s.remove(i)[j]),
        forall|sid: Seq<char>, w: u32|
            #[trigger] status_of(s.remove(i), sid, w) == (if rec_key_is(s[i], sid, w) {
                None
            } else {
                status_of(s, sid, w)
            }),
{
    let out = s.remove(i);
    assert(forall|j: int| 0 <= j < i ==> out[j] == s[j]);
    assert(forall|j: int| i <= j < out.len() ==> out[j] == s[j + 1]);
    assert forall|j: int| 0 <= j < out.len() implies s.contains(#[trigger] out[j]) by {
        if j < i {
            assert(out[j] == s[j]);
        } else {
            assert(out[j] == s[j + 1]);
        }
    }
    assert forall|a: int, b: int| 0 <= a < b < out.len() implies !((#[trigger] out[a]).student
        == (#[trigger] out[b]).student && out[a].week == out[b].week) by {
        let a0 = if a < i { a } else { a + 1 };
        let b0 = if b < i { b } else { b + 1 };
        assert(out[a] == s[a0] && out[b] == s[b0]);
    }
    assert forall|sid: Seq<char>, w: u32| true implies #[trigger] status_of(out, sid, w) == (
    if rec_key_is(s[i], sid, w) {
        None
    } else {
        status_of(s, sid, w)
    }) by {
        if rec_key_is(s[i], sid, w) {
            if has_rec(out, sid, w) {
                let m = choose|m: int| 0 <= m < out.len() && rec_key_is(#[trigger] out[m], sid, w);
                let m0 = if m < i { m } else { m + 1 };
                assert(rec_key_is(s[m0], sid, w));
                assert(m0 != i);
                assert(false);
            }
        } else {
            if has_rec(s, sid, w) {
                let k = choose|k: int| 0 <= k < s.len() && rec_key_is(#[trigger] s[k], sid, w);
                assert(k != i);
                let k1 = if k < i { k } else { k - 1 };
                assert(out[k1] == s[k]);
                crate::manager::lemma_rec_at(out, sid, w, k1);
                crate::manager::lemma_rec_at(s, sid, w, k);
            } else {
                if has_rec(out, sid, w) {
                    let m = choose|m: int|
                        0 <= m < out.len() && rec_key_is(#[trigger] out[m], sid, w);
                    let m0 = if m < i { m } else { m + 1 };
                    assert(rec_key_is(s[m0], sid, w));
                }
            }
        }
    }
}

} // verus!
