use vstd::prelude::*;

use crate::font::font_id::FontId;
use crate::font::order::{Ranked, sorted_by_rank};

verus! {

impl Ranked for FontId {
    open spec fn rank(&self) -> int {
        self.key as int
    }

    fn rank_lt(&self, other: &Self) -> (r: bool) {
        self.key < other.key
    }
}

/// Some ID in `s` has the key `k`.
pub open spec fn has_key(s: Seq<FontId>, k: u64) -> bool {
    exists|i: int| 0 <= i < s.len() && #[trigger] s[i].key == k
}

/// The keys strictly increase along `s`: sorted, each face once.
pub open spec fn strictly_sorted_ids(s: Seq<FontId>) -> bool {
    forall|i: int, j: int| 0 <= i < j < s.len() ==> s[i].key < s[j].key
}

/// A key is in the first `i + 1` IDs exactly when it is in the first `i`
/// or is the key of the ID at `i`.
pub proof fn lemma_has_key_take_succ(s: Seq<FontId>, i: int, k: u64)
    requires
        0 <= i < s.len(),
    ensures
        has_key(s.take(i + 1), k) <==> (has_key(s.take(i), k) || s[i].key == k),
{
    if has_key(s.take(i + 1), k) {
        let a = choose|a: int| 0 <= a < i + 1 && #[trigger] s.take(i + 1)[a].key == k;
        if a < i {
            assert(s.take(i)[a].key == k);
        }
    }
    if has_key(s.take(i), k) {
        let a = choose|a: int| 0 <= a < i && #[trigger] s.take(i)[a].key == k;
        assert(s.take(i + 1)[a].key == k);
    }
    if s[i].key == k {
        assert(s.take(i + 1)[i].key == k);
    }
}

/// Whether an ID with key `k` is in `ids`, sorted by key.
pub fn contains_id(ids: &Vec<FontId>, k: u64) -> (r: bool)
    requires
        sorted_by_rank(ids@),
    ensures
        r == has_key(ids@, k),
{
    let mut lo: usize = 0;
    let mut hi: usize = ids.len();
    while lo < hi
        invariant
            sorted_by_rank(ids@),
            0 <= lo <= hi <= ids@.len(),
            forall|i: int| 0 <= i < lo ==> ids@[i].key < k,
            forall|i: int| hi <= i < ids@.len() ==> k < ids@[i].key,
        decreases hi - lo,
    {
        let mid: usize = lo + (hi - lo) / 2;
        assert(ids@[mid as int].rank() == ids@[mid as int].key);
        if ids[mid].key < k {
            proof {
                assert forall|i: int| 0 <= i < mid + 1 implies ids@[i].key < k by {
                    if i < mid {
                        assert(ids@[i].rank() <= ids@[mid as int].rank());
                    }
                }
            }
            lo = mid + 1;
        } else if k < ids[mid].key {
            proof {
                assert forall|i: int| mid <= i < ids@.len() implies k < ids@[i].key by {
                    if i > mid {
                        assert(ids@[mid as int].rank() <= ids@[i].rank());
                    }
                }
            }
            hi = mid;
        } else {
            return true;
        }
    }
    false
}

/// Adds `id` to a strictly sorted list unless its key is already there.
pub fn insert_id_sorted(out: &mut Vec<FontId>, id: FontId)
    requires
        strictly_sorted_ids(old(out)@),
    ensures
        strictly_sorted_ids(final(out)@),
        forall|k: u64| #[trigger]
            has_key(final(out)@, k) <==> (has_key(old(out)@, k) || k == id.key),
        forall|i: int|
            0 <= i < final(out)@.len() ==> old(out)@.contains(#[trigger] final(out)@[i])
                || final(out)@[i] == id,
{
    let mut pos: usize = 0;
    while pos < out.len() && out[pos].key < id.key
        invariant
            0 <= pos <= out@.len(),
            strictly_sorted_ids(out@),
            forall|i: int| 0 <= i < pos ==> out@[i].key < id.key,
        decreases out@.len() - pos,
    {
        pos = pos + 1;
    }
    if pos < out.len() && out[pos].key == id.key {
        return;
    }
    let ghost before = out@;
    out.insert(pos, id);
    proof {
        assert forall|i: int, j: int| 0 <= i < j < out@.len() implies out@[i].key < out@[j].key by {
            if j < pos {
            } else if j == pos {
            } else if i < pos {
                assert(out@[j] == before[j - 1]);
                assert(before[pos as int].key > id.key);
            } else if i == pos {
                assert(out@[j] == before[j - 1]);
                assert(before[pos as int].key > id.key);
            } else {
                assert(out@[i] == before[i - 1]);
                assert(out@[j] == before[j - 1]);
            }
        }
        assert forall|k: u64| has_key(out@, k) <==> (has_key(before, k) || k == id.key) by {
            if has_key(out@, k) {
                let i = choose|i: int| 0 <= i < out@.len() && out@[i].key == k;
                if i < pos {
                    assert(before[i].key == k);
                } else if i > pos {
                    assert(before[i - 1].key == k);
                }
            }
            if has_key(before, k) {
                let i = choose|i: int| 0 <= i < before.len() && before[i].key == k;
                if i < pos {
                    assert(out@[i].key == k);
                } else {
                    assert(out@[i + 1].key == k);
                }
            }
            if k == id.key {
                assert(out@[pos as int].key == k);
            }
        }
        assert forall|i: int| 0 <= i < out@.len() implies before.contains(#[trigger] out@[i])
            || out@[i] == id by {
            if i < pos {
                assert(before[i] == out@[i]);
            } else if i > pos {
                assert(before[i - 1] == out@[i]);
            }
        }
    }
}

} // verus!
