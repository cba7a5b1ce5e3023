use vstd::prelude::*;

verus! {

/// A value that sorts by an integer rank: `a` sorts before `b` when
/// `a.rank() < b.rank()`.
pub trait Ranked: Copy {
    spec fn rank(&self) -> int;

    fn rank_lt(&self, other: &Self) -> (r: bool)
        ensures
            r == (self.rank() < other.rank()),
    ;
}

/// The ranks never decrease along `s`.
pub open spec fn sorted_by_rank<T: Ranked>(s: Seq<T>) -> bool {
    forall|i: int, j: int| 0 <= i < j < s.len() ==> s[i].rank() <= s[j].rank()
}

/// Taking one element out of a sorted sequence leaves it sorted.
pub proof fn lemma_sorted_remove<T: Ranked>(s: Seq<T>, w: int)
    requires
        sorted_by_rank(s),
        0 <= w < s.len(),
    ensures
        sorted_by_rank(s.remove(w)),
{
    let t = s.remove(w);
    assert forall|i: int, j: int| 0 <= i < j < t.len() implies t[i].rank() <= t[j].rank() by {
        let a = if i < w { i } else { i + 1 };
        let b = if j < w { j } else { j + 1 };
        assert(t[i] == s[a] && t[j] == s[b]);
    }
}

/// Inserting `x` anywhere adds exactly one `x` to the multiset of `s`.
pub proof fn lemma_insert_to_multiset<T>(s: Seq<T>, pos: int, x: T)
    requires
        0 <= pos <= s.len(),
    ensures
        s.insert(pos, x).to_multiset() =~= s.to_multiset().insert(x),
{
    broadcast use vstd::seq_lib::group_to_multiset_ensures;

    let a = s.subrange(0, pos);
    let b = s.subrange(pos, s.len() as int);
    assert(s =~= a + b);
    assert(s.insert(pos, x) =~= a.push(x) + b);
    vstd::seq_lib::lemma_multiset_commutative(a.push(x), b);
    vstd::seq_lib::lemma_multiset_commutative(a, b);
}

/// Sorts by rank (an insertion sort).
pub fn sort_by_rank<T: Ranked>(v: &Vec<T>) -> (r: Vec<T>)
    ensures
        sorted_by_rank(r@),
        r@.to_multiset() =~= v@.to_multiset(),
        r@.len() == v@.len(),
        forall|i: int| 0 <= i < r@.len() ==> v@.contains(#[trigger] r@[i]),
{
    broadcast use vstd::seq_lib::group_to_multiset_ensures;

    let mut out: Vec<T> = Vec::new();
    let mut i: usize = 0;
    while i < v.len()
        invariant
            0 <= i <= v@.len(),
            sorted_by_rank(out@),
            out@.to_multiset() =~= v@.take(i as int).to_multiset(),
        decreases v@.len() - i,
    {
        let x: T = v[i];
        // Place `x` after every element that does not rank above it.
        let mut j: usize = out.len();
        while j > 0 && x.rank_lt(&out[j - 1])
            invariant
                0 <= j <= out@.len(),
                sorted_by_rank(out@),
                forall|k: int| j <= k < out@.len() ==> x.rank() < out@[k].rank(),
            decreases j,
        {
            j = j - 1;
        }
        let ghost before = out@;
        proof {
            lemma_insert_to_multiset(before, j as int, x);
            assert(v@.take(i + 1) =~= v@.take(i as int).push(x));
            v@.take(i as int).to_multiset_ensures();
            assert(v@.take(i as int).push(x).to_multiset() =~= v@.take(
                i as int,
            ).to_multiset().insert(x));
        }
        out.insert(j, x);
        assert(sorted_by_rank(out@)) by {
            assert forall|a: int, b: int| 0 <= a < b < out@.len() implies out@[a].rank()
                <= out@[b].rank() by {
                if b < j {
                } else if b == j {
                    if a < j {
                        assert(j > 0);
                        assert(before[j - 1].rank() <= x.rank());
                        assert(before[a].rank() <= before[j - 1].rank() || a == j - 1);
                    }
                } else if a < j {
                    assert(out@[b] == before[b - 1]);
                } else if a == j {
                    assert(out@[b] == before[b - 1]);
                } else {
                    assert(out@[a] == before[a - 1]);
                    assert(out@[b] == before[b - 1]);
                }
            }
        }
        i = i + 1;
    }
    assert(v@.take(v@.len() as int) =~= v@);
    proof {
        out@.to_multiset_ensures();
        v@.to_multiset_ensures();
        assert forall|k: int| 0 <= k < out@.len() implies v@.contains(#[trigger] out@[k]) by {
            assert(out@.contains(out@[k]));
            assert(out@.to_multiset().count(out@[k]) > 0);
            assert(v@.to_multiset().count(out@[k]) > 0);
        }
    }
    out
}

} // verus!
