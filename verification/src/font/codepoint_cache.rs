use vstd::prelude::*;

verus! {

/// Every element is smaller than the next: sorted, with no repeats.
pub open spec fn strictly_sorted(s: Seq<u32>) -> bool {
    forall|i: int, j: int| 0 <= i < j < s.len() ==> s[i] < s[j]
}

/// `pos` is where `x` goes in `s` to keep it sorted: everything before is
/// smaller, everything from `pos` on is larger.
pub open spec fn is_insertion_point(s: Seq<u32>, pos: int, x: u32) -> bool {
    &&& 0 <= pos <= s.len()
    &&& forall|i: int| 0 <= i < pos ==> s[i] < x
    &&& forall|i: int| pos <= i < s.len() ==> x < s[i]
}

/// `s` with `x` inserted at `pos`, cut down to at most `max` entries.
pub open spec fn bounded_insert(s: Seq<u32>, pos: int, x: u32, max: nat) -> Seq<u32> {
    let t = s.insert(pos, x);
    if t.len() > max {
        t.take(max as int)
    } else {
        t
    }
}

/// `s` after recording `x` at `pos` with at most `max` entries: unchanged
/// when `pos` is `max` (the entry would be cut off at once), else
/// [`bounded_insert`].
pub open spec fn recorded(s: Seq<u32>, pos: int, x: u32, max: nat) -> Seq<u32> {
    if pos == max {
        s
    } else {
        bounded_insert(s, pos, x, max)
    }
}

/// Recording keeps a sequence within its limit and adds nothing but `x`;
/// recording at an insertion point keeps it strictly sorted.
pub proof fn lemma_recorded(s: Seq<u32>, pos: int, x: u32, max: nat)
    requires
        0 <= pos <= s.len() || pos == max,
        s.len() <= max,
    ensures
        strictly_sorted(s) && is_insertion_point(s, pos, x) ==> strictly_sorted(
            recorded(s, pos, x, max),
        ),
        recorded(s, pos, x, max).len() <= max,
        forall|y: u32| #[trigger] recorded(s, pos, x, max).contains(y) ==> y == x || s.contains(y),
        pos <= s.len() ==> recorded(s, pos, x, max) == bounded_insert(s, pos, x, max),
{
    if pos == max {
        if pos <= s.len() {
            assert(s.insert(pos, x).take(max as int) =~= s);
        }
    } else {
        let t = s.insert(pos, x);
        if strictly_sorted(s) && is_insertion_point(s, pos, x) {
            assert forall|i: int, j: int| 0 <= i < j < t.len() implies t[i] < t[j] by {
                if j < pos {
                } else if j == pos {
                } else if i < pos {
                    assert(t[j] == s[j - 1]);
                } else if i == pos {
                    assert(t[j] == s[j - 1]);
                } else {
                    assert(t[i] == s[i - 1]);
                    assert(t[j] == s[j - 1]);
                }
            }
            if t.len() > max {
                assert forall|i: int, j: int| 0 <= i < j < t.take(max as int).len() implies t.take(
                    max as int,
                )[i] < t.take(max as int)[j] by {
                    assert(t.take(max as int)[i] == t[i] && t.take(max as int)[j] == t[j]);
                }
            }
        }
        assert forall|y: u32| #[trigger] t.contains(y) implies y == x || s.contains(y) by {
            let k = choose|k: int| 0 <= k < t.len() && t[k] == y;
            if k < pos {
                assert(s[k] == y);
            } else if k > pos {
                assert(s[k - 1] == y);
            }
        }
        if t.len() > max {
            assert forall|y: u32| #[trigger] t.take(max as int).contains(y) implies t.contains(y) by {
                let k = choose|k: int| 0 <= k < max && t.take(max as int)[k] == y;
                assert(t[k] == y);
            }
        }
    }
}

/// Finds `x` in a strictly sorted vector: `Ok` with its index, or `Err` with
/// the position where it would be inserted.
pub fn search_sorted(s: &Vec<u32>, x: u32) -> (r: Result<usize, usize>)
    requires
        strictly_sorted(s@),
    ensures
        match r {
            Ok(i) => i < s@.len() && s@[i as int] == x,
            Err(p) => is_insertion_point(s@, p as int, x),
        },
        r is Ok <==> s@.contains(x),
{
    let mut lo: usize = 0;
    let mut hi: usize = s.len();
    while lo < hi
        invariant
            strictly_sorted(s@),
            0 <= lo <= hi <= s@.len(),
            forall|i: int| 0 <= i < lo ==> s@[i] < x,
            forall|i: int| hi <= i < s@.len() ==> x < s@[i],
        decreases hi - lo,
    {
        let mid: usize = lo + (hi - lo) / 2;
        if s[mid] < x {
            lo = mid + 1;
        } else if x < s[mid] {
            hi = mid;
        } else {
            return Ok(mid);
        }
    }
    proof {
        if s@.contains(x) {
            let k = choose|k: int| 0 <= k < s@.len() && s@[k] == x;
            assert(false);
        }
    }
    Err(lo)
}

/// Whether `x` occurs anywhere in `s`.
pub fn slice_contains(s: &[u32], x: u32) -> (r: bool)
    ensures
        r == s@.contains(x),
{
    let mut i: usize = 0;
    while i < s.len()
        invariant
            0 <= i <= s@.len(),
            forall|k: int| 0 <= k < i ==> s@[k] != x,
        decreases s@.len() - i,
    {
        if s[i] == x {
            return true;
        }
        i = i + 1;
    }
    proof {
        if s@.contains(x) {
            let k = choose|k: int| 0 <= k < s@.len() && s@[k] == x;
            assert(s@[k] != x);
        }
    }
    false
}

/// A per-font cache of which codepoints the font supports.
///
/// Both lists stay sorted, so lookups are binary searches. Each list keeps
/// only its smallest entries, up to its size limit.
pub struct FontCachedCodepointSupportInfo {
    supported: Vec<u32>,
    not_supported: Vec<u32>,
}

impl View for FontCachedCodepointSupportInfo {
    /// The codepoints known to be supported, then those known not to be.
    type V = (Seq<u32>, Seq<u32>);

    closed spec fn view(&self) -> (Seq<u32>, Seq<u32>) {
        (self.supported@, self.not_supported@)
    }
}

impl FontCachedCodepointSupportInfo {
    pub const SUPPORTED_MAX_SZ: usize = 512;

    pub const NOT_SUPPORTED_MAX_SZ: usize = 1024;

    /// Both lists are strictly sorted and within their size limits.
    pub open spec fn wf(&self) -> bool {
        &&& strictly_sorted(self@.0)
        &&& strictly_sorted(self@.1)
        &&& self@.0.len() <= Self::SUPPORTED_MAX_SZ
        &&& self@.1.len() <= Self::NOT_SUPPORTED_MAX_SZ
    }

    /// Every cached answer agrees with the font's codepoint list.
    pub open spec fn agrees_with(&self, font_codepoints: Seq<u32>) -> bool {
        &&& forall|c: u32| #[trigger] self@.0.contains(c) ==> font_codepoints.contains(c)
        &&& forall|c: u32| #[trigger] self@.1.contains(c) ==> !font_codepoints.contains(c)
    }

    /// Whether the cache already holds an answer for `c`.
    pub open spec fn knows(&self, c: u32) -> bool {
        self@.0.contains(c) || self@.1.contains(c)
    }

    /// The answer the cache gives for `c`: what it holds if it knows `c`,
    /// else whether the font's list holds `c`.
    pub open spec fn cached_answer(&self, font_codepoints: Seq<u32>, c: u32) -> bool {
        if self@.0.contains(c) {
            true
        } else if self@.1.contains(c) {
            false
        } else {
            font_codepoints.contains(c)
        }
    }

    /// A cache that agrees with a font answers every lookup exactly as the
    /// font's own codepoint list does.
    pub proof fn lemma_cache_is_transparent(&self, font_codepoints: Seq<u32>, c: u32)
        requires
            self.agrees_with(font_codepoints),
        ensures
            self.cached_answer(font_codepoints, c) == font_codepoints.contains(c),
    {
    }

    /// An empty cache.
    pub fn new() -> (r: Self)
        ensures
            r@.0 == Seq::<u32>::empty(),
            r@.1 == Seq::<u32>::empty(),
            r.wf(),
    {
        Self {
            supported: Vec::with_capacity(Self::SUPPORTED_MAX_SZ),
            not_supported: Vec::with_capacity(Self::NOT_SUPPORTED_MAX_SZ),
        }
    }

    /// Looks `codepoint` up in the font's own list and records the answer at
    /// the given position of the matching cache list, dropping the list's
    /// largest entry when it is full; at the position just past the limit
    /// nothing is recorded. The lists stay sorted when the position is the
    /// codepoint's insertion point.
    pub fn unknown_has_codepoint(
        &mut self,
        font_codepoints: &[u32],
        codepoint: u32,
        supported_insert_pos: usize,
        not_supported_insert_pos: usize,
    ) -> (ret: bool)
        requires
            old(self)@.0.len() <= Self::SUPPORTED_MAX_SZ,
            old(self)@.1.len() <= Self::NOT_SUPPORTED_MAX_SZ,
            font_codepoints@.contains(codepoint) ==> supported_insert_pos <= old(self)@.0.len()
                || supported_insert_pos == Self::SUPPORTED_MAX_SZ,
            !font_codepoints@.contains(codepoint) ==> not_supported_insert_pos <= old(self)@.1.len()
                || not_supported_insert_pos == Self::NOT_SUPPORTED_MAX_SZ,
        ensures
            ret == font_codepoints@.contains(codepoint),
            final(self)@.0 == (if ret {
                recorded(
                    old(self)@.0,
                    supported_insert_pos as int,
                    codepoint,
                    Self::SUPPORTED_MAX_SZ as nat,
                )
            } else {
                old(self)@.0
            }),
            final(self)@.1 == (if ret {
                old(self)@.1
            } else {
                recorded(
                    old(self)@.1,
                    not_supported_insert_pos as int,
                    codepoint,
                    Self::NOT_SUPPORTED_MAX_SZ as nat,
                )
            }),
            final(self)@.0.len() <= Self::SUPPORTED_MAX_SZ,
            final(self)@.1.len() <= Self::NOT_SUPPORTED_MAX_SZ,
            old(self).wf() && (ret ==> is_insertion_point(
                old(self)@.0,
                supported_insert_pos as int,
                codepoint,
            )) && (!ret ==> is_insertion_point(
                old(self)@.1,
                not_supported_insert_pos as int,
                codepoint,
            )) ==> final(self).wf(),
            old(self).agrees_with(font_codepoints@) ==> final(self).agrees_with(font_codepoints@),
    {
        let ret = slice_contains(font_codepoints, codepoint);
        if ret {
            proof {
                lemma_recorded(
                    self.supported@,
                    supported_insert_pos as int,
                    codepoint,
                    Self::SUPPORTED_MAX_SZ as nat,
                );
            }
            // An entry inserted past the limit would be cut off at once.
            if supported_insert_pos != Self::SUPPORTED_MAX_SZ {
                self.supported.insert(supported_insert_pos, codepoint);
                self.supported.truncate(Self::SUPPORTED_MAX_SZ);
            }
        } else {
            proof {
                lemma_recorded(
                    self.not_supported@,
                    not_supported_insert_pos as int,
                    codepoint,
                    Self::NOT_SUPPORTED_MAX_SZ as nat,
                );
            }
            if not_supported_insert_pos != Self::NOT_SUPPORTED_MAX_SZ {
                self.not_supported.insert(not_supported_insert_pos, codepoint);
                self.not_supported.truncate(Self::NOT_SUPPORTED_MAX_SZ);
            }
        }
        ret
    }

    /// Whether the font supports `codepoint`, answered from the cache when it
    /// can be and recorded in it otherwise.
    pub fn has_codepoint(&mut self, font_codepoints: &[u32], codepoint: u32) -> (ret: bool)
        requires
            old(self).wf(),
        ensures
            ret == old(self).cached_answer(font_codepoints@, codepoint),
            old(self).agrees_with(font_codepoints@) ==> ret == font_codepoints@.contains(codepoint),
            final(self).wf(),
            old(self).agrees_with(font_codepoints@) ==> final(self).agrees_with(font_codepoints@),
            old(self).knows(codepoint) ==> final(self)@ == old(self)@,
            !old(self).knows(codepoint) ==> exists|p: int, q: int|
                {
                    &&& is_insertion_point(old(self)@.0, p, codepoint)
                    &&& is_insertion_point(old(self)@.1, q, codepoint)
                    &&& final(self)@.0 == (if ret {
                        bounded_insert(old(self)@.0, p, codepoint, Self::SUPPORTED_MAX_SZ as nat)
                    } else {
                        old(self)@.0
                    })
                    &&& final(self)@.1 == (if ret {
                        old(self)@.1
                    } else {
                        bounded_insert(
                            old(self)@.1,
                            q,
                            codepoint,
                            Self::NOT_SUPPORTED_MAX_SZ as nat,
                        )
                    })
                },
    {
        match search_sorted(&self.supported, codepoint) {
            Ok(_) => true,
            Err(supported_insert_pos) => match search_sorted(&self.not_supported, codepoint) {
                Ok(_) => false,
                Err(not_supported_insert_pos) => {
                    proof {
                        lemma_recorded(
                            self.supported@,
                            supported_insert_pos as int,
                            codepoint,
                            Self::SUPPORTED_MAX_SZ as nat,
                        );
                        lemma_recorded(
                            self.not_supported@,
                            not_supported_insert_pos as int,
                            codepoint,
                            Self::NOT_SUPPORTED_MAX_SZ as nat,
                        );
                    }
                    self.unknown_has_codepoint(
                        font_codepoints,
                        codepoint,
                        supported_insert_pos,
                        not_supported_insert_pos,
                    )
                },
            },
        }
    }
}

} // verus!
