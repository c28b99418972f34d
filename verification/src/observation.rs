//! Raw observations from the compositor and the tag index derived from them.

use vstd::prelude::*;

verus! {

/// One update notification from the status source: which output is showing
/// which set of focused tags (a bitmask).
pub struct OutputInfo {
    pub name: String,
    pub focused_tags: u64,
}

/// `floor(log2(m))`, with `log2_floor(0) == 0`.
pub open spec fn log2_floor(m: u64) -> int
    decreases m,
{
    if m < 2 {
        0
    } else {
        1 + log2_floor(m / 2)
    }
}

/// The 1-based tag index derived from a focused-tags bitmask: the position
/// of the highest set bit. A zero mask derives index 1, like a mask with
/// only the lowest bit set.
pub open spec fn tag_of(m: u64) -> int {
    log2_floor(m) + 1
}

pub proof fn lemma_log2_floor_nonneg(m: u64)
    ensures
        0 <= log2_floor(m),
    decreases m,
{
    if m >= 2 {
        lemma_log2_floor_nonneg(m / 2);
    }
}

pub proof fn lemma_log2_floor_lt(m: u64)
    requires
        m >= 1,
    ensures
        log2_floor(m) < m,
    decreases m,
{
    if m >= 2 {
        lemma_log2_floor_lt(m / 2);
    }
}

impl OutputInfo {
    /// The tag index this observation is about, used as the key into the
    /// configured tag-to-wallpaper mapping.
    pub fn tag(&self) -> (r: u64)
        ensures
            r == tag_of(self.focused_tags),
    {
        let mut v: u64 = self.focused_tags;
        let mut r: u64 = 0;
        while v >= 2
            invariant
                log2_floor(self.focused_tags) == r + log2_floor(v),
                v <= self.focused_tags,
            decreases v,
        {
            proof {
                lemma_log2_floor_nonneg(v / 2);
                lemma_log2_floor_lt(self.focused_tags);
            }
            v = v / 2;
            r = r + 1;
        }
        proof {
            if self.focused_tags >= 1 {
                lemma_log2_floor_lt(self.focused_tags);
            }
        }
        r + 1
    }
}

} // verus!
