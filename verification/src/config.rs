//! The startup configuration and the value resolver: tag index to
//! wallpaper path, with a configured fallback.

use vstd::prelude::*;

verus! {

/// One entry of the configured tag-to-wallpaper mapping.
pub struct TagEntry {
    /// The tag index this entry is for.
    pub tag: u64,
    /// The wallpaper path configured for that tag.
    pub path: String,
}

/// The configuration, loaded once at startup and read-only afterwards.
pub struct Config {
    /// Extra arguments inserted into every wallpaper-setter invocation,
    /// split on single spaces.
    pub swww_args: String,
    /// The fallback wallpaper for tags without a mapping entry.
    pub default: String,
    /// The tag-to-wallpaper mapping.
    pub tags: Vec<TagEntry>,
}

/// The path mapped to tag `t`, if the mapping has an entry for it; the
/// first entry wins, though a well-formed configuration has no duplicates.
pub open spec fn tag_lookup(s: Seq<TagEntry>, t: u64) -> Option<Seq<char>>
    decreases s.len(),
{
    if s.len() == 0 {
        None
    } else if s[0].tag == t {
        Some(s[0].path@)
    } else {
        tag_lookup(s.drop_first(), t)
    }
}

/// What an observation with derived tag `t` resolves to: the mapped path,
/// or the configured default when the tag has no mapping entry.
pub open spec fn resolve_model(c: Config, t: u64) -> Seq<char> {
    match tag_lookup(c.tags@, t) {
        Some(p) => p,
        None => c.default@,
    }
}

impl Config {
    /// Resolve a derived tag index to the wallpaper that should be shown.
    /// Total: an unmapped tag is not an error, it is the default-path case.
    pub fn resolve(&self, t: u64) -> (r: &String)
        ensures
            r@ == resolve_model(*self, t),
    {
        let n = self.tags.len();
        let mut i: usize = 0;
        proof {
            assert(self.tags@.skip(0) =~= self.tags@);
        }
        while i < n
            invariant
                n == self.tags@.len(),
                0 <= i <= n,
                tag_lookup(self.tags@, t) == tag_lookup(self.tags@.skip(i as int), t),
            decreases n - i,
        {
            proof {
                assert(self.tags@.skip(i as int).drop_first() =~= self.tags@.skip(i + 1));
                assert(self.tags@.skip(i as int)[0] == self.tags@[i as int]);
            }
            if self.tags[i].tag == t {
                return &self.tags[i].path;
            }
            i = i + 1;
        }
        proof {
            assert(self.tags@.skip(n as int) =~= Seq::<TagEntry>::empty());
        }
        &self.default
    }
}

} // verus!
