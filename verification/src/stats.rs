//! The per-artifact statistics record and its transitions.
//!
//! A record counts reads (`usages`) and remembers the zstd level the
//! artifact was last written at (`compression_level`). Reads bump the
//! counter; a completed recompression raises the level to the configured
//! optimized level unless a competing worker got there first. In normal
//! operation the level never goes down.

use vstd::prelude::*;

verus! {

/// Statistics sidecar attached to one cache artifact.
pub struct ModuleCacheStatistics {
    pub usages: u64,
    pub compression_level: i32,
}

/// The record after one more read: the counter grows by one, saturating at
/// its maximum; the level is untouched.
pub open spec fn bumped(s: ModuleCacheStatistics) -> ModuleCacheStatistics {
    ModuleCacheStatistics {
        usages: if s.usages < u64::MAX {
            (s.usages + 1) as u64
        } else {
            u64::MAX
        },
        compression_level: s.compression_level,
    }
}

/// The record after a recompression commit: the level rises to `opt_level`,
/// unless it already reached it (a peer won the race), in which case the
/// record is left alone.
pub open spec fn level_updated(s: ModuleCacheStatistics, opt_level: i32) -> ModuleCacheStatistics {
    if s.compression_level >= opt_level {
        s
    } else {
        ModuleCacheStatistics { usages: s.usages, compression_level: opt_level }
    }
}

/// Is a further recompression called for after a read: the artifact sits
/// below the optimized level and has been read at least `threshold` times.
pub open spec fn wants_recompression(
    s: ModuleCacheStatistics,
    opt_level: i32,
    threshold: u64,
) -> bool {
    s.compression_level < opt_level && s.usages >= threshold
}

impl ModuleCacheStatistics {
    /// Fresh record for an artifact that has never been read: the usage
    /// counter starts at zero and the level at the configured baseline.
    pub fn default_with(baseline_level: i32) -> (r: ModuleCacheStatistics)
        ensures
            r.usages == 0,
            r.compression_level == baseline_level,
    {
        ModuleCacheStatistics { usages: 0, compression_level: baseline_level }
    }

    /// Count one read.
    pub fn bump_usages(&mut self)
        ensures
            *final(self) == bumped(*old(self)),
    {
        self.usages = if self.usages < u64::MAX {
            self.usages + 1
        } else {
            u64::MAX
        };
    }

    /// Record a finished recompression at `opt_level`. Yields false, and
    /// changes nothing, when the re-read record already reports that level
    /// or a higher one.
    pub fn update_level_after_recompress(&mut self, opt_level: i32) -> (r: bool)
        ensures
            *final(self) == level_updated(*old(self), opt_level),
            r == (old(self).compression_level < opt_level),
    {
        if self.compression_level >= opt_level {
            false
        } else {
            self.compression_level = opt_level;
            true
        }
    }

    /// Decide, from a record just bumped and written, whether this read
    /// should trigger recompression.
    pub fn should_recompress(&self, opt_level: i32, threshold: u64) -> (r: bool)
        ensures
            r == wants_recompression(*self, opt_level, threshold),
    {
        self.compression_level < opt_level && self.usages >= threshold
    }
}

/// The compression level recorded for a surviving artifact never
/// decreases: counting a read keeps it, and a recompression commit either
/// keeps it or raises it to the optimized level.
pub proof fn lemma_compression_level_monotone(s: ModuleCacheStatistics, opt_level: i32)
    ensures
        bumped(s).compression_level == s.compression_level,
        level_updated(s, opt_level).compression_level >= s.compression_level,
{
}

/// A fully recompressed artifact is left alone: once the record reports at
/// least the optimized level, a further read burst asks for no
/// recompression and a commit attempt changes nothing.
pub proof fn lemma_recompression_idempotent(
    s: ModuleCacheStatistics,
    opt_level: i32,
    threshold: u64,
)
    requires
        s.compression_level >= opt_level,
    ensures
        !wants_recompression(s, opt_level, threshold),
        level_updated(s, opt_level) == s,
        !wants_recompression(bumped(s), opt_level, threshold),
{
}

} // verus!
