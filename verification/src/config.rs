//! Configuration of the store.
use vstd::prelude::*;

verus! {

/// The byte cap where none is configured, 16 GiB.
pub const DEFAULT_STORE_MAX_BYTES: u64 = 17_179_869_184;

/// The smallest byte cap that may be configured, 64 MiB: below it evictions would fight every
/// download.
pub const STORE_MIN_MAX_BYTES: u64 = 67_108_864;

/// Knobs of the store.
#[derive(Clone, Copy, Debug, PartialEq, Eq, Structural)]
pub struct StoreConfig {
    /// Cap on stored audio bytes.
    pub max_bytes: u64,
    /// Seconds between full passes.
    pub sync_interval_secs: u64,
    /// Whether starring pins at all.
    pub pin_starred: bool,
    /// How many upcoming songs the queue window holds.
    pub queue_ahead: usize,
}

impl Default for StoreConfig {
    fn default() -> (r: Self)
        ensures
            r.max_bytes == DEFAULT_STORE_MAX_BYTES,
            r.sync_interval_secs == 900,
            r.pin_starred,
            r.queue_ahead == 3,
    {
        StoreConfig {
            max_bytes: DEFAULT_STORE_MAX_BYTES,
            sync_interval_secs: 900,
            pin_starred: true,
            queue_ahead: 3,
        }
    }
}

impl StoreConfig {
    /// The same knobs, with a cap that can be worked with.
    pub open spec fn normalized(self) -> StoreConfig {
        if self.max_bytes < STORE_MIN_MAX_BYTES {
            StoreConfig { max_bytes: STORE_MIN_MAX_BYTES, ..self }
        } else {
            self
        }
    }

    /// Raises a cap that is too small to work with.
    pub fn normalize(&mut self)
        ensures
            *final(self) == old(self).normalized(),
            final(self).max_bytes == if old(self).max_bytes < STORE_MIN_MAX_BYTES {
                STORE_MIN_MAX_BYTES
            } else {
                old(self).max_bytes
            },
            final(self).sync_interval_secs == old(self).sync_interval_secs,
            final(self).pin_starred == old(self).pin_starred,
            final(self).queue_ahead == old(self).queue_ahead,
    {
        if self.max_bytes < STORE_MIN_MAX_BYTES {
            self.max_bytes = STORE_MIN_MAX_BYTES;
        }
    }
}

/// A cap is never below the smallest, never lowered, and raised no further than to the smallest;
/// no other knob is touched.
pub proof fn caps_are_raised_to_the_smallest(c: StoreConfig)
    ensures
        c.normalized().max_bytes >= STORE_MIN_MAX_BYTES,
        c.normalized().max_bytes >= c.max_bytes,
        c.normalized().max_bytes == STORE_MIN_MAX_BYTES || c.normalized().max_bytes == c.max_bytes,
        c.normalized().sync_interval_secs == c.sync_interval_secs,
        c.normalized().pin_starred == c.pin_starred,
        c.normalized().queue_ahead == c.queue_ahead,
        c.normalized().normalized() == c.normalized(),
        STORE_MIN_MAX_BYTES == 64 * 1024 * 1024,
{
}

} // verus!
