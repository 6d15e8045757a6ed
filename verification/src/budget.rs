//! The budget: why the store cannot fill the disk.
use vstd::prelude::*;

verus! {

/// Percent of the store filesystem's total size that is held back, whatever the configured
/// cap says.
pub const STORE_RESERVE_FRACTION_PCT: u64 = 5;

/// Least reserve, 20 GiB.
pub const STORE_RESERVE_FLOOR: u64 = 21_474_836_480;

/// Setback below the effective budget that pins may not touch, 512 MiB.
pub const STORE_PIN_CEILING_SETBACK: u64 = 536_870_912;

/// What an eviction leaves in place while free space is merely tight, 2 GiB.
pub const STORE_EVICT_FLOOR: u64 = 2_147_483_648;

/// Free space at or below which the mirror gives way in full, 5 GiB.
pub const STORE_CRITICAL_AVAIL: u64 = 5_368_709_120;

/// The most of the mirror hand-picked stars can be guaranteed, 2 GiB.
pub const STAR_FLOOR_BYTES: u64 = 2_147_483_648;

/// The guarantee is at most the ceiling over this.
pub const STAR_FLOOR_SHARE_DEN: u64 = 2;

/// Where a pass's effective budget came from.
#[derive(Clone, Copy, Debug, PartialEq, Eq, Structural)]
pub enum BudgetSource {
    /// The filesystem was measured.
    FreeSpace,
    /// It could not be, and the configured cap stands. Never unlimited.
    Config,
}

impl BudgetSource {
    /// Stable label for the status surface.
    pub fn label(self) -> (r: &'static str)
        ensures
            r@ == (match self {
                BudgetSource::FreeSpace => "free-space"@,
                BudgetSource::Config => "config"@,
            }),
    {
        match self {
            BudgetSource::FreeSpace => "free-space",
            BudgetSource::Config => "config",
        }
    }
}

impl Default for BudgetSource {
    fn default() -> (r: Self)
        ensures
            r == BudgetSource::Config,
    {
        BudgetSource::Config
    }
}

/// The lesser of two numbers.
pub open spec fn least(a: int, b: int) -> int {
    if a <= b { a } else { b }
}

/// The greater of two numbers.
pub open spec fn most(a: int, b: int) -> int {
    if a >= b { a } else { b }
}

/// A byte count as far as 64 bits go.
pub open spec fn capped(n: int) -> int {
    least(n, u64::MAX as int)
}

/// What is held back on a filesystem of this size.
pub open spec fn reserve_of(total: int) -> int {
    most(STORE_RESERVE_FLOOR as int, total / 100 * STORE_RESERVE_FRACTION_PCT)
}

/// The ceiling on the store: the configured cap, or what the pool of free and own bytes
/// leaves above the reserve, whichever is less.
pub open spec fn budget_of(avail: int, total: int, own: int, configured: int) -> int {
    least(configured, most(0, capped(avail + own) - reserve_of(total)))
}

/// How far down an eviction may reclaim.
pub open spec fn eviction_floor(max_bytes: int, configured: int, avail: int) -> int {
    if avail <= STORE_CRITICAL_AVAIL {
        max_bytes
    } else {
        most(max_bytes, least(STORE_EVICT_FLOOR as int, configured))
    }
}

/// How much of an effective budget pins may fill.
pub open spec fn ceiling_of(effective_max: int) -> int {
    effective_max - least(STORE_PIN_CEILING_SETBACK as int, effective_max / 4)
}

/// What hand-picked stars are guaranteed under a ceiling.
pub open spec fn star_share(ceiling: int) -> int {
    least(STAR_FLOOR_BYTES as int, ceiling / STAR_FLOOR_SHARE_DEN as int)
}

/// The free-space reserve of a filesystem of this total size.
pub fn budget_reserve(total: u64) -> (r: u64)
    ensures
        r == reserve_of(total as int),
{
    let share: u64 = total / 100 * STORE_RESERVE_FRACTION_PCT;
    if STORE_RESERVE_FLOOR >= share {
        STORE_RESERVE_FLOOR
    } else {
        share
    }
}

/// The effective budget from what was observed of the filesystem: `None` where the
/// observation is nonsense, more free than there is.
///
/// The pool is free plus own bytes, so evicting moves nothing: the store's own actions
/// cannot move its own ceiling. A budget of zero means that the reserve is breached.
pub fn derive_budget(avail: u64, total: u64, own: u64, configured: u64) -> (r: Option<u64>)
    ensures
        r is None <==> avail > total,
        r is Some ==> r->0 == budget_of(avail as int, total as int, own as int, configured as int),
{
    if avail > total {
        return None;
    }
    let reserve: u64 = budget_reserve(total);
    let pool: u64 = avail.saturating_add(own);
    let room: u64 = pool.saturating_sub(reserve);
    if configured <= room {
        Some(configured)
    } else {
        Some(room)
    }
}

/// The byte total an eviction may reclaim down to: the pass budget, but not below the
/// eviction floor (or a smaller configured cap) unless free space is critical.
pub fn evict_target(max_bytes: u64, configured: u64, avail: u64) -> (r: u64)
    ensures
        r == eviction_floor(max_bytes as int, configured as int, avail as int),
{
    if avail <= STORE_CRITICAL_AVAIL {
        return max_bytes;
    }
    let floor: u64 = if STORE_EVICT_FLOOR <= configured {
        STORE_EVICT_FLOOR
    } else {
        configured
    };
    if max_bytes >= floor {
        max_bytes
    } else {
        floor
    }
}

/// How much of an effective budget the pins may fill; the setback is at most a quarter.
pub fn pin_ceiling(effective_max: u64) -> (r: u64)
    ensures
        r == ceiling_of(effective_max as int),
{
    let quarter: u64 = effective_max / 4;
    let setback: u64 = if STORE_PIN_CEILING_SETBACK <= quarter {
        STORE_PIN_CEILING_SETBACK
    } else {
        quarter
    };
    effective_max - setback
}

/// The reservation hand-picked stars are admitted into before anything else is ranked.
pub fn star_floor(ceiling: u64) -> (r: u64)
    ensures
        r == star_share(ceiling as int),
{
    let share: u64 = ceiling / STAR_FLOOR_SHARE_DEN;
    if STAR_FLOOR_BYTES <= share {
        STAR_FLOOR_BYTES
    } else {
        share
    }
}

/// What a filesystem's block counts say of its free and total bytes. `None` where the block
/// size is unknown or the filesystem is empty.
pub open spec fn space_of(bavail: int, blocks: int, frsize: int, bsize: int) -> Option<(int, int)> {
    let unit = if frsize > 0 { frsize } else { bsize };
    if unit == 0 || blocks == 0 {
        None
    } else {
        Some((capped(bavail * unit), capped(blocks * unit)))
    }
}

/// A product of byte counts as far as 64 bits go.
fn capped_product(a: u64, b: u64) -> (r: u64)
    ensures
        r == capped(a * b),
{
    match a.checked_mul(b) {
        Some(p) => p,
        None => u64::MAX,
    }
}

/// Free and total bytes of a filesystem, from the block counts it reports. Blocks free to
/// an unprivileged writer are what counts as free.
pub fn statvfs_space(bavail: u64, blocks: u64, frsize: u64, bsize: u64) -> (r: Option<(u64, u64)>)
    ensures
        r is Some <==> space_of(bavail as int, blocks as int, frsize as int, bsize as int) is Some,
        r matches Some(p) ==> space_of(bavail as int, blocks as int, frsize as int, bsize as int)
            == Some((p.0 as int, p.1 as int)),
{
    let unit: u64 = if frsize > 0 {
        frsize
    } else {
        bsize
    };
    if unit == 0 {
        return None;
    }
    let avail: u64 = capped_product(bavail, unit);
    let total: u64 = capped_product(blocks, unit);
    if total == 0 {
        assert(blocks == 0) by {
            assert(blocks > 0 && unit > 0 ==> blocks * unit > 0) by (nonlinear_arith);
        }
        return None;
    }
    assert(blocks == 0 ==> blocks * unit == 0) by (nonlinear_arith);
    Some((avail, total))
}

/// The budget never exceeds the configured cap, and the reserve stays free of it: there is
/// no filesystem the store may claim in full.
pub proof fn the_budget_keeps_the_reserve(avail: int, total: int, own: int, configured: int)
    requires
        0 <= avail <= total,
        0 <= own,
        0 <= configured,
    ensures
        0 <= budget_of(avail, total, own, configured) <= configured,
        budget_of(avail, total, own, configured) > 0 ==> budget_of(avail, total, own, configured)
            + reserve_of(total) <= avail + own,
        reserve_of(total) >= STORE_RESERVE_FLOOR,
{
}

/// Evicting moves bytes from own to free and leaves the budget where it was.
pub proof fn the_budget_ignores_own_eviction(
    avail: int,
    total: int,
    own: int,
    configured: int,
    freed: int,
)
    requires
        0 <= freed <= own,
    ensures
        budget_of(avail + freed, total, own - freed, configured) == budget_of(
            avail,
            total,
            own,
            configured,
        ),
{
}

/// A growing disk use by others only lowers the budget.
pub proof fn the_budget_falls_with_free_space(
    avail: int,
    less: int,
    total: int,
    own: int,
    configured: int,
)
    requires
        less <= avail,
    ensures
        budget_of(less, total, own, configured) <= budget_of(avail, total, own, configured),
{
}

/// The eviction target is never below the budget, never above the larger of the budget and
/// the configured cap, and is the budget itself once free space is critical.
pub proof fn eviction_floor_is_bounded(max_bytes: int, configured: int, avail: int)
    ensures
        eviction_floor(max_bytes, configured, avail) >= max_bytes,
        eviction_floor(max_bytes, configured, avail) <= most(max_bytes, configured),
        avail <= STORE_CRITICAL_AVAIL ==> eviction_floor(max_bytes, configured, avail) == max_bytes,
{
}

/// Pins get at least three quarters of a budget and never more than all of it.
pub proof fn ceiling_is_bounded(max: int)
    requires
        0 <= max,
    ensures
        ceiling_of(max) <= max,
        4 * ceiling_of(max) >= 3 * max,
        max > 0 ==> ceiling_of(max) > 0,
{
}

/// The guarantee to hand-picked stars is bounded both ways, so it never becomes the whole
/// policy.
pub proof fn star_share_is_bounded(ceiling: int)
    requires
        0 <= ceiling,
    ensures
        0 <= star_share(ceiling) <= STAR_FLOOR_BYTES,
        2 * star_share(ceiling) <= ceiling,
{
}

/// The reserve is the fraction of the filesystem or the least reserve, whichever is more, and
/// nothing else: it covers both, for a filesystem of any size.
pub proof fn the_reserve_covers_fraction_and_floor(total: int)
    requires
        0 <= total,
    ensures
        reserve_of(total) >= total / 100 * 5,
        reserve_of(total) >= STORE_RESERVE_FLOOR,
        reserve_of(total) == total / 100 * 5 || reserve_of(total) == STORE_RESERVE_FLOOR,
        total >= 100 ==> 21 * reserve_of(total) > total,
{
}

/// A larger filesystem never holds back less.
pub proof fn the_reserve_grows_with_the_filesystem(total: int, larger: int)
    requires
        0 <= total <= larger,
    ensures
        reserve_of(total) <= reserve_of(larger),
{
}

/// The budget gives away nothing either: it is the configured cap, or the pool stands exactly
/// at the reserve once the budget is used up, or there was nothing above the reserve.
pub proof fn the_budget_is_all_there_is(avail: int, total: int, own: int, configured: int)
    requires
        0 <= avail <= total,
        0 <= own,
        0 <= configured,
        avail + own <= u64::MAX,
    ensures
        ({
            let b = budget_of(avail, total, own, configured);
            let share = total / 100 * 5;
            &&& b == configured || (b == 0 && (avail + own <= share || avail + own
                <= STORE_RESERVE_FLOOR)) || b == avail + own - share || b == avail + own
                - STORE_RESERVE_FLOOR
            &&& b > 0 ==> b + share <= avail + own && b + STORE_RESERVE_FLOOR <= avail + own
            &&& avail + own - share >= configured && avail + own - STORE_RESERVE_FLOOR
                >= configured ==> b == configured
        }),
{
}

/// A larger cap never gives a smaller budget, and a cap that does not bind changes nothing.
pub proof fn the_budget_follows_the_cap(avail: int, total: int, own: int, cap: int, more: int)
    requires
        cap <= more,
    ensures
        budget_of(avail, total, own, cap) <= budget_of(avail, total, own, more),
        budget_of(avail, total, own, cap) < cap ==> budget_of(avail, total, own, more)
            == budget_of(avail, total, own, cap),
{
}

/// While free space is not critical an eviction stops at the budget, at the eviction floor or at
/// the configured cap: at the budget where that is the most, and else no lower than the smaller
/// of the other two.
pub proof fn evictions_leave_the_floor(max_bytes: int, configured: int, avail: int)
    requires
        avail > STORE_CRITICAL_AVAIL,
    ensures
        ({
            let t = eviction_floor(max_bytes, configured, avail);
            &&& t >= STORE_EVICT_FLOOR || t >= configured
            &&& t == max_bytes || t == STORE_EVICT_FLOOR || t == configured
            &&& max_bytes >= STORE_EVICT_FLOOR || max_bytes >= configured ==> t == max_bytes
            &&& t > max_bytes ==> t <= STORE_EVICT_FLOOR && t <= configured
        }),
{
}

/// What pins may not touch is the setback or a quarter of the budget, whichever is less.
pub proof fn pins_leave_the_setback(max: int)
    requires
        0 <= max,
    ensures
        max - ceiling_of(max) <= STORE_PIN_CEILING_SETBACK,
        4 * (max - ceiling_of(max)) <= max,
        max - ceiling_of(max) == STORE_PIN_CEILING_SETBACK || 4 * (max - ceiling_of(max) + 1) > max,
{
}

/// The guarantee to hand-picked stars is half of the ceiling or the most that is guaranteed,
/// whichever is less.
pub proof fn stars_get_half_or_the_most(ceiling: int)
    requires
        0 <= ceiling,
    ensures
        star_share(ceiling) == STAR_FLOOR_BYTES || 2 * (star_share(ceiling) + 1) > ceiling,
        star_share(ceiling) <= STAR_FLOOR_BYTES,
        2 * star_share(ceiling) <= ceiling,
{
}

/// Space is counted in fragments where the filesystem reports their size, else in blocks, and
/// there is none to speak of without a unit or without blocks. Free and total are counted alike.
pub proof fn space_is_counted_in_one_unit(bavail: int, blocks: int, frsize: int, bsize: int)
    requires
        0 <= bavail,
        0 <= blocks,
        0 <= frsize,
        0 <= bsize,
    ensures
        space_of(bavail, blocks, frsize, bsize) is None <==> blocks == 0 || (frsize == 0 && bsize
            == 0),
        frsize > 0 ==> space_of(bavail, blocks, frsize, bsize) == space_of(
            bavail,
            blocks,
            frsize,
            0,
        ),
        frsize == 0 ==> space_of(bavail, blocks, 0, bsize) == space_of(bavail, blocks, bsize, 0),
        space_of(bavail, blocks, frsize, bsize) matches Some(s) ==> {
            let unit = if frsize == 0 {
                bsize
            } else {
                frsize
            };
            &&& bavail * unit <= u64::MAX ==> s.0 == bavail * unit
            &&& blocks * unit <= u64::MAX ==> s.1 == blocks * unit
            &&& bavail * unit > u64::MAX ==> s.0 == u64::MAX
            &&& blocks * unit > u64::MAX ==> s.1 == u64::MAX
        },
{
}

} // verus!
