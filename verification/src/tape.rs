//! Keeping what was just heard: which window of the player's cache to dump, how to cut the
//! dumped file, and what its name may claim.
//!
//! Positions are microseconds on the playing entry's own timeline, as fine as the player
//! reports them. A reading that is no number is `None`.
use crate::text::{decimal, push_decimal};
use vstd::prelude::*;

verus! {

/// The shortest window worth keeping, in seconds.
pub const TAPE_MIN_SECS: i64 = 12;

/// How much more of the past is asked for than a stamped start needs, in seconds.
pub const EDGE_LEAD_SECS: i64 = 5;

/// Slack on whether a stamped boundary lies inside the dumped window, in microseconds: the
/// stamps are taken about once a second.
pub const CONTAINMENT_SLACK: i64 = 1_500_000;

/// Whether a title change is known to land where it is heard. Until it is, no name claims a
/// track.
pub const TRACK_SHAPE_PROVEN: bool = false;

/// How a segment's boundaries were decided.
#[derive(Clone, Copy, Debug, PartialEq, Eq, Structural)]
pub enum Cut {
    /// Both edges are stamped title changes: the file is that track, start to end.
    IcyEdge,
    /// The start is a stamped title change, the end is the press.
    IcyOpen,
    /// Anything else. The file holds what was heard, and other things.
    Window,
}

impl Cut {
    /// The word a record keeps.
    pub open spec fn word(self) -> Seq<char> {
        match self {
            Cut::IcyEdge => "icy-edge"@,
            Cut::IcyOpen => "icy-open"@,
            Cut::Window => "window"@,
        }
    }

    /// The word a record keeps.
    pub fn as_str(self) -> (r: &'static str)
        ensures
            r@ == self.word(),
    {
        match self {
            Cut::IcyEdge => "icy-edge",
            Cut::IcyOpen => "icy-open",
            Cut::Window => "window",
        }
    }

    /// A cut that may name a track, where track names are earned.
    pub open spec fn names_a_track(self, proven: bool) -> bool {
        match self {
            Cut::Window => false,
            _ => proven,
        }
    }

    /// Whether this cut may name a track.
    pub fn may_name_a_track(self) -> (r: bool)
        ensures
            r == (TRACK_SHAPE_PROVEN && !(self is Window)),
            r == self.names_a_track(TRACK_SHAPE_PROVEN),
    {
        self.may_name_a_track_when(TRACK_SHAPE_PROVEN)
    }

    /// The same; `proven` says whether track names are earned.
    pub fn may_name_a_track_when(self, proven: bool) -> (r: bool)
        ensures
            r == (proven && !(self is Window)),
            r == self.names_a_track(proven),
    {
        match self {
            Cut::Window => false,
            _ => proven,
        }
    }
}

/// Why no window could be planned.
#[derive(Clone, Copy, Debug, PartialEq, Eq, Structural)]
pub enum WindowError {
    /// Nothing is loaded, or it has no position.
    NoPosition,
    /// The cache holds less of what was asked for than is worth keeping: this much.
    TooThin { available: i64 },
}

/// Whole seconds of a number of microseconds, to the nearest, halves to the even one.
pub open spec fn nearest_even(micros: int) -> int {
    let whole = micros / 1_000_000;
    let rest = micros % 1_000_000;
    if rest > 500_000 || (rest == 500_000 && whole % 2 == 1) {
        whole + 1
    } else {
        whole
    }
}

impl WindowError {
    /// What is said of it.
    pub open spec fn text(self) -> Seq<char> {
        match self {
            WindowError::NoPosition => "nothing is loaded to capture from"@,
            WindowError::TooThin { available } => "only "@ + (if available < 0 {
                "-"@ + decimal(nearest_even(-available) as nat)
            } else {
                decimal(nearest_even(available as int) as nat)
            }) + "s is buffered so far"@,
        }
    }

    /// What is said of it.
    pub fn message(&self) -> (r: String)
        ensures
            r@ == self.text(),
    {
        match self {
            WindowError::NoPosition => "nothing is loaded to capture from".to_owned(),
            WindowError::TooThin { available } => {
                let mut out: String = "only ".to_owned();
                let size: u64 = if *available < 0 {
                    out.append("-");
                    (-(*available as i128)) as u64
                } else {
                    *available as u64
                };
                let whole: u64 = size / 1_000_000;
                let rest: u64 = size % 1_000_000;
                let secs: u64 = if rest > 500_000 || (rest == 500_000 && whole % 2 == 1) {
                    whole + 1
                } else {
                    whole
                };
                push_decimal(&mut out, secs);
                out.append("s is buffered so far");
                assert(out@ =~= self.text());
                out
            },
        }
    }
}

/// An ask that is no number, or negative, is no ask.
pub open spec fn margin(ask: Option<i64>) -> int {
    match ask {
        Some(n) if n > 0 => n as int,
        _ => 0,
    }
}

/// A range of the cache that holds a position.
pub open spec fn holds(range: (Option<i64>, Option<i64>), pos: i64) -> bool {
    match range {
        (Some(lo), Some(hi)) => lo <= pos <= hi,
        _ => false,
    }
}

/// The first range of the cache that holds a position.
pub open spec fn range_at(
    ranges: Seq<(Option<i64>, Option<i64>)>,
    pos: i64,
) -> Option<(i64, i64)>
    decreases ranges.len(),
{
    if ranges.len() == 0 {
        None
    } else if holds(ranges[0], pos) {
        Some((ranges[0].0->0, ranges[0].1->0))
    } else {
        range_at(ranges.drop_first(), pos)
    }
}

/// The greater of two.
pub open spec fn later(a: int, b: int) -> int {
    if a >= b {
        a
    } else {
        b
    }
}

/// The smaller of two.
pub open spec fn earlier(a: int, b: int) -> int {
    if a <= b {
        a
    } else {
        b
    }
}

/// The window around a position: as much as is asked for on either side and is in the cache,
/// and no more than the longest span, of which the part nearest the end is kept.
pub open spec fn window_of(
    pos: int,
    back: int,
    fwd: int,
    range: (i64, i64),
    max: Option<i64>,
) -> (int, int) {
    let start = later(pos - back, range.0 as int);
    let end = earlier(pos + fwd, range.1 as int);
    match max {
        Some(n) if n > 0 && end - start > n => (end - n, end),
        _ => (start, end),
    }
}

/// The window to dump, or why there is none.
pub open spec fn planned(
    pos: Option<i64>,
    back: Option<i64>,
    fwd: Option<i64>,
    ranges: Seq<(Option<i64>, Option<i64>)>,
    max: Option<i64>,
    min: Option<i64>,
) -> Result<(i64, i64), WindowError> {
    if pos is None {
        Err(WindowError::NoPosition)
    } else if range_at(ranges, pos->0) is None {
        Err(WindowError::TooThin { available: 0 })
    } else {
        let w = window_of(
            pos->0 as int,
            margin(back),
            margin(fwd),
            range_at(ranges, pos->0)->0,
            max,
        );
        if w.1 - w.0 < margin(min) {
            Err(WindowError::TooThin { available: (w.1 - w.0) as i64 })
        } else {
            Ok((w.0 as i64, w.1 as i64))
        }
    }
}

/// Plans the window to dump, in absolute positions inside the range of the cache that holds
/// `pos`. Total over every reading.
pub fn plan_window(
    pos: Option<i64>,
    back: Option<i64>,
    fwd: Option<i64>,
    ranges: &Vec<(Option<i64>, Option<i64>)>,
    max: Option<i64>,
    min: Option<i64>,
) -> (r: Result<(i64, i64), WindowError>)
    ensures
        r == planned(pos, back, fwd, ranges@, max, min),
{
    let pos: i64 = match pos {
        Some(p) => p,
        None => {
            return Err(WindowError::NoPosition);
        },
    };
    let back: i64 = match back {
        Some(n) => if n > 0 {
            n
        } else {
            0
        },
        None => 0,
    };
    let fwd: i64 = match fwd {
        Some(n) => if n > 0 {
            n
        } else {
            0
        },
        None => 0,
    };
    let min: i64 = match min {
        Some(n) => if n > 0 {
            n
        } else {
            0
        },
        None => 0,
    };
    let mut i: usize = 0;
    assert(ranges@.skip(0) =~= ranges@);
    while i < ranges.len()
        invariant
            i <= ranges@.len(),
            range_at(ranges@, pos) == range_at(ranges@.skip(i as int), pos),
        ensures
            range_at(ranges@, pos) == range_at(ranges@.skip(i as int), pos),
            i < ranges@.len() ==> holds(ranges@[i as int], pos),
            i <= ranges@.len(),
        decreases ranges@.len() - i,
    {
        assert(ranges@.skip(i as int)[0] == ranges@[i as int]);
        assert(ranges@.skip(i as int).drop_first() =~= ranges@.skip(i + 1));
        let hit: bool = match (ranges[i].0, ranges[i].1) {
            (Some(lo), Some(hi)) => lo <= pos && pos <= hi,
            _ => false,
        };
        if hit {
            break;
        }
        i = i + 1;
    }
    if i >= ranges.len() {
        return Err(WindowError::TooThin { available: 0 });
    }
    assert(ranges@.skip(i as int)[0] == ranges@[i as int]);
    let (lo, hi): (i64, i64) = match (ranges[i].0, ranges[i].1) {
        (Some(lo), Some(hi)) => (lo, hi),
        _ => (pos, pos),
    };
    let a: i128 = pos as i128 - back as i128;
    let mut start: i64 = if a >= lo as i128 {
        a as i64
    } else {
        lo
    };
    let b: i128 = pos as i128 + fwd as i128;
    let end: i64 = if b <= hi as i128 {
        b as i64
    } else {
        hi
    };
    assert(lo <= start <= pos <= end <= hi);
    match max {
        Some(n) => {
            if n > 0 && end as i128 - start as i128 > n as i128 {
                start = (end as i128 - n as i128) as i64;
            }
        },
        None => {},
    }
    let span: i128 = end as i128 - start as i128;
    if span < min as i128 {
        return Err(WindowError::TooThin { available: span as i64 });
    }
    Ok((start, end))
}

proof fn found_ranges_hold(ranges: Seq<(Option<i64>, Option<i64>)>, pos: i64)
    ensures
        range_at(ranges, pos) matches Some(r) ==> r.0 <= pos <= r.1,
    decreases ranges.len(),
{
    if ranges.len() > 0 {
        found_ranges_hold(ranges.drop_first(), pos);
    }
}

/// A planned window lies inside the range of the cache that holds the position, reaches no
/// further than was asked for on either side, ends at the position or after it, and is neither
/// longer than allowed nor shorter than what is worth keeping. A window that is too thin is
/// reported with its length, which is less than that, or none where no range holds the position.
pub proof fn windows_lie_in_the_cache(
    pos: Option<i64>,
    back: Option<i64>,
    fwd: Option<i64>,
    ranges: Seq<(Option<i64>, Option<i64>)>,
    max: Option<i64>,
    min: Option<i64>,
)
    ensures
        planned(pos, back, fwd, ranges, max, min) matches Ok(w) ==> {
            &&& pos is Some
            &&& range_at(ranges, pos->0) matches Some((lo, hi)) && lo <= w.0 <= w.1 <= hi
            &&& pos->0 - margin(back) <= w.0
            &&& pos->0 <= w.1 <= pos->0 + margin(fwd)
            &&& max is Some && max->0 > 0 ==> w.1 - w.0 <= max->0
            &&& w.1 - w.0 >= margin(min)
        },
        planned(pos, back, fwd, ranges, max, min) matches Err(WindowError::TooThin { available })
            ==> {
            &&& 0 <= available
            &&& available < margin(min) || (range_at(ranges, pos->0) is None && available == 0)
        },
{
    if pos is Some {
        found_ranges_hold(ranges, pos->0);
    }
}

/// What a press was found to be about.
#[derive(Clone, Copy, Debug, PartialEq, Eq, Structural)]
pub enum MarkSubject {
    /// A song of the library: its audio is already at hand.
    Song,
    /// The standing title line.
    Icy,
    /// The title line before it.
    Previous,
    /// Two title lines around the press.
    Ambiguous,
    /// A programme rather than a track.
    Show,
    /// A match that was just made.
    FreshMatch,
    /// Nothing but the moment.
    Moment,
    /// Nothing at all.
    Nothing,
    /// The previous line was asked for and there is none.
    NoPrevious,
}

/// Where the title lines that a press can see stood, as far as that was stamped.
#[derive(Clone, Copy, Debug, PartialEq, Eq, Structural)]
pub struct CutStamps {
    /// Where the live title began.
    pub icy_start_pos: Option<i64>,
    /// Where the retired title began.
    pub prev_start_pos: Option<i64>,
    /// Where the retired title ended.
    pub prev_end_pos: Option<i64>,
}

/// A decided cut, and what the stamps narrow it to.
#[derive(Clone, Copy, Debug, PartialEq, Eq, Structural)]
pub struct CutPlan {
    pub cut: Cut,
    pub start_pos: Option<i64>,
    pub end_pos: Option<i64>,
}

/// How the dumped file is to be cut, and what may still be claimed of it.
#[derive(Clone, Copy, Debug, PartialEq, Eq, Structural)]
pub struct LocalCut {
    pub cut: Cut,
    /// Where to cut the file, from its own start; `None` keeps it whole.
    pub start: Option<i64>,
    pub end: Option<i64>,
    /// Whether the file stops at the press rather than at an end.
    pub truncated_at_press: bool,
}

/// A dump that can be put down to the entry that was seen.
pub open spec fn put_down_to(expect: Option<u64>, got: Option<u64>) -> bool {
    match (expect, got) {
        (Some(a), Some(b)) => a == b,
        _ => true,
    }
}

/// Whether a dump can be put down to the entry that the caller saw. Not knowing one of the two
/// is no mismatch.
pub fn attributable(expect: Option<u64>, got: Option<u64>) -> (r: bool)
    ensures
        r == (expect is Some && got is Some ==> expect == got),
        r == put_down_to(expect, got),
{
    match (expect, got) {
        (Some(a), Some(b)) => a == b,
        _ => true,
    }
}

/// A window that claims nothing.
pub open spec fn plain_plan() -> CutPlan {
    CutPlan { cut: Cut::Window, start_pos: None, end_pos: None }
}

/// The cut for a subject.
pub open spec fn cut_of(subject: MarkSubject, stamps: CutStamps) -> Option<CutPlan> {
    match subject {
        MarkSubject::Song | MarkSubject::Nothing | MarkSubject::NoPrevious => None,
        MarkSubject::Previous => match (stamps.prev_start_pos, stamps.prev_end_pos) {
            (Some(s), Some(e)) if e > s => Some(
                CutPlan { cut: Cut::IcyEdge, start_pos: Some(s), end_pos: Some(e) },
            ),
            _ => Some(plain_plan()),
        },
        MarkSubject::Icy => match stamps.icy_start_pos {
            Some(s) => Some(CutPlan { cut: Cut::IcyOpen, start_pos: Some(s), end_pos: None }),
            None => Some(plain_plan()),
        },
        _ => Some(plain_plan()),
    }
}

/// Decides the cut for a subject. `None` means no dump at all: the audio is at hand already,
/// or the press named nothing.
pub fn cut_for(subject: MarkSubject, stamps: &CutStamps) -> (r: Option<CutPlan>)
    ensures
        r == cut_of(subject, *stamps),
{
    let window: CutPlan = CutPlan { cut: Cut::Window, start_pos: None, end_pos: None };
    match subject {
        MarkSubject::Song => None,
        MarkSubject::Nothing => None,
        MarkSubject::NoPrevious => None,
        MarkSubject::Previous => match (stamps.prev_start_pos, stamps.prev_end_pos) {
            (Some(s), Some(e)) => if e > s {
                Some(CutPlan { cut: Cut::IcyEdge, start_pos: Some(s), end_pos: Some(e) })
            } else {
                Some(window)
            },
            _ => Some(window),
        },
        MarkSubject::Icy => match stamps.icy_start_pos {
            Some(s) => Some(CutPlan { cut: Cut::IcyOpen, start_pos: Some(s), end_pos: None }),
            None => Some(window),
        },
        _ => Some(window),
    }
}

/// A plan's boundaries lie inside a dumped window, give or take the slack.
pub open spec fn contains_plan(plan: CutPlan, from: int, to: int) -> bool {
    &&& plan.start_pos is Some
    &&& from < to
    &&& from - CONTAINMENT_SLACK <= plan.start_pos->0 <= to
    &&& plan.end_pos matches Some(e) ==> plan.start_pos->0 < e <= to + CONTAINMENT_SLACK
}

/// How far into a file a position lies: never before its start, and as far as 64 bits go.
pub open spec fn offset_in(pos: i64, from: i64) -> i64 {
    if pos <= from {
        0
    } else if pos - from > i64::MAX {
        i64::MAX
    } else {
        (pos - from) as i64
    }
}

/// The plan on the dumped file: as planned where the file holds the boundaries, else the whole
/// file, claiming nothing.
pub open spec fn local_of(plan: CutPlan, from: Option<i64>, to: Option<i64>) -> LocalCut {
    if from is Some && to is Some && contains_plan(plan, from->0 as int, to->0 as int) {
        LocalCut {
            cut: plan.cut,
            start: Some(offset_in(plan.start_pos->0, from->0)),
            end: match plan.end_pos {
                Some(e) => Some(offset_in(e, from->0)),
                None => None,
            },
            truncated_at_press: plan.cut is IcyOpen,
        }
    } else {
        LocalCut { cut: Cut::Window, start: None, end: None, truncated_at_press: false }
    }
}

/// How far into a file a position lies.
fn offset(pos: i64, from: i64) -> (r: i64)
    ensures
        r == offset_in(pos, from),
{
    let n: i128 = pos as i128 - from as i128;
    if n <= 0 {
        0
    } else if n > i64::MAX as i128 {
        i64::MAX
    } else {
        n as i64
    }
}

/// Brings a plan onto the file that came back. Where the dumped window does not hold the
/// boundaries that the plan names, the claim goes and the file stays whole: wider than asked
/// for is never a lie.
pub fn local_cut(plan: &CutPlan, dump_start: Option<i64>, dump_end: Option<i64>) -> (r: LocalCut)
    ensures
        r == local_of(*plan, dump_start, dump_end),
{
    let window: LocalCut = LocalCut {
        cut: Cut::Window,
        start: None,
        end: None,
        truncated_at_press: false,
    };
    let (start_pos, from, to): (i64, i64, i64) = match (plan.start_pos, dump_start, dump_end) {
        (Some(s), Some(a), Some(b)) => (s, a, b),
        _ => {
            return window;
        },
    };
    if to <= from {
        return window;
    }
    let slack: i128 = CONTAINMENT_SLACK as i128;
    if (start_pos as i128) < from as i128 - slack || start_pos > to {
        return window;
    }
    let end: Option<i64> = match plan.end_pos {
        Some(e) => {
            if e <= start_pos || e as i128 > to as i128 + slack {
                return window;
            }
            Some(offset(e, from))
        },
        None => None,
    };
    let open: bool = match plan.cut {
        Cut::IcyOpen => true,
        _ => false,
    };
    LocalCut {
        cut: plan.cut,
        start: Some(offset(start_pos, from)),
        end,
        truncated_at_press: open,
    }
}

/// A cut is claimed only of a file that holds its boundaries, and a file that is cut at all is
/// cut inside itself.
pub proof fn claims_are_held_by_the_bytes(plan: CutPlan, from: Option<i64>, to: Option<i64>)
    ensures
        !(local_of(plan, from, to).cut is Window) ==> from is Some && to is Some && contains_plan(
            plan,
            from->0 as int,
            to->0 as int,
        ),
        local_of(plan, from, to).start matches Some(s) ==> 0 <= s <= to->0 - from->0,
        local_of(plan, from, to).end matches Some(e) ==> local_of(plan, from, to).start is Some
            && local_of(plan, from, to).start->0 <= e,
{
}

/// Where a file is cut again.
pub open spec fn recut_of(start: Option<i64>, end: Option<i64>) -> Option<(i64, Option<i64>)> {
    if start is Some && start->0 >= 0 {
        Some(
            (
                start->0,
                if end is Some && end->0 > start->0 {
                    end
                } else {
                    None
                },
            ),
        )
    } else {
        None
    }
}

/// Where to cut a file again, from its own start: not at all without a start inside it, and to
/// an end only where that lies after the start.
pub fn recut_bounds(start: Option<i64>, end: Option<i64>) -> (r: Option<(i64, Option<i64>)>)
    ensures
        r == recut_of(start, end),
        r == (match start {
            Some(s) if s >= 0 => Some(
                (
                    s,
                    match end {
                        Some(e) if e > s => Some(e),
                        _ => None,
                    },
                ),
            ),
            _ => None,
        }),
{
    match start {
        Some(s) => {
            if s < 0 {
                return None;
            }
            match end {
                Some(e) => {
                    if e > s {
                        Some((s, Some(e)))
                    } else {
                        Some((s, None))
                    }
                },
                None => Some((s, None)),
            }
        },
        None => None,
    }
}

/// A file that is worth keeping, by its measured length.
pub open spec fn worth_keeping(observed: Option<i64>) -> bool {
    observed is Some && observed->0 >= TAPE_MIN_SECS * 1_000_000
}

/// Whether a file that was cut again is worth keeping, by its measured length.
pub fn is_usable(observed: Option<i64>) -> (r: bool)
    ensures
        r == worth_keeping(observed),
        r == (observed is Some && observed->0 >= TAPE_MIN_SECS * 1_000_000),
{
    match observed {
        Some(n) => n >= TAPE_MIN_SECS * 1_000_000,
        None => false,
    }
}

/// Only the previous title can be cut at both ends, and only the live one at its start; what
/// is planned from the stamps never has an end without a start.
pub proof fn cuts_follow_the_stamps(subject: MarkSubject, stamps: CutStamps)
    ensures
        cut_of(subject, stamps) matches Some(p) ==> {
            &&& p.cut is IcyEdge <==> subject is Previous && p.end_pos is Some
            &&& p.cut is IcyOpen <==> subject is Icy && p.start_pos is Some
            &&& p.cut is Window <==> p.start_pos is None
            &&& p.end_pos is Some ==> p.start_pos is Some && p.start_pos->0 < p.end_pos->0
        },
        cut_of(subject, stamps) is None <==> subject is Song || subject is Nothing
            || subject is NoPrevious,
{
}

/// The range a window lies in is the first of the cache with two readable ends around the
/// position, and there is none exactly where no range has.
pub proof fn windows_use_the_first_range_around(
    ranges: Seq<(Option<i64>, Option<i64>)>,
    pos: i64,
)
    ensures
        range_at(ranges, pos) is None <==> forall|k: int|
            0 <= k < ranges.len() && (#[trigger] ranges[k]).0 is Some && ranges[k].1 is Some
                ==> pos < ranges[k].0->0 || ranges[k].1->0 < pos,
        range_at(ranges, pos) matches Some(r) ==> r.0 <= pos <= r.1 && exists|k: int|
            0 <= k < ranges.len() && #[trigger] ranges[k] == (Some(r.0), Some(r.1)) && forall|j: int|
                0 <= j < k && (#[trigger] ranges[j]).0 is Some && ranges[j].1 is Some ==> pos
                    < ranges[j].0->0 || ranges[j].1->0 < pos,
    decreases ranges.len(),
{
    if ranges.len() > 0 {
        let rest = ranges.drop_first();
        windows_use_the_first_range_around(rest, pos);
        assert(forall|k: int| 0 <= k < rest.len() ==> rest[k] == #[trigger] ranges[k + 1]);
        if holds(ranges[0], pos) {
            assert(ranges[0] == (Some(ranges[0].0->0), Some(ranges[0].1->0)));
        } else {
            assert forall|k: int|
                range_at(ranges, pos) is None && 0 <= k < ranges.len() && (#[trigger] ranges[k]).0
                    is Some && ranges[k].1 is Some implies pos < ranges[k].0->0 || ranges[k].1->0
                < pos by {
                if k > 0 {
                    assert(rest[k - 1] == ranges[k]);
                }
            }
            if range_at(rest, pos) is Some {
                let r = range_at(rest, pos)->0;
                let k = choose|k: int|
                    0 <= k < rest.len() && #[trigger] rest[k] == (Some(r.0), Some(r.1)) && forall|
                        j: int,
                    |
                        0 <= j < k && (#[trigger] rest[j]).0 is Some && rest[j].1 is Some ==> pos
                            < rest[j].0->0 || rest[j].1->0 < pos;
                assert(ranges[k + 1] == (Some(r.0), Some(r.1)));
                assert forall|j: int|
                    0 <= j < k + 1 && (#[trigger] ranges[j]).0 is Some && ranges[j].1
                        is Some implies pos < ranges[j].0->0 || ranges[j].1->0 < pos by {
                    if j > 0 {
                        assert(rest[j - 1] == ranges[j]);
                    }
                }
            } else {
                assert forall|k: int|
                    0 <= k < rest.len() && (#[trigger] rest[k]).0 is Some && rest[k].1
                        is Some implies pos < rest[k].0->0 || rest[k].1->0 < pos by {}
            }
        }
    }
}

/// A planned window is as wide as the ask and the cache allow. It ends where the ask ends or
/// the cache does, whichever comes first. It begins where the ask begins or the cache does,
/// whichever comes later, and only where that would be too long does it begin the longest span
/// before its end. An ask that is not positive, or no number, asks for nothing, and such a cap
/// caps nothing.
pub proof fn windows_are_as_wide_as_they_may_be(
    pos: i64,
    back: Option<i64>,
    fwd: Option<i64>,
    ranges: Seq<(Option<i64>, Option<i64>)>,
    max: Option<i64>,
    min: Option<i64>,
)
    requires
        planned(Some(pos), back, fwd, ranges, max, min) is Ok,
    ensures
        ({
            let w = planned(Some(pos), back, fwd, ranges, max, min)->Ok_0;
            let (lo, hi) = range_at(ranges, pos)->0;
            let before = if back is Some && back->0 >= 0 {
                back->0 as int
            } else {
                0
            };
            let after = if fwd is Some && fwd->0 >= 0 {
                fwd->0 as int
            } else {
                0
            };
            let capping = max is Some && max->0 > 0;
            &&& w.1 <= pos + after && w.1 <= hi
            &&& w.1 == pos + after || w.1 == hi
            &&& w.0 >= pos - before && w.0 >= lo
            &&& w.0 == pos - before || w.0 == lo || (capping && w.0 == w.1 - max->0)
            &&& capping ==> w.1 - w.0 <= max->0
            &&& !capping || w.1 - w.0 < max->0 ==> w.0 == pos - before || w.0 == lo
            &&& w.0 > pos - before && w.0 > lo ==> capping && w.1 - w.0 == max->0
            &&& min is Some ==> w.1 - w.0 >= min->0
        }),
{
    found_ranges_hold(ranges, pos);
}

/// A window is refused only where there is no position, or where what the ask and the cache have
/// in common is shorter than is worth keeping, and then it is said how much there is.
pub proof fn windows_are_refused_for_cause(
    pos: Option<i64>,
    back: Option<i64>,
    fwd: Option<i64>,
    ranges: Seq<(Option<i64>, Option<i64>)>,
    max: Option<i64>,
    min: Option<i64>,
)
    ensures
        planned(pos, back, fwd, ranges, max, min) == Err::<(i64, i64), WindowError>(
            WindowError::NoPosition,
        ) <==> pos is None,
        pos is Some && range_at(ranges, pos->0) is None ==> planned(
            pos,
            back,
            fwd,
            ranges,
            max,
            min,
        ) == Err::<(i64, i64), WindowError>(WindowError::TooThin { available: 0 }),
        pos is Some && range_at(ranges, pos->0) is Some && (min is None || min->0 <= 0) ==> planned(
            pos,
            back,
            fwd,
            ranges,
            max,
            min,
        ) is Ok,
        planned(pos, back, fwd, ranges, max, min) is Err && pos is Some && range_at(
            ranges,
            pos->0,
        ) is Some ==> ({
            let w = planned(pos, back, fwd, ranges, max, None);
            &&& w is Ok
            &&& min is Some
            &&& w->Ok_0.1 - w->Ok_0.0 < min->0
            &&& planned(pos, back, fwd, ranges, max, min) == Err::<(i64, i64), WindowError>(
                WindowError::TooThin { available: (w->Ok_0.1 - w->Ok_0.0) as i64 },
            )
        }),
        planned(pos, back, fwd, ranges, max, min) is Ok ==> planned(pos, back, fwd, ranges, max, min)
            == planned(pos, back, fwd, ranges, max, None),
{
    if pos is Some {
        found_ranges_hold(ranges, pos->0);
    }
}

/// A cut keeps the stamps it was planned from: both ends of the title before, where they are in
/// order, and the start of the live one. Of anything else a window is kept.
pub proof fn cuts_keep_their_stamps(stamps: CutStamps, subject: MarkSubject)
    ensures
        cut_of(MarkSubject::Icy, stamps)->0.start_pos == stamps.icy_start_pos,
        cut_of(MarkSubject::Icy, stamps)->0.end_pos is None,
        stamps.prev_start_pos is Some && stamps.prev_end_pos is Some && stamps.prev_start_pos->0
            < stamps.prev_end_pos->0 ==> cut_of(MarkSubject::Previous, stamps)->0.start_pos
            == stamps.prev_start_pos && cut_of(MarkSubject::Previous, stamps)->0.end_pos
            == stamps.prev_end_pos,
        stamps.prev_start_pos is None || stamps.prev_end_pos is None || stamps.prev_start_pos->0
            >= stamps.prev_end_pos->0 ==> cut_of(MarkSubject::Previous, stamps)->0.cut is Window,
        subject is Ambiguous || subject is Show || subject is FreshMatch || subject is Moment
            ==> cut_of(subject, stamps) is Some && cut_of(subject, stamps)->0.cut is Window,
{
}

/// Where a dump holds the boundaries that were planned, give or take the slack, the file is cut
/// there, as far from its own start as they lie from the dump's. Where it does not, the file
/// stays whole and claims nothing.
pub proof fn local_cuts_are_where_the_stamps_are(plan: CutPlan, from: i64, to: i64)
    requires
        // Spans that 64 bits hold.
        to - from + CONTAINMENT_SLACK <= i64::MAX,
    ensures
        ({
            let r = local_of(plan, Some(from), Some(to));
            let s = plan.start_pos->0;
            let held = plan.start_pos is Some && from < to && s >= from - CONTAINMENT_SLACK && s
                <= to && (plan.end_pos is None || (plan.end_pos->0 > s && plan.end_pos->0 <= to
                + CONTAINMENT_SLACK));
            &&& held ==> r.cut == plan.cut && r.start is Some && (r.truncated_at_press
                <==> plan.cut is IcyOpen) && (r.end is Some <==> plan.end_pos is Some)
            &&& held && s >= from ==> r.start->0 == s - from
            &&& held && s < from ==> r.start->0 == 0
            &&& held && plan.end_pos is Some && plan.end_pos->0 >= from ==> r.end->0
                == plan.end_pos->0 - from
            &&& held && plan.end_pos is Some && plan.end_pos->0 < from ==> r.end->0 == 0
            &&& !held ==> r.cut is Window && r.start is None && r.end is None
                && !r.truncated_at_press
        }),
        local_of(plan, None, Some(to)) == local_of(plan, Some(from), None),
        local_of(plan, None, Some(to)).cut is Window && local_of(plan, None, Some(to)).start
            is None,
{
}

/// Seconds are rounded to the nearest, and a tie to the even one.
pub proof fn seconds_round_to_the_nearest(micros: int)
    requires
        0 <= micros,
    ensures
        ({
            let n = nearest_even(micros);
            &&& -500_000 <= micros - n * 1_000_000 <= 500_000
            &&& micros - n * 1_000_000 == 500_000 || micros - n * 1_000_000 == -500_000 ==> n % 2
                == 0
        }),
{
}

/// A track is named only of a cut whose start is a stamped title change, and of every such cut
/// once track names are earned.
pub proof fn names_follow_the_cut(cut: Cut)
    ensures
        cut.names_a_track(true) <==> cut == Cut::IcyEdge || cut == Cut::IcyOpen,
        !cut.names_a_track(false),
        !TRACK_SHAPE_PROVEN,
{
}

/// A dump is another entry's exactly where both entries are known and differ, whichever of the
/// two is the later.
pub proof fn dumps_are_anothers_for_cause(a: u64, b: u64, any: Option<u64>)
    ensures
        put_down_to(Some(a), Some(b)) <==> a == b,
        put_down_to(None, any),
        put_down_to(any, None),
{
}

/// A file is cut again from its start on, wherever that lies inside it, and up to its end
/// wherever that lies after the start. Without a start inside it, it is not cut.
pub proof fn files_are_cut_where_they_can_be(start: i64, end: i64, any: Option<i64>)
    ensures
        start >= 0 && end > start ==> recut_of(Some(start), Some(end)) == Some((start, Some(end))),
        start >= 0 && end <= start ==> recut_of(Some(start), Some(end)) == Some(
            (start, None::<i64>),
        ),
        start >= 0 ==> recut_of(Some(start), None) == Some((start, None::<i64>)),
        start < 0 ==> recut_of(Some(start), any) is None,
        recut_of(None, any) is None,
{
}

/// A file is worth keeping from a length on, and that is twelve seconds.
pub proof fn long_files_are_kept(micros: i64)
    ensures
        worth_keeping(Some(micros)) <==> micros >= 12_000_000,
        !worth_keeping(None),
{
}

} // verus!
