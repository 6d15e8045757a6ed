//! What a verdict on a cached song means, and what follows from it.
use crate::entries::IndexEntry;
use crate::model::Song;
use crate::names::sanitized;
use crate::plan::{marks_on, verdict, StoreAction, Verdict};
use crate::time::{instant, same_moment};
use vstd::prelude::*;

verus! {

/// An entry is as it was only where everything that could tell agrees: the reported size is the
/// entry's to the byte, the suffix is the one it is stored under, and the two dates, where there
/// are two, are of one moment. A difference in any of them, up or down, is a change.
pub proof fn verdicts_take_everything_into_account(e: IndexEntry, s: Song)
    ensures
        verdict(e, s) == Verdict::Unknown <==> s.size is None || s.suffix is None,
        s.size is Some && s.suffix is Some && s.size->0 < e.size ==> verdict(e, s)
            == Verdict::Differ,
        s.size is Some && s.suffix is Some && s.size->0 > e.size ==> verdict(e, s)
            == Verdict::Differ,
        s.size is Some && s.suffix is Some && sanitized(Some(s.suffix->0@)) != e.suffix@ ==> verdict(
            e,
            s,
        ) == Verdict::Differ,
        s.size is Some && s.suffix is Some && e.created is Some && s.created is Some
            && !same_moment(e.created->0@, s.created->0@) ==> verdict(e, s) == Verdict::Differ,
        verdict(e, s) == Verdict::Differ ==> s.size->0 != e.size || sanitized(Some(s.suffix->0@))
            != e.suffix@ || (e.created is Some && s.created is Some && !same_moment(
            e.created->0@,
            s.created->0@,
        )),
        verdict(e, s) == Verdict::Equal ==> s.size == Some(e.size),
{
}

/// The comparison of two dates is one of moments where both can be read, and of texts where
/// either cannot.
pub proof fn dates_are_compared_as_moments(a: Seq<char>, b: Seq<char>)
    ensures
        instant(a) is Some && instant(b) is Some ==> (same_moment(a, b) <==> instant(a)
            == instant(b)),
        instant(a) is None || instant(b) is None ==> (same_moment(a, b) <==> a == b),
{
}

/// A verdict is of the file alone: what else the server reports of a song, and what else is
/// known of an entry, do not count.
pub proof fn verdicts_are_of_the_file(e: IndexEntry, f: IndexEntry, s: Song, t: Song)
    requires
        e.size == f.size,
        e.suffix@ == f.suffix@,
        e.created == f.created,
        s.size == t.size,
        s.suffix == t.suffix,
        s.created == t.created,
    ensures
        verdict(e, s) == verdict(f, t),
{
}

/// The marks on an entry bring its flags in line: stale where its original changed, not stale
/// where it is confirmed, as it was where nothing is known, and pinned. No flag is set to what
/// it is.
pub proof fn marks_bring_flags_in_line(e: IndexEntry, s: Song, k: int)
    ensures
        marks_on(e, s).contains(StoreAction::SetStale { id: e.id, stale: true }) <==> verdict(e, s)
            == Verdict::Differ && !e.stale,
        marks_on(e, s).contains(StoreAction::SetStale { id: e.id, stale: false }) <==> verdict(e, s)
            == Verdict::Equal && e.stale,
        marks_on(e, s).contains(StoreAction::SetPinned { id: e.id, pinned: true }) <==> !e.pinned,
        0 <= k < marks_on(e, s).len() ==> (marks_on(e, s)[k] matches StoreAction::SetStale {
            id,
            stale,
        } && id == e.id && stale == !e.stale) || marks_on(e, s)[k] == (StoreAction::SetPinned {
            id: e.id,
            pinned: true,
        }),
        marks_on(e, s).len() <= 2,
{
    let m = marks_on(e, s);
    if !e.pinned {
        assert(m[m.len() - 1] == StoreAction::SetPinned { id: e.id, pinned: true });
    }
    if verdict(e, s) == Verdict::Differ && !e.stale {
        assert(m[0] == StoreAction::SetStale { id: e.id, stale: true });
    }
    if verdict(e, s) == Verdict::Equal && e.stale {
        assert(m[0] == StoreAction::SetStale { id: e.id, stale: false });
    }
}

} // verus!
