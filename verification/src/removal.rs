//! Removing an entry: its sidecar first, which takes the commit back, and then its audio.
use crate::model::SongId;
use crate::names::{is_key_char, storable};
use crate::paths::{dot, dotted, join, joined};
use crate::scan::STORE_MARKER_NAME;
use crate::text::has_prefix;
use vstd::prelude::*;

verus! {

/// The audio that is left to remove once a sidecar is gone.
#[derive(Debug)]
pub enum AudioRemoval {
    /// This file.
    File(String),
    /// Every file of the directory whose name starts so.
    Prefixed(String),
}

/// What came of an unlink.
#[derive(Clone, Copy, Debug, PartialEq, Eq, Structural)]
pub enum Unlink {
    Removed,
    Absent,
    Refused,
}

/// One name of a directory.
#[derive(Debug)]
pub struct Listed {
    pub name: String,
    /// It names a directory.
    pub dir: bool,
}

/// What an entry's audio is removed by: the file under its suffix, or where that is not known
/// every file that the id's name starts.
pub open spec fn removes(
    r: AudioRemoval,
    root: Seq<char>,
    id: Seq<char>,
    suffix: Option<Seq<char>>,
) -> bool {
    match suffix {
        Some(s) => r is File && r->File_0@ == joined(root, dotted(id, s)),
        None => r is Prefixed && r->Prefixed_0@ == id.push('.'),
    }
}

/// Says which audio goes with an entry.
pub fn remove_audio(root: &str, id: &SongId, suffix: Option<&str>) -> (r: AudioRemoval)
    ensures
        removes(
            r,
            root@,
            id@,
            match suffix {
                Some(s) => Some(s@),
                None => None,
            },
        ),
{
    match suffix {
        Some(s) => {
            let name: String = dot(id.0.as_str(), s);
            AudioRemoval::File(join(root, name.as_str()))
        },
        None => {
            let mut prefix: String = id.0.clone();
            prefix.push('.');
            AudioRemoval::Prefixed(prefix)
        },
    }
}

/// Whether the bytes are gone after an unlink: removed now, or not there to begin with.
pub fn is_gone(outcome: Unlink) -> (r: bool)
    ensures
        r == none_refused(seq![outcome]),
        r == !(outcome is Refused),
{
    assert(seq![outcome][0] == outcome);
    match outcome {
        Unlink::Refused => false,
        _ => true,
    }
}

/// Whether nothing was refused.
pub open spec fn none_refused(outcomes: Seq<Unlink>) -> bool {
    forall|k: int| 0 <= k < outcomes.len() ==> !((#[trigger] outcomes[k]) is Refused)
}

/// Whether the bytes are gone after several unlinks: only where none was refused.
pub fn all_gone(outcomes: &Vec<Unlink>) -> (r: bool)
    ensures
        r == none_refused(outcomes@),
{
    for k in 0..outcomes.len()
        invariant
            forall|j: int| 0 <= j < k ==> !((#[trigger] outcomes@[j]) is Refused),
    {
        if !is_gone(outcomes[k]) {
            assert(outcomes@[k as int] is Refused);
            return false;
        }
    }
    true
}

/// A name of a directory that a prefix condemns: one that starts with it and is no directory.
pub open spec fn condemned(l: Listed, prefix: Seq<char>) -> bool {
    prefix.is_prefix_of(l.name@) && !l.dir
}

/// The condemned among the first `n` names.
pub open spec fn condemned_places(listing: Seq<Listed>, prefix: Seq<char>, n: int) -> Seq<usize>
    decreases n,
{
    if n <= 0 {
        Seq::empty()
    } else if condemned(listing[n - 1], prefix) {
        condemned_places(listing, prefix, n - 1).push((n - 1) as usize)
    } else {
        condemned_places(listing, prefix, n - 1)
    }
}

/// Which names of a directory go, by their positions.
pub fn leftovers(listing: &Vec<Listed>, prefix: &str) -> (r: Vec<usize>)
    ensures
        r@ == condemned_places(listing@, prefix@, listing@.len() as int),
{
    let mut out: Vec<usize> = Vec::new();
    for k in 0..listing.len()
        invariant
            out@ == condemned_places(listing@, prefix@, k as int),
    {
        if has_prefix(listing[k].name.as_str(), prefix) && !listing[k].dir {
            out.push(k);
        }
    }
    out
}

/// What an id leaves behind is its own: no file of another key, no sidecar of another, and never
/// the marker of the directory, starts as its files do.
pub proof fn leftovers_are_the_entrys_own(id: Seq<char>, other: Seq<char>, ext: Seq<char>)
    requires
        storable(id),
        storable(other),
        id != other,
    ensures
        !id.push('.').is_prefix_of(dotted(other, ext)),
        !id.push('.').is_prefix_of(STORE_MARKER_NAME@),
{
    let p = id.push('.');
    let name = dotted(other, ext);
    if p.is_prefix_of(name) {
        let n = id.len() as int;
        assert(name.subrange(0, p.len() as int)[n] == name[n]);
        assert(name[n] == '.');
        if n < other.len() {
            assert(is_key_char(other[n]));
        } else if n > other.len() {
            let m = other.len() as int;
            assert(name.subrange(0, p.len() as int)[m] == name[m]);
            assert(name[m] == '.' && p[m] == id[m]);
            assert(is_key_char(id[m]));
        } else {
            assert forall|k: int| 0 <= k < n implies id[k] == other[k] by {
                assert(name.subrange(0, p.len() as int)[k] == name[k]);
            }
            assert(id =~= other);
        }
    }
    if p.is_prefix_of(STORE_MARKER_NAME@) {
        reveal_strlit(".hypodj-store");
        assert(STORE_MARKER_NAME@.subrange(0, p.len() as int)[0] == STORE_MARKER_NAME@[0]);
        assert(p[0] == id[0]);
        assert(is_key_char(id[0]));
    }
}

/// What goes of a directory is every name that starts as told and is no directory, and nothing
/// else. Where the suffix is known only that one file goes.
pub proof fn leftovers_are_what_starts_so(
    listing: Seq<Listed>,
    prefix: Seq<char>,
    n: int,
    i: int,
)
    requires
        0 <= i < n <= listing.len() <= usize::MAX,
    ensures
        condemned_places(listing, prefix, n).contains(i as usize) <==> !listing[i].dir
            && listing[i].name@.len() >= prefix.len() && forall|k: int|
            0 <= k < prefix.len() ==> listing[i].name@[k] == prefix[k],
    decreases n,
{
    let was = condemned_places(listing, prefix, n - 1);
    let now = condemned_places(listing, prefix, n);
    let name = listing[n - 1].name@;
    if prefix.is_prefix_of(name) {
        assert forall|k: int| 0 <= k < prefix.len() implies name[k] == prefix[k] by {
            assert(name.subrange(0, prefix.len() as int)[k] == prefix[k]);
        }
    } else if name.len() >= prefix.len() && forall|k: int|
        0 <= k < prefix.len() ==> name[k] == prefix[k] {
        assert(name.subrange(0, prefix.len() as int) =~= prefix);
    }
    places_stay_below(listing, prefix, n - 1);
    if i < n - 1 {
        leftovers_are_what_starts_so(listing, prefix, n - 1, i);
        if was.contains(i as usize) {
            let k = choose|k: int| 0 <= k < was.len() && was[k] == i as usize;
            assert(now[k] == i as usize);
        }
        if now.contains(i as usize) {
            let k = choose|k: int| 0 <= k < now.len() && now[k] == i as usize;
            assert(k < was.len());
            assert(was[k] == i as usize);
        }
    } else {
        if condemned(listing[i], prefix) {
            assert(now[was.len() as int] == i as usize);
        }
        if now.contains(i as usize) && !condemned(listing[i], prefix) {
            let k = choose|k: int| 0 <= k < now.len() && now[k] == i as usize;
            assert(was[k] < n - 1);
        }
    }
}

proof fn places_stay_below(listing: Seq<Listed>, prefix: Seq<char>, n: int)
    requires
        n <= listing.len() <= usize::MAX,
    ensures
        forall|k: int|
            0 <= k < condemned_places(listing, prefix, n).len() ==> (#[trigger] condemned_places(
                listing,
                prefix,
                n,
            )[k]) < n,
    decreases n,
{
    if n > 0 {
        places_stay_below(listing, prefix, n - 1);
        let was = condemned_places(listing, prefix, n - 1);
        let now = condemned_places(listing, prefix, n);
        assert forall|k: int| 0 <= k < now.len() implies (#[trigger] now[k]) < n by {
            if k < was.len() {
                assert(now[k] == was[k]);
            }
        }
    }
}

/// The audio of an entry goes by its own file where its suffix is known, and by its name
/// otherwise.
pub proof fn audio_goes_by_its_name(
    r: AudioRemoval,
    root: Seq<char>,
    id: Seq<char>,
    suffix: Option<Seq<char>>,
)
    requires
        removes(r, root, id, suffix),
    ensures
        suffix matches Some(s) ==> r is File && r->File_0@ == joined(root, id + seq!['.'] + s),
        suffix is None ==> r is Prefixed && r->Prefixed_0@ == id + seq!['.'],
{
    if suffix is Some {
        assert(dotted(id, suffix->0) =~= id + seq!['.'] + suffix->0);
    } else {
        assert(id.push('.') =~= id + seq!['.']);
    }
}

/// Bytes are gone where every unlink either removed a file or found none, and one refusal among
/// any number is enough for them not to be.
pub proof fn one_refusal_keeps_the_bytes(outcomes: Seq<Unlink>, next: Unlink)
    ensures
        none_refused(Seq::empty()),
        none_refused(outcomes.push(next)) <==> none_refused(outcomes) && (next == Unlink::Removed
            || next == Unlink::Absent),
{
    let all = outcomes.push(next);
    if none_refused(outcomes) && !(next is Refused) {
        assert forall|k: int| 0 <= k < all.len() implies !((#[trigger] all[k]) is Refused) by {
            if k < outcomes.len() {
                assert(all[k] == outcomes[k]);
            }
        }
    }
    if none_refused(all) {
        assert(all[outcomes.len() as int] == next);
        assert forall|k: int| 0 <= k < outcomes.len() implies !(
        (#[trigger] outcomes[k]) is Refused) by {
            assert(all[k] == outcomes[k]);
        }
    }
}

} // verus!
