//! The directory scan: which of the files in the store are valid pairs, and which must go.
use crate::entries::{DeleteReason, IndexEntry};
use crate::model::SongId;
use crate::names::{is_storable_id, is_tmp_name, storable, tmp_name};
use crate::paths::{dot, dotted, join, joined};
use crate::sidecar::{is_sound, sound_sidecar, Sidecar};
use crate::sorting::{sort_positions, sorting_keeps_elements};
use crate::text::{
    before, before_is_irreflexive, before_is_total, before_is_transitive, chars_of, comes_before,
    copy_opt, same, string_of,
};
use vstd::prelude::*;
use vstd::relations::total_ordering;

verus! {

/// The ownership marker: its presence says that the directory is the store's to converge.
pub const STORE_MARKER_NAME: &'static str = ".hypodj-store";

/// What one read of the store directory says.
#[derive(Debug, PartialEq)]
pub struct DirScan {
    /// The valid entries, by id.
    pub entries: Vec<IndexEntry>,
    /// Files that no valid sidecar names.
    pub orphan_audio: Vec<String>,
    /// Sidecars that must go, with the reason.
    pub orphan_sidecars: Vec<(SongId, DeleteReason)>,
    /// In-flight temporaries of a dead process.
    pub stale_tmps: Vec<String>,
}

impl Default for DirScan {
    fn default() -> (r: Self)
        ensures
            r.entries@.len() == 0,
            r.orphan_audio@.len() == 0,
            r.orphan_sidecars@.len() == 0,
            r.stale_tmps@.len() == 0,
    {
        DirScan {
            entries: Vec::new(),
            orphan_audio: Vec::new(),
            orphan_sidecars: Vec::new(),
            stale_tmps: Vec::new(),
        }
    }
}

/// What was found where an audio file should be.
#[derive(Clone, Copy, Debug, PartialEq, Eq, Structural)]
pub enum AudioFile {
    /// Nothing that could be looked at.
    Missing,
    /// Something, but no plain file.
    Other,
    /// A plain file of this length.
    Plain(u64),
}

/// What was found of one sidecar and of the audio file it names.
#[derive(Debug, PartialEq)]
pub struct SidecarRead {
    /// The sidecar as parsed; `None` where it could not be read or parsed.
    pub parsed: Option<Sidecar>,
    pub audio: AudioFile,
}

/// What proving ownership of a directory comes to.
#[derive(Clone, Copy, Debug, PartialEq, Eq, Structural)]
pub enum Ownership {
    /// The marker is there: proceed.
    Ours,
    /// The directory is empty: leave the marker and proceed.
    Adopt,
    /// Someone else's: touch nothing.
    Refuse,
}

/// Whose a directory is.
pub open spec fn owner_of(marked: bool, empty: bool) -> Ownership {
    match (marked, empty) {
        (true, _) => Ownership::Ours,
        (false, true) => Ownership::Adopt,
        (false, false) => Ownership::Refuse,
    }
}

/// Whether a directory is the store's to converge. Convergence deletes, so only a marked or an
/// empty directory is.
pub fn claim_ownership(marked: bool, empty: bool) -> (r: Ownership)
    ensures
        r == owner_of(marked, empty),
        r == (if marked {
            Ownership::Ours
        } else if empty {
            Ownership::Adopt
        } else {
            Ownership::Refuse
        }),
{
    if marked {
        Ownership::Ours
    } else if empty {
        Ownership::Adopt
    } else {
        Ownership::Refuse
    }
}

/// The id a sidecar's file name gives: a storable stem before `.toml`.
pub open spec fn sidecar_stem(name: Seq<char>) -> Option<Seq<char>> {
    let n = name.len() - 5;
    if n >= 0 && name.skip(n) == ".toml"@ && storable(name.take(n)) {
        Some(name.take(n))
    } else {
        None
    }
}

/// What a file of the store directory is, by its name alone.
pub enum NameKind {
    Marker,
    Temporary,
    Sidecar,
    Loose,
}

/// What a name says a file is.
pub open spec fn kind_of(name: Seq<char>) -> NameKind {
    if name == STORE_MARKER_NAME@ {
        NameKind::Marker
    } else if tmp_name(name) {
        NameKind::Temporary
    } else if sidecar_stem(name) is Some {
        NameKind::Sidecar
    } else {
        NameKind::Loose
    }
}

/// The order of text over positions of a list of names.
pub open spec fn name_order(names: Seq<String>) -> spec_fn(usize, usize) -> bool {
    |x: usize, y: usize|
        before(names[x as int]@, names[y as int]@) || (names[x as int]@ == names[y as int]@ && x
            <= y)
}

/// The names in order.
pub open spec fn names_in_order(names: Seq<String>) -> Seq<String> {
    let order = crate::frontier::places(names.len()).sort_by(name_order(names));
    Seq::new(order.len(), |k: int| names[order[k] as int])
}

/// The first `n` names of one kind.
pub open spec fn of_kind(names: Seq<String>, kind: NameKind, n: int) -> Seq<String>
    decreases n,
{
    if n <= 0 {
        Seq::empty()
    } else if kind_of(names[n - 1]@) == kind {
        of_kind(names, kind, n - 1).push(names[n - 1])
    } else {
        of_kind(names, kind, n - 1)
    }
}

/// Every name of one kind, in order.
pub open spec fn all_of_kind(names: Seq<String>, kind: NameKind) -> Seq<String> {
    let sorted = names_in_order(names);
    of_kind(sorted, kind, sorted.len() as int)
}

/// The ids of the sidecars of a directory, in the order of their file names.
pub open spec fn sidecar_stems(names: Seq<String>) -> Seq<Seq<char>> {
    let s = all_of_kind(names, NameKind::Sidecar);
    Seq::new(s.len(), |k: int| sidecar_stem(s[k]@)->0)
}

/// Whether a name's sidecar can be trusted to be that id's.
pub open spec fn speaks_for(parsed: Option<Sidecar>, id: Seq<char>) -> bool {
    parsed is Some && sound_sidecar(parsed->0) && parsed->0.song.id@ == id
}

/// Why an entry is not valid, or that it is.
pub open spec fn fault(read: SidecarRead, id: Seq<char>) -> Option<DeleteReason> {
    if !speaks_for(read.parsed, id) {
        Some(DeleteReason::CorruptSidecar)
    } else {
        match read.audio {
            AudioFile::Missing => Some(DeleteReason::MissingAudio),
            AudioFile::Other => Some(DeleteReason::LengthMismatch),
            AudioFile::Plain(len) => if len == read.parsed->0.fingerprint.size {
                None
            } else {
                Some(DeleteReason::LengthMismatch)
            },
        }
    }
}

/// The entry a valid sidecar makes: its committed truth, with nothing suspect or unwritten.
pub open spec fn entry_from(e: IndexEntry, s: Sidecar, id: Seq<char>) -> bool {
    &&& e.id@ == id
    &&& e.suffix == s.fingerprint.suffix
    &&& e.size == s.fingerprint.size
    &&& e.created == s.fingerprint.created
    &&& e.pinned == s.pinned
    &&& e.stale == s.stale
    &&& !e.suspect
    &&& e.last_played_unix == s.last_played_unix
    &&& !e.recency_dirty
}

/// Positions below `n` of the sidecars that are valid, or of those that are not.
pub open spec fn reads_where(
    stems: Seq<Seq<char>>,
    reads: Seq<SidecarRead>,
    valid: bool,
    n: int,
) -> Seq<usize>
    decreases n,
{
    if n <= 0 {
        Seq::empty()
    } else if (fault(reads[n - 1], stems[n - 1]) is None) == valid {
        reads_where(stems, reads, valid, n - 1).push((n - 1) as usize)
    } else {
        reads_where(stems, reads, valid, n - 1)
    }
}

/// The order of ids over positions of the sidecars.
pub open spec fn stem_order(stems: Seq<Seq<char>>) -> spec_fn(usize, usize) -> bool {
    |x: usize, y: usize|
        before(stems[x as int], stems[y as int]) || (stems[x as int] == stems[y as int] && x <= y)
}

/// Whether one of the first `n` sidecars is valid and accounts for a file.
pub open spec fn accounted(
    stems: Seq<Seq<char>>,
    reads: Seq<SidecarRead>,
    n: int,
    name: Seq<char>,
) -> bool {
    exists|k: int|
        0 <= k < n && fault(#[trigger] reads[k], stems[k]) is None && dotted(
            stems[k],
            reads[k].parsed->0.fingerprint.suffix@,
        ) == name
}

/// Whether a list holds a name.
pub open spec fn names_it(list: Seq<String>, name: Seq<char>) -> bool {
    exists|j: int| 0 <= j < list.len() && (#[trigger] list[j])@ == name
}

/// The loose names among the first `n` that nothing accounts for.
pub open spec fn orphans(
    loose: Seq<String>,
    stems: Seq<Seq<char>>,
    reads: Seq<SidecarRead>,
    n: int,
) -> Seq<String>
    decreases n,
{
    if n <= 0 {
        Seq::empty()
    } else if accounted(stems, reads, stems.len() as int, loose[n - 1]@) {
        orphans(loose, stems, reads, n - 1)
    } else {
        orphans(loose, stems, reads, n - 1).push(loose[n - 1])
    }
}

/// The same names, under a directory.
pub open spec fn under(paths: Seq<String>, root: Seq<char>, names: Seq<String>) -> bool {
    &&& paths.len() == names.len()
    &&& forall|k: int| 0 <= k < paths.len() ==> (#[trigger] paths[k])@ == joined(root, names[k]@)
}

/// What a scan must say of a directory with these files and these sidecars.
pub open spec fn scans(
    s: DirScan,
    root: Seq<char>,
    names: Seq<String>,
    reads: Seq<SidecarRead>,
) -> bool {
    let stems = sidecar_stems(names);
    let good = reads_where(stems, reads, true, stems.len() as int).sort_by(stem_order(stems));
    let bad = reads_where(stems, reads, false, stems.len() as int);
    let loose = all_of_kind(names, NameKind::Loose);
    &&& under(s.stale_tmps@, root, all_of_kind(names, NameKind::Temporary))
    &&& under(s.orphan_audio@, root, orphans(loose, stems, reads, loose.len() as int))
    &&& s.orphan_sidecars@.len() == bad.len()
    &&& forall|k: int|
        0 <= k < bad.len() ==> (#[trigger] s.orphan_sidecars@[k]).0@ == stems[bad[k] as int]
            && Some(s.orphan_sidecars@[k].1) == fault(reads[bad[k] as int], stems[bad[k] as int])
    &&& s.entries@.len() == good.len()
    &&& forall|k: int|
        0 <= k < good.len() ==> entry_from(
            #[trigger] s.entries@[k],
            reads[good[k] as int].parsed->0,
            stems[good[k] as int],
        )
}

proof fn text_order_is_total(f: spec_fn(usize) -> Seq<char>)
    ensures
        total_ordering(
            |x: usize, y: usize| before(f(x), f(y)) || (f(x) == f(y) && x <= y),
        ),
{
    let r = |x: usize, y: usize| before(f(x), f(y)) || (f(x) == f(y) && x <= y);
    assert forall|x: usize, y: usize, z: usize| #[trigger] r(x, y) && #[trigger] r(y, z) implies r(
        x,
        z,
    ) by {
        if before(f(x), f(y)) && before(f(y), f(z)) {
            before_is_transitive(f(x), f(y), f(z));
        }
    }
    assert forall|x: usize, y: usize| #[trigger] r(x, y) && #[trigger] r(y, x) implies x == y by {
        before_is_total(f(x), f(y));
        before_is_irreflexive(f(x));
    }
    assert forall|x: usize, y: usize| #[trigger] r(x, y) || #[trigger] r(y, x) by {
        before_is_total(f(x), f(y));
    }
}

/// Names are put in order by a total order.
pub proof fn name_order_is_total(names: Seq<String>)
    ensures
        total_ordering(name_order(names)),
{
    let f = |x: usize| names[x as int]@;
    text_order_is_total(f);
    assert(name_order(names) =~= |x: usize, y: usize|
        before(f(x), f(y)) || (f(x) == f(y) && x <= y));
}

/// Ids are put in order by a total order.
pub proof fn stem_order_is_total(stems: Seq<Seq<char>>)
    ensures
        total_ordering(stem_order(stems)),
{
    let f = |x: usize| stems[x as int];
    text_order_is_total(f);
    assert(stem_order(stems) =~= |x: usize, y: usize|
        before(f(x), f(y)) || (f(x) == f(y) && x <= y));
}

/// The names in order.
fn sort_names(names: &Vec<String>) -> (r: Vec<String>)
    ensures
        r@ == names_in_order(names@),
{
    let n: usize = names.len();
    let mut start: Vec<usize> = Vec::new();
    for i in 0..n
        invariant
            start@ =~= crate::frontier::places(i as nat),
    {
        start.push(i);
    }
    let ghost leq = name_order(names@);
    let goes_first = |x: usize, y: usize| -> (b: bool)
        requires
            x < names@.len(),
            y < names@.len(),
        ensures
            b == leq(x, y),
        {
            comes_before(names[x].as_str(), names[y].as_str()) || (names[x] == names[y] && x <= y)
        };
    proof {
        name_order_is_total(names@);
        sorting_keeps_elements(start@, leq);
    }
    let order: Vec<usize> = sort_positions(&start, goes_first, Ghost(leq));
    let mut out: Vec<String> = Vec::new();
    for k in 0..order.len()
        invariant
            n == names@.len(),
            start@ =~= crate::frontier::places(n as nat),
            forall|x: usize| order@.contains(x) <==> start@.contains(x),
            out@ =~= Seq::new(k as nat, |j: int| names@[order@[j] as int]),
    {
        assert(order@.contains(order@[k as int]));
        assert(start@.contains(order@[k as int]));
        out.push(names[order[k]].clone());
    }
    out
}

/// The id a sidecar's file name gives.
fn stem_of(name: &str) -> (r: Option<String>)
    ensures
        r is Some <==> sidecar_stem(name@) is Some,
        r is Some ==> r->0@ == sidecar_stem(name@)->0,
{
    proof {
        reveal_strlit(".toml");
    }
    let cs: Vec<char> = chars_of(name);
    if cs.len() < 5 {
        return None;
    }
    let n: usize = cs.len() - 5;
    if !(cs[n] == '.' && cs[n + 1] == 't' && cs[n + 2] == 'o' && cs[n + 3] == 'm' && cs[n + 4]
        == 'l') {
        assert(name@.skip(n as int) != ".toml"@) by {
            let t = name@.skip(n as int);
            if t == ".toml"@ {
                assert(t[0] == '.' && t[1] == 't' && t[2] == 'o' && t[3] == 'm' && t[4] == 'l');
            }
        }
        return None;
    }
    assert(name@.skip(n as int) =~= ".toml"@);
    let mut head: Vec<char> = Vec::new();
    for i in 0..n
        invariant
            n <= cs@.len(),
            head@ =~= cs@.take(i as int),
    {
        head.push(cs[i]);
    }
    let stem: String = string_of(head.as_slice());
    if is_storable_id(stem.as_str()) {
        Some(stem)
    } else {
        None
    }
}

/// What a name says a file is.
fn classify(name: &str) -> (r: NameKind)
    ensures
        r == kind_of(name@),
{
    if same(name, STORE_MARKER_NAME) {
        NameKind::Marker
    } else if is_tmp_name(name) {
        NameKind::Temporary
    } else if stem_of(name).is_some() {
        NameKind::Sidecar
    } else {
        NameKind::Loose
    }
}

/// Every name of one kind, in order.
fn pick_kind(sorted: &Vec<String>, kind: NameKind) -> (r: Vec<String>)
    ensures
        r@ == of_kind(sorted@, kind, sorted@.len() as int),
{
    let mut out: Vec<String> = Vec::new();
    for i in 0..sorted.len()
        invariant
            out@ == of_kind(sorted@, kind, i as int),
    {
        let hit: bool = match (classify(sorted[i].as_str()), &kind) {
            (NameKind::Marker, NameKind::Marker) => true,
            (NameKind::Temporary, NameKind::Temporary) => true,
            (NameKind::Sidecar, NameKind::Sidecar) => true,
            (NameKind::Loose, NameKind::Loose) => true,
            _ => false,
        };
        if hit {
            out.push(sorted[i].clone());
        }
    }
    out
}

/// The ids of the sidecars among these file names, in the order in which their contents are
/// to be read.
pub fn sidecar_ids(names: &Vec<String>) -> (r: Vec<SongId>)
    ensures
        r@.len() == sidecar_stems(names@).len(),
        forall|k: int| 0 <= k < r@.len() ==> (#[trigger] r@[k])@ == sidecar_stems(names@)[k],
{
    let sorted: Vec<String> = sort_names(names);
    let found: Vec<String> = pick_kind(&sorted, NameKind::Sidecar);
    proof {
        kinds_are_kinds(sorted@, NameKind::Sidecar, sorted@.len() as int);
    }
    let mut out: Vec<SongId> = Vec::new();
    for k in 0..found.len()
        invariant
            found@ == all_of_kind(names@, NameKind::Sidecar),
            forall|j: int|
                0 <= j < found@.len() ==> kind_of((#[trigger] found@[j])@) is Sidecar,
            out@.len() == k,
            forall|j: int| 0 <= j < k ==> (#[trigger] out@[j])@ == sidecar_stems(names@)[j],
    {
        assert(kind_of(found@[k as int]@) is Sidecar);
        match stem_of(found[k].as_str()) {
            Some(stem) => {
                out.push(SongId(stem));
            },
            None => {
                assert(false);
            },
        }
    }
    out
}

/// Every name of a kind is of that kind, and one of the names.
pub proof fn kinds_are_kinds(names: Seq<String>, kind: NameKind, n: int)
    requires
        0 <= n <= names.len(),
    ensures
        forall|k: int|
            0 <= k < of_kind(names, kind, n).len() ==> kind_of(
                (#[trigger] of_kind(names, kind, n)[k])@,
            ) == kind,
    decreases n,
{
    if n > 0 {
        kinds_are_kinds(names, kind, n - 1);
    }
}

/// The audio file that a sidecar of this id vouches for, if it can be trusted to be its own.
pub fn audio_name(id: &SongId, parsed: &Option<Sidecar>) -> (r: Option<String>)
    ensures
        r is Some <==> speaks_for(*parsed, id@),
        r is Some ==> r->0@ == dotted(id@, parsed->0.fingerprint.suffix@),
{
    match parsed {
        Some(s) => {
            if is_sound(s) && s.song.id.0 == id.0 {
                Some(dot(id.0.as_str(), s.fingerprint.suffix.as_str()))
            } else {
                None
            }
        },
        None => None,
    }
}

/// Why an entry is not valid, or that it is.
fn fault_of(read: &SidecarRead, id: &SongId) -> (r: Option<DeleteReason>)
    ensures
        r == fault(*read, id@),
{
    match &read.parsed {
        Some(s) => {
            if !(is_sound(s) && s.song.id.0 == id.0) {
                return Some(DeleteReason::CorruptSidecar);
            }
            match read.audio {
                AudioFile::Missing => Some(DeleteReason::MissingAudio),
                AudioFile::Other => Some(DeleteReason::LengthMismatch),
                AudioFile::Plain(len) => if len == s.fingerprint.size {
                    None
                } else {
                    Some(DeleteReason::LengthMismatch)
                },
            }
        },
        None => Some(DeleteReason::CorruptSidecar),
    }
}

/// The entry a valid sidecar makes.
fn entry_of(s: &Sidecar, id: &SongId) -> (r: IndexEntry)
    ensures
        entry_from(r, *s, id@),
{
    IndexEntry {
        id: id.clone(),
        suffix: s.fingerprint.suffix.clone(),
        size: s.fingerprint.size,
        created: copy_opt(&s.fingerprint.created),
        pinned: s.pinned,
        stale: s.stale,
        suspect: false,
        last_played_unix: s.last_played_unix,
        recency_dirty: false,
    }
}

/// Puts names under a directory.
fn join_all(root: &str, names: &Vec<String>) -> (r: Vec<String>)
    ensures
        under(r@, root@, names@),
{
    let mut out: Vec<String> = Vec::new();
    for k in 0..names.len()
        invariant
            out@.len() == k,
            forall|j: int| 0 <= j < k ==> (#[trigger] out@[j])@ == joined(root@, names@[j]@),
    {
        out.push(join(root, names[k].as_str()));
    }
    out
}

/// Classifies the store directory: from the names of its plain files, and from what was found
/// of each sidecar named by `sidecar_ids`, in that order. It deletes nothing.
pub fn scan_dir(root: &str, names: &Vec<String>, reads: &Vec<SidecarRead>) -> (r: DirScan)
    requires
        reads@.len() == sidecar_stems(names@).len(),
    ensures
        scans(r, root@, names@, reads@),
{
    let sorted: Vec<String> = sort_names(names);
    let tmps: Vec<String> = pick_kind(&sorted, NameKind::Temporary);
    let loose: Vec<String> = pick_kind(&sorted, NameKind::Loose);
    let ids: Vec<SongId> = sidecar_ids(names);
    let ghost stems = sidecar_stems(names@);
    let n: usize = ids.len();
    let mut good: Vec<usize> = Vec::new();
    let mut orphan_sidecars: Vec<(SongId, DeleteReason)> = Vec::new();
    let mut vouched: Vec<String> = Vec::new();
    let ghost mut bad: Seq<usize> = Seq::empty();
    for k in 0..n
        invariant
            n == stems.len(),
            ids@.len() == n,
            reads@.len() == n,
            forall|j: int| 0 <= j < n ==> (#[trigger] ids@[j])@ == stems[j],
            good@ == reads_where(stems, reads@, true, k as int),
            bad == reads_where(stems, reads@, false, k as int),
            forall|j: int| 0 <= j < good@.len() ==> (#[trigger] good@[j]) < k,
            forall|j: int|
                0 <= j < good@.len() ==> reads@[(#[trigger] good@[j]) as int].parsed is Some,
            orphan_sidecars@.len() == bad.len(),
            forall|j: int|
                0 <= j < bad.len() ==> (#[trigger] orphan_sidecars@[j]).0@ == stems[bad[j] as int]
                    && Some(orphan_sidecars@[j].1) == fault(
                    reads@[bad[j] as int],
                    stems[bad[j] as int],
                ),
            forall|name: Seq<char>|
                #[trigger] names_it(vouched@, name) == accounted(stems, reads@, k as int, name),
    {
        let ghost was = vouched@;
        let id: &SongId = &ids[k];
        let read: &SidecarRead = &reads[k];
        match fault_of(read, id) {
            None => {
                good.push(k);
                match audio_name(id, &read.parsed) {
                    Some(name) => {
                        vouched.push(name);
                    },
                    None => {
                        assert(false);
                    },
                }
            },
            Some(reason) => {
                orphan_sidecars.push((id.clone(), reason));
                proof {
                    bad = bad.push(k);
                }
            },
        }
        assert forall|name: Seq<char>|
            #[trigger] names_it(vouched@, name) == accounted(stems, reads@, k + 1, name) by {
            assert(names_it(was, name) == accounted(stems, reads@, k as int, name));
            vouching_grows(stems, reads@, k as int, was, vouched@, name);
        }
    }
    let mut left: Vec<String> = Vec::new();
    for k in 0..loose.len()
        invariant
            forall|name: Seq<char>|
                #[trigger] names_it(vouched@, name) == accounted(stems, reads@, stems.len() as int, name),
            left@ == orphans(loose@, stems, reads@, k as int),
    {
        let mut known: bool = false;
        for j in 0..vouched.len()
            invariant
                k < loose@.len(),
                known == exists|i: int|
                    0 <= i < j && (#[trigger] vouched@[i])@ == loose@[k as int]@,
        {
            if vouched[j] == loose[k] {
                known = true;
            }
        }
        assert(known == names_it(vouched@, loose@[k as int]@));
        if !known {
            left.push(loose[k].clone());
        }
    }
    let ghost leq = stem_order(stems);
    assert forall|x: usize, y: usize| x < n && y < n implies #[trigger] leq(x, y) == (before(
        ids@[x as int]@,
        ids@[y as int]@,
    ) || (ids@[x as int]@ == ids@[y as int]@ && x <= y)) by {}
    let goes_first = |x: usize, y: usize| -> (b: bool)
        requires
            x < n,
            y < n,
        ensures
            b == leq(x, y),
        {
            comes_before(ids[x].0.as_str(), ids[y].0.as_str()) || (ids[x].0 == ids[y].0 && x <= y)
        };
    proof {
        stem_order_is_total(stems);
        sorting_keeps_elements(good@, leq);
    }
    let order: Vec<usize> = sort_positions(&good, goes_first, Ghost(leq));
    let mut entries: Vec<IndexEntry> = Vec::new();
    for k in 0..order.len()
        invariant
            n == stems.len(),
            ids@.len() == n,
            reads@.len() == n,
            forall|j: int| 0 <= j < n ==> (#[trigger] ids@[j])@ == stems[j],
            forall|j: int| 0 <= j < good@.len() ==> (#[trigger] good@[j]) < n,
            forall|j: int|
                0 <= j < good@.len() ==> reads@[(#[trigger] good@[j]) as int].parsed is Some,
            forall|x: usize| order@.contains(x) <==> good@.contains(x),
            entries@.len() == k,
            forall|j: int|
                0 <= j < k ==> entry_from(
                    #[trigger] entries@[j],
                    reads@[order@[j] as int].parsed->0,
                    stems[order@[j] as int],
                ),
    {
        assert(order@.contains(order@[k as int]));
        assert(good@.contains(order@[k as int]));
        let at: usize = order[k];
        proof {
            let m = choose|m: int| 0 <= m < good@.len() && good@[m] == at;
            assert(reads@[good@[m] as int].parsed is Some);
        }
        match &reads[at].parsed {
            Some(s) => {
                entries.push(entry_of(s, &ids[at]));
            },
            None => {
                assert(false);
            },
        }
    }
    DirScan {
        entries,
        orphan_audio: join_all(root, &left),
        orphan_sidecars,
        stale_tmps: join_all(root, &tmps),
    }
}

/// One more sidecar vouches for one more file, if it is valid.
proof fn vouching_grows(
    stems: Seq<Seq<char>>,
    reads: Seq<SidecarRead>,
    k: int,
    was: Seq<String>,
    now: Seq<String>,
    name: Seq<char>,
)
    requires
        0 <= k < stems.len() == reads.len(),
        names_it(was, name) == accounted(stems, reads, k, name),
        fault(reads[k], stems[k]) is Some ==> now == was,
        fault(reads[k], stems[k]) is None ==> now.len() == was.len() + 1 && now.take(
            was.len() as int,
        ) =~= was && now.last()@ == dotted(
            stems[k],
            reads[k].parsed->0.fingerprint.suffix@,
        ),
    ensures
        names_it(now, name) == accounted(stems, reads, k + 1, name),
{
    if names_it(now, name) {
        let j = choose|j: int| 0 <= j < now.len() && (#[trigger] now[j])@ == name;
        if j < was.len() {
            assert(now.take(was.len() as int)[j] == now[j]);
            assert(was[j]@ == name);
        } else {
            assert(fault(reads[k], stems[k]) is None);
        }
    }
    if accounted(stems, reads, k + 1, name) {
        let m = choose|m: int|
            0 <= m < k + 1 && fault(#[trigger] reads[m], stems[m]) is None && dotted(
                stems[m],
                reads[m].parsed->0.fingerprint.suffix@,
            ) == name;
        if m < k {
            assert(accounted(stems, reads, k, name));
            let j = choose|j: int| 0 <= j < was.len() && (#[trigger] was[j])@ == name;
            assert(now.take(was.len() as int)[j] == now[j]);
            assert(now[j]@ == name);
        } else {
            assert(now[now.len() - 1]@ == name);
        }
    }
}

} // verus!
