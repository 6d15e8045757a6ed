//! What every scan of the store directory keeps.
use crate::entries::distinct_entries;
use crate::frontier::places;
use crate::names::{storable, tmp_name};
use crate::paths::{dotted, joined};
use crate::scan::{
    accounted, all_of_kind, entry_from, fault, kind_of, kinds_are_kinds, name_order,
    name_order_is_total, names_in_order, of_kind, orphans, owner_of, reads_where, scans,
    sidecar_stem, sidecar_stems, speaks_for, stem_order, stem_order_is_total, AudioFile, DirScan,
    NameKind, Ownership, SidecarRead, STORE_MARKER_NAME,
};
use crate::sorting::sorting_keeps_elements;
use crate::text::before;
use vstd::prelude::*;

verus! {

/// No two files of the directory share a name.
pub open spec fn distinct_names(names: Seq<String>) -> bool {
    forall|i: int, j: int|
        0 <= i < j < names.len() ==> (#[trigger] names[i])@ != (#[trigger] names[j])@
}

/// No file name is absolute.
pub open spec fn plain_names(names: Seq<String>) -> bool {
    forall|i: int|
        0 <= i < names.len() ==> (#[trigger] names[i])@.len() > 0 ==> names[i]@[0] != '/'
}

proof fn joining_is_injective(root: Seq<char>, a: Seq<char>, b: Seq<char>)
    requires
        a.len() > 0 ==> a[0] != '/',
        b.len() > 0 ==> b[0] != '/',
        joined(root, a) == joined(root, b),
    ensures
        a == b,
{
    let head = if root.len() == 0 || root.last() == '/' {
        root
    } else {
        root.push('/')
    };
    assert((head + a).skip(head.len() as int) =~= a);
    assert((head + b).skip(head.len() as int) =~= b);
}

proof fn order_picks_names(names: Seq<String>)
    requires
        names.len() <= usize::MAX,
    ensures
        names_in_order(names).len() == names.len(),
        forall|k: int|
            0 <= k < names.len() ==> names.contains(#[trigger] names_in_order(names)[k]),
        distinct_names(names) ==> distinct_names(names_in_order(names)),
{
    let start = places(names.len());
    let leq = name_order(names);
    name_order_is_total(names);
    sorting_keeps_elements(start, leq);
    let order = start.sort_by(leq);
    assert(start.no_duplicates());
    let sorted = names_in_order(names);
    assert forall|k: int| 0 <= k < names.len() implies names.contains(#[trigger] sorted[k]) by {
        assert(order.contains(order[k]));
        assert(start.contains(order[k]));
        assert(sorted[k] == names[order[k] as int]);
    }
    if distinct_names(names) {
        assert forall|i: int, j: int| 0 <= i < j < sorted.len() implies (
        #[trigger] sorted[i])@ != (#[trigger] sorted[j])@ by {
            assert(order.contains(order[i]) && order.contains(order[j]));
            assert(start.contains(order[i]) && start.contains(order[j]));
            assert(order[i] != order[j]);
            assert(names[order[i] as int]@ != names[order[j] as int]@);
        }
    }
}

proof fn kinds_keep_names(names: Seq<String>, kind: NameKind, n: int)
    requires
        0 <= n <= names.len(),
    ensures
        of_kind(names, kind, n).len() <= n,
        forall|k: int|
            0 <= k < of_kind(names, kind, n).len() ==> names.take(n).contains(
                #[trigger] of_kind(names, kind, n)[k],
            ),
        distinct_names(names) ==> distinct_names(of_kind(names, kind, n)),
    decreases n,
{
    if n > 0 {
        kinds_keep_names(names, kind, n - 1);
        let was = of_kind(names, kind, n - 1);
        let now = of_kind(names, kind, n);
        assert forall|k: int| 0 <= k < now.len() implies names.take(n).contains(
            #[trigger] now[k],
        ) by {
            if k < was.len() {
                let head = names.take(n - 1);
                assert(head.contains(was[k]));
                let j = choose|j: int| 0 <= j < head.len() && head[j] == was[k];
                assert(names.take(n)[j] == was[k]);
            } else {
                assert(names.take(n)[n - 1] == names[n - 1]);
            }
        }
        if distinct_names(names) && now.len() > was.len() {
            assert forall|i: int, j: int| 0 <= i < j < now.len() implies (
            #[trigger] now[i])@ != (#[trigger] now[j])@ by {
                if j == was.len() {
                    let head = names.take(n - 1);
                    assert(head.contains(was[i]));
                    let m = choose|m: int| 0 <= m < head.len() && head[m] == was[i];
                    assert(names[m]@ != names[n - 1]@);
                }
            }
        }
    }
}

/// What a scan lists of a kind is a file of the directory, of that kind.
pub proof fn kinds_are_files(names: Seq<String>, kind: NameKind)
    requires
        names.len() <= usize::MAX,
    ensures
        forall|k: int|
            0 <= k < all_of_kind(names, kind).len() ==> names.contains(
                #[trigger] all_of_kind(names, kind)[k],
            ) && kind_of(all_of_kind(names, kind)[k]@) == kind,
        distinct_names(names) ==> distinct_names(all_of_kind(names, kind)),
{
    let sorted = names_in_order(names);
    order_picks_names(names);
    kinds_are_kinds(sorted, kind, sorted.len() as int);
    kinds_keep_names(sorted, kind, sorted.len() as int);
    assert(sorted.take(sorted.len() as int) =~= sorted);
    let all = all_of_kind(names, kind);
    assert forall|k: int| 0 <= k < all.len() implies names.contains(#[trigger] all[k]) && kind_of(
        all[k]@,
    ) == kind by {
        assert(sorted.contains(all[k]));
        let j = choose|j: int| 0 <= j < sorted.len() && sorted[j] == all[k];
        assert(names.contains(sorted[j]));
    }
}

proof fn orphans_are_loose(
    loose: Seq<String>,
    stems: Seq<Seq<char>>,
    reads: Seq<SidecarRead>,
    n: int,
)
    requires
        0 <= n <= loose.len(),
    ensures
        forall|k: int|
            0 <= k < orphans(loose, stems, reads, n).len() ==> loose.contains(
                #[trigger] orphans(loose, stems, reads, n)[k],
            ),
    decreases n,
{
    if n > 0 {
        orphans_are_loose(loose, stems, reads, n - 1);
        let was = orphans(loose, stems, reads, n - 1);
        let now = orphans(loose, stems, reads, n);
        assert forall|k: int| 0 <= k < now.len() implies loose.contains(#[trigger] now[k]) by {
            if k < was.len() {
                assert(loose.contains(was[k]));
            } else {
                assert(now[k] == loose[n - 1]);
            }
        }
    }
}

/// The ownership marker is never among the files to delete: the heal spares the claim that it
/// rests on.
pub proof fn scans_spare_the_marker(
    s: DirScan,
    root: Seq<char>,
    names: Seq<String>,
    reads: Seq<SidecarRead>,
)
    requires
        scans(s, root, names, reads),
        plain_names(names),
        names.len() <= usize::MAX,
    ensures
        forall|k: int|
            0 <= k < s.stale_tmps@.len() ==> (#[trigger] s.stale_tmps@[k])@ != joined(
                root,
                STORE_MARKER_NAME@,
            ),
        forall|k: int|
            0 <= k < s.orphan_audio@.len() ==> (#[trigger] s.orphan_audio@[k])@ != joined(
                root,
                STORE_MARKER_NAME@,
            ),
{
    reveal_strlit(".hypodj-store");
    assert(STORE_MARKER_NAME@[0] == '.');
    kinds_are_files(names, NameKind::Temporary);
    kinds_are_files(names, NameKind::Loose);
    let tmps = all_of_kind(names, NameKind::Temporary);
    let loose = all_of_kind(names, NameKind::Loose);
    let left = orphans(loose, sidecar_stems(names), reads, loose.len() as int);
    orphans_are_loose(loose, sidecar_stems(names), reads, loose.len() as int);
    assert forall|k: int| 0 <= k < s.stale_tmps@.len() implies (
    #[trigger] s.stale_tmps@[k])@ != joined(root, STORE_MARKER_NAME@) by {
        let name = tmps[k];
        assert(kind_of(name@) == NameKind::Temporary);
        assert(names.contains(name));
        if s.stale_tmps@[k]@ == joined(root, STORE_MARKER_NAME@) {
            joining_is_injective(root, name@, STORE_MARKER_NAME@);
        }
    }
    assert forall|k: int| 0 <= k < s.orphan_audio@.len() implies (
    #[trigger] s.orphan_audio@[k])@ != joined(root, STORE_MARKER_NAME@) by {
        let name = left[k];
        assert(loose.contains(name));
        let m = choose|m: int| 0 <= m < loose.len() && loose[m] == name;
        assert(kind_of(loose[m]@) == NameKind::Loose);
        assert(names.contains(loose[m]));
        if s.orphan_audio@[k]@ == joined(root, STORE_MARKER_NAME@) {
            joining_is_injective(root, name@, STORE_MARKER_NAME@);
        }
    }
}

proof fn reads_split(stems: Seq<Seq<char>>, reads: Seq<SidecarRead>, n: int)
    requires
        0 <= n <= stems.len() == reads.len(),
        stems.len() <= usize::MAX,
    ensures
        reads_where(stems, reads, true, n).len() + reads_where(stems, reads, false, n).len() == n,
        forall|k: int|
            0 <= k < reads_where(stems, reads, true, n).len() ==> (#[trigger] reads_where(
                stems,
                reads,
                true,
                n,
            )[k]) < n && fault(
                reads[reads_where(stems, reads, true, n)[k] as int],
                stems[reads_where(stems, reads, true, n)[k] as int],
            ) is None,
        reads_where(stems, reads, true, n).no_duplicates(),
    decreases n,
{
    if n > 0 {
        reads_split(stems, reads, n - 1);
        let was = reads_where(stems, reads, true, n - 1);
        let now = reads_where(stems, reads, true, n);
        assert forall|k: int| 0 <= k < now.len() implies (#[trigger] now[k]) < n && fault(
            reads[now[k] as int],
            stems[now[k] as int],
        ) is None by {
            if k < was.len() {
                assert(now[k] == was[k]);
            }
        }
        assert forall|i: int, j: int| 0 <= i < now.len() && 0 <= j < now.len() && i != j implies
            now[i] != now[j] by {
            if i < was.len() {
                assert(now[i] == was[i]);
            }
            if j < was.len() {
                assert(now[j] == was[j]);
            }
        }
    }
}

/// Every sidecar is either trusted or on the list to go.
pub proof fn scans_judge_every_sidecar(
    s: DirScan,
    root: Seq<char>,
    names: Seq<String>,
    reads: Seq<SidecarRead>,
)
    requires
        scans(s, root, names, reads),
        reads.len() == sidecar_stems(names).len(),
        reads.len() <= usize::MAX,
    ensures
        s.entries@.len() + s.orphan_sidecars@.len() == sidecar_stems(names).len(),
{
    let stems = sidecar_stems(names);
    reads_split(stems, reads, stems.len() as int);
    stem_order_is_total(stems);
    sorting_keeps_elements(
        reads_where(stems, reads, true, stems.len() as int),
        stem_order(stems),
    );
}

/// A scan trusts nothing but whole pairs: behind each entry stands a sound sidecar for its id,
/// and a plain file of exactly the size that the sidecar states.
pub proof fn scanned_entries_are_whole(
    s: DirScan,
    root: Seq<char>,
    names: Seq<String>,
    reads: Seq<SidecarRead>,
    k: int,
)
    requires
        scans(s, root, names, reads),
        reads.len() == sidecar_stems(names).len(),
        reads.len() <= usize::MAX,
        0 <= k < s.entries@.len(),
    ensures
        exists|j: int|
            0 <= j < reads.len() && sidecar_stems(names)[j] == s.entries@[k].id@ && speaks_for(
                (#[trigger] reads[j]).parsed,
                s.entries@[k].id@,
            ) && reads[j].audio == AudioFile::Plain(s.entries@[k].size),
{
    let stems = sidecar_stems(names);
    let good = reads_where(stems, reads, true, stems.len() as int);
    reads_split(stems, reads, stems.len() as int);
    stem_order_is_total(stems);
    sorting_keeps_elements(good, stem_order(stems));
    let order = good.sort_by(stem_order(stems));
    assert(order.contains(order[k]));
    assert(good.contains(order[k]));
    let m = choose|m: int| 0 <= m < good.len() && good[m] == order[k];
    let j = good[m] as int;
    assert(fault(reads[j], stems[j]) is None);
    assert(entry_from(s.entries@[k], reads[j].parsed->0, stems[j]));
}

/// In a directory without two files of one name, no two entries share an id.
pub proof fn scanned_entries_are_distinct(
    s: DirScan,
    root: Seq<char>,
    names: Seq<String>,
    reads: Seq<SidecarRead>,
)
    requires
        scans(s, root, names, reads),
        distinct_names(names),
        names.len() <= usize::MAX,
        reads.len() == sidecar_stems(names).len(),
        reads.len() <= usize::MAX,
    ensures
        distinct_entries(s.entries@),
        forall|i: int, j: int|
            0 <= i < j < s.entries@.len() ==> before(
                (#[trigger] s.entries@[i]).id@,
                (#[trigger] s.entries@[j]).id@,
            ),
{
    let stems = sidecar_stems(names);
    let cars = all_of_kind(names, NameKind::Sidecar);
    kinds_are_files(names, NameKind::Sidecar);
    assert forall|i: int, j: int| 0 <= i < j < stems.len() implies (#[trigger] stems[i]) != (
    #[trigger] stems[j]) by {
        let a = cars[i]@;
        let b = cars[j]@;
        assert(kind_of(a) == NameKind::Sidecar && kind_of(b) == NameKind::Sidecar);
        if stems[i] == stems[j] {
            assert(a =~= a.take(a.len() - 5) + a.skip(a.len() - 5));
            assert(b =~= b.take(b.len() - 5) + b.skip(b.len() - 5));
            assert(a == b);
        }
    }
    let good = reads_where(stems, reads, true, stems.len() as int);
    reads_split(stems, reads, stems.len() as int);
    stem_order_is_total(stems);
    sorting_keeps_elements(good, stem_order(stems));
    let leq = stem_order(stems);
    let order = good.sort_by(leq);
    assert forall|i: int, j: int| 0 <= i < j < s.entries@.len() implies before(
        (#[trigger] s.entries@[i]).id@,
        (#[trigger] s.entries@[j]).id@,
    ) by {
        assert(order.contains(order[i]) && order.contains(order[j]));
        assert(good.contains(order[i]) && good.contains(order[j]));
        assert(order[i] != order[j]);
        assert(entry_from(s.entries@[i], reads[order[i] as int].parsed->0, stems[order[i] as int]));
        assert(entry_from(s.entries@[j], reads[order[j] as int].parsed->0, stems[order[j] as int]));
        assert(leq(order[i], order[j]));
        assert(stems[order[i] as int] != stems[order[j] as int]);
    }
    assert forall|i: int, j: int| 0 <= i < j < s.entries@.len() implies (
    #[trigger] s.entries@[i]).id@ != (#[trigger] s.entries@[j]).id@ by {
        crate::text::before_is_irreflexive(s.entries@[i].id@);
        assert(before(s.entries@[i].id@, s.entries@[j].id@));
    }
}

/// What a name says: the marker is the marker, `tmp.` and two numbers a temporary, a storable
/// stem before `.toml` a sidecar, and any other name is loose.
pub proof fn names_say_what_files_are(name: Seq<char>, stem: Seq<char>)
    ensures
        kind_of(name) == NameKind::Marker <==> name == ".hypodj-store"@,
        kind_of(name) == NameKind::Temporary <==> name != ".hypodj-store"@ && tmp_name(name),
        storable(stem) ==> sidecar_stem(stem + ".toml"@) == Some(stem),
        sidecar_stem(name) matches Some(s) ==> storable(s) && name == s + ".toml"@,
        kind_of(name) == NameKind::Sidecar ==> sidecar_stem(name) is Some,
        kind_of(name) == NameKind::Loose <==> name != ".hypodj-store"@ && !tmp_name(name)
            && sidecar_stem(name) is None,
{
    reveal_strlit(".toml");
    let whole = stem + ".toml"@;
    assert(whole.take(whole.len() - 5) =~= stem);
    assert(whole.skip(whole.len() - 5) =~= ".toml"@);
    if sidecar_stem(name) is Some {
        let n = name.len() - 5;
        assert(name =~= name.take(n) + name.skip(n));
    }
}

proof fn order_keeps_names(names: Seq<String>, i: int)
    requires
        names.len() <= usize::MAX,
        0 <= i < names.len(),
    ensures
        names_in_order(names).contains(names[i]),
{
    let start = places(names.len());
    let leq = name_order(names);
    name_order_is_total(names);
    sorting_keeps_elements(start, leq);
    let order = start.sort_by(leq);
    assert(start[i] == i as usize);
    assert(start.contains(i as usize));
    assert(order.contains(i as usize));
    let k = choose|k: int| 0 <= k < order.len() && order[k] == i as usize;
    assert(names_in_order(names)[k] == names[i]);
}

proof fn kinds_miss_none(names: Seq<String>, kind: NameKind, n: int, i: int)
    requires
        0 <= i < n <= names.len(),
        kind_of(names[i]@) == kind,
    ensures
        of_kind(names, kind, n).contains(names[i]),
    decreases n,
{
    let was = of_kind(names, kind, n - 1);
    let now = of_kind(names, kind, n);
    if i < n - 1 {
        kinds_miss_none(names, kind, n - 1, i);
        let k = choose|k: int| 0 <= k < was.len() && was[k] == names[i];
        assert(now[k] == names[i]);
    } else {
        assert(now[was.len() as int] == names[i]);
    }
}

/// Every file of a kind is listed under it.
pub proof fn files_are_listed_by_kind(names: Seq<String>, i: int)
    requires
        names.len() <= usize::MAX,
        0 <= i < names.len(),
    ensures
        all_of_kind(names, kind_of(names[i]@)).contains(names[i]),
{
    let sorted = names_in_order(names);
    order_keeps_names(names, i);
    let k = choose|k: int| 0 <= k < sorted.len() && sorted[k] == names[i];
    kinds_miss_none(sorted, kind_of(names[i]@), sorted.len() as int, k);
}

proof fn orphans_are_the_unaccounted(
    loose: Seq<String>,
    stems: Seq<Seq<char>>,
    reads: Seq<SidecarRead>,
    n: int,
)
    requires
        0 <= n <= loose.len(),
    ensures
        forall|i: int|
            0 <= i < n && !accounted(stems, reads, stems.len() as int, (#[trigger] loose[i])@)
                ==> orphans(loose, stems, reads, n).contains(loose[i]),
        forall|k: int|
            0 <= k < orphans(loose, stems, reads, n).len() ==> !accounted(
                stems,
                reads,
                stems.len() as int,
                (#[trigger] orphans(loose, stems, reads, n)[k])@,
            ) && loose.contains(orphans(loose, stems, reads, n)[k]),
    decreases n,
{
    if n > 0 {
        orphans_are_the_unaccounted(loose, stems, reads, n - 1);
        let was = orphans(loose, stems, reads, n - 1);
        let now = orphans(loose, stems, reads, n);
        assert forall|i: int|
            0 <= i < n && !accounted(
                stems,
                reads,
                stems.len() as int,
                (#[trigger] loose[i])@,
            ) implies now.contains(loose[i]) by {
            if i < n - 1 {
                assert(was.contains(loose[i]));
                let k = choose|k: int| 0 <= k < was.len() && was[k] == loose[i];
                assert(now[k] == loose[i]);
            } else {
                assert(now[was.len() as int] == loose[i]);
            }
        }
        assert forall|k: int| 0 <= k < now.len() implies !accounted(
            stems,
            reads,
            stems.len() as int,
            (#[trigger] now[k])@,
        ) && loose.contains(now[k]) by {
            if k < was.len() {
                assert(now[k] == was[k]);
            } else {
                assert(loose[n - 1] == now[k]);
            }
        }
    }
}

/// A scan has something to say of every file: a temporary is to be swept, and a loose file that
/// no valid sidecar accounts for is an orphan. One that a valid sidecar accounts for is not
/// touched.
pub proof fn scans_place_every_file(
    s: DirScan,
    root: Seq<char>,
    names: Seq<String>,
    reads: Seq<SidecarRead>,
    i: int,
)
    requires
        scans(s, root, names, reads),
        names.len() <= usize::MAX,
        0 <= i < names.len(),
    ensures
        kind_of(names[i]@) == NameKind::Temporary ==> exists|k: int|
            0 <= k < s.stale_tmps@.len() && (#[trigger] s.stale_tmps@[k])@ == joined(
                root,
                names[i]@,
            ),
        kind_of(names[i]@) == NameKind::Loose && !accounted(
            sidecar_stems(names),
            reads,
            sidecar_stems(names).len() as int,
            names[i]@,
        ) ==> exists|k: int|
            0 <= k < s.orphan_audio@.len() && (#[trigger] s.orphan_audio@[k])@ == joined(
                root,
                names[i]@,
            ),
        plain_names(names) && accounted(
            sidecar_stems(names),
            reads,
            sidecar_stems(names).len() as int,
            names[i]@,
        ) ==> forall|k: int|
            0 <= k < s.orphan_audio@.len() ==> (#[trigger] s.orphan_audio@[k])@ != joined(
                root,
                names[i]@,
            ),
{
    files_are_listed_by_kind(names, i);
    let stems = sidecar_stems(names);
    let loose = all_of_kind(names, NameKind::Loose);
    let lost = orphans(loose, stems, reads, loose.len() as int);
    orphans_are_the_unaccounted(loose, stems, reads, loose.len() as int);
    kinds_are_files(names, NameKind::Loose);
    if kind_of(names[i]@) == NameKind::Temporary {
        let t = all_of_kind(names, NameKind::Temporary);
        let k = choose|k: int| 0 <= k < t.len() && t[k] == names[i];
        assert(s.stale_tmps@[k]@ == joined(root, names[i]@));
    }
    if kind_of(names[i]@) == NameKind::Loose && !accounted(
        stems,
        reads,
        stems.len() as int,
        names[i]@,
    ) {
        let j = choose|j: int| 0 <= j < loose.len() && loose[j] == names[i];
        assert(!accounted(stems, reads, stems.len() as int, loose[j]@));
        assert(lost.contains(loose[j]));
        let k = choose|k: int| 0 <= k < lost.len() && lost[k] == loose[j];
        assert(s.orphan_audio@[k]@ == joined(root, names[i]@));
    }
    if plain_names(names) && accounted(stems, reads, stems.len() as int, names[i]@) {
        assert forall|k: int| 0 <= k < s.orphan_audio@.len() implies (
        #[trigger] s.orphan_audio@[k])@ != joined(root, names[i]@) by {
            assert(!accounted(stems, reads, stems.len() as int, lost[k]@));
            if s.orphan_audio@[k]@ == joined(root, names[i]@) {
                assert(loose.contains(lost[k]));
                let j = choose|j: int| 0 <= j < loose.len() && loose[j] == lost[k];
                assert(names.contains(loose[j]));
                let m = choose|m: int| 0 <= m < names.len() && names[m] == loose[j];
                joining_is_injective(root, names[m]@, names[i]@);
            }
        }
    }
}

/// A file is accounted for where a sidecar without fault names it: the sidecar's id, a dot and
/// the suffix that it records.
pub proof fn accounts_are_given_by_valid_sidecars(
    stems: Seq<Seq<char>>,
    reads: Seq<SidecarRead>,
    k: int,
    name: Seq<char>,
)
    requires
        0 <= k < stems.len(),
        fault(reads[k], stems[k]) is None,
        name == stems[k] + seq!['.'] + reads[k].parsed->0.fingerprint.suffix@,
    ensures
        accounted(stems, reads, stems.len() as int, name),
{
    assert(dotted(stems[k], reads[k].parsed->0.fingerprint.suffix@) =~= name);
}

proof fn reads_are_split(
    stems: Seq<Seq<char>>,
    reads: Seq<SidecarRead>,
    valid: bool,
    n: int,
    j: int,
)
    requires
        0 <= j < n <= usize::MAX,
        (fault(reads[j], stems[j]) is None) == valid,
    ensures
        reads_where(stems, reads, valid, n).contains(j as usize),
    decreases n,
{
    let was = reads_where(stems, reads, valid, n - 1);
    let now = reads_where(stems, reads, valid, n);
    if j < n - 1 {
        reads_are_split(stems, reads, valid, n - 1, j);
        let k = choose|k: int| 0 <= k < was.len() && was[k] == j as usize;
        assert(now[k] == j as usize);
    } else {
        assert(now[was.len() as int] == j as usize);
    }
}

/// A sidecar without fault becomes an entry with what it records; one with a fault is listed to
/// go, with that fault as the reason.
pub proof fn scans_answer_for_every_sidecar(
    s: DirScan,
    root: Seq<char>,
    names: Seq<String>,
    reads: Seq<SidecarRead>,
    j: int,
)
    requires
        scans(s, root, names, reads),
        reads.len() == sidecar_stems(names).len(),
        reads.len() <= usize::MAX,
        0 <= j < reads.len(),
    ensures
        fault(reads[j], sidecar_stems(names)[j]) is None ==> exists|k: int|
            0 <= k < s.entries@.len() && entry_from(
                #[trigger] s.entries@[k],
                reads[j].parsed->0,
                sidecar_stems(names)[j],
            ),
        fault(reads[j], sidecar_stems(names)[j]) matches Some(why) ==> exists|k: int|
            0 <= k < s.orphan_sidecars@.len() && (#[trigger] s.orphan_sidecars@[k]).0@
                == sidecar_stems(names)[j] && s.orphan_sidecars@[k].1 == why,
{
    let stems = sidecar_stems(names);
    let n = stems.len() as int;
    if fault(reads[j], stems[j]) is None {
        reads_are_split(stems, reads, true, n, j);
        let some = reads_where(stems, reads, true, n);
        stem_order_is_total(stems);
        sorting_keeps_elements(some, stem_order(stems));
        let good = some.sort_by(stem_order(stems));
        assert(good.contains(j as usize));
        let k = choose|k: int| 0 <= k < good.len() && good[k] == j as usize;
        assert(entry_from(s.entries@[k], reads[j].parsed->0, stems[j]));
    } else {
        reads_are_split(stems, reads, false, n, j);
        let bad = reads_where(stems, reads, false, n);
        let k = choose|k: int| 0 <= k < bad.len() && bad[k] == j as usize;
        assert(s.orphan_sidecars@[k].0@ == stems[j]);
    }
}

/// A directory is taken over only where it is empty, and converged only where it is marked or
/// taken over; anything else is somebody's and is left alone.
pub proof fn only_own_directories_are_converged(marked: bool, empty: bool)
    ensures
        owner_of(marked, empty) == Ownership::Refuse <==> !marked && !empty,
        owner_of(marked, empty) == Ownership::Ours <==> marked,
        owner_of(marked, empty) == Ownership::Adopt <==> !marked && empty,
{
}

} // verus!
