//! What a segment's name is made of.
use crate::paths::dotted;
use crate::scan::names_it;
use crate::segment::{
    at_most, candidate, first_free, full_slug, is_free, is_safe, name_of, slug_of, station_part, unhyphened,
    whole_secs, TmpGuard, SLUG_MAX_BYTES,
};
use crate::tape::Cut;
use crate::text::{decimal, is_alnum, lower};
use vstd::prelude::*;

verus! {

/// A slug goes on letter by letter: an ASCII letter or digit right after another is added in
/// lower case.
pub proof fn slugs_go_on(s: Seq<char>, c: char)
    ensures
        !is_alnum(c) ==> full_slug(s.push(c)) == full_slug(s),
        is_alnum(c) && s.len() > 0 && is_alnum(s.last()) ==> full_slug(s.push(c)) == full_slug(
            s,
        ).push(lower(c)),
        is_alnum(c) && full_slug(s).len() == 0 ==> full_slug(s.push(c)) == seq![lower(c)],
        is_alnum(c) && s.len() > 0 && !is_alnum(s.last()) && full_slug(s).len() > 0 ==> full_slug(
            s.push(c),
        ) == full_slug(s).push('-').push(lower(c)),
        full_slug(Seq::empty()) == Seq::<char>::empty(),
{
    let t = s.push(c);
    assert(t.drop_last() =~= s);
    assert(t.last() == c);
    if s.len() > 0 {
        assert(t[t.len() - 2] == s.last());
    }
    assert(full_slug(Seq::<char>::empty()) =~= Seq::<char>::empty());
    if is_alnum(c) && full_slug(s).len() == 0 {
        assert(full_slug(t) =~= seq![lower(c)]);
    }
}

proof fn unhyphening_takes_the_end(s: Seq<char>) -> (n: int)
    ensures
        0 <= n <= s.len(),
        unhyphened(s) == s.take(n),
        forall|i: int| n <= i < s.len() ==> #[trigger] s[i] == '-',
        n > 0 ==> s[n - 1] != '-',
    decreases s.len(),
{
    if s.len() > 0 && s.last() == '-' {
        let t = s.drop_last();
        let n = unhyphening_takes_the_end(t);
        assert(t.take(n) =~= s.take(n));
        assert forall|i: int| n <= i < s.len() implies #[trigger] s[i] == '-' by {
            if i < t.len() {
                assert(t[i] == '-');
            }
        }
        n
    } else {
        assert(s.take(s.len() as int) =~= s);
        s.len() as int
    }
}

/// A slug is the whole slug of the text where that is short enough, and else its beginning, up
/// to the longest and without a hyphen at the cut.
pub proof fn slugs_are_cut_at_the_longest(s: Seq<char>) -> (n: int)
    ensures
        0 <= n <= full_slug(s).len(),
        n <= SLUG_MAX_BYTES,
        slug_of(s) == full_slug(s).take(n),
        forall|i: int|
            n <= i < full_slug(s).len() && i < SLUG_MAX_BYTES ==> #[trigger] full_slug(s)[i] == '-',
        n > 0 ==> full_slug(s)[n - 1] != '-',
{
    let f = full_slug(s);
    let c = at_most(f, SLUG_MAX_BYTES as int);
    let n = unhyphening_takes_the_end(c);
    assert(c.take(n) =~= f.take(n));
    assert forall|i: int| n <= i < f.len() && i < SLUG_MAX_BYTES implies #[trigger] f[i] == '-' by {
        assert(c[i] == f[i]);
    }
    if n > 0 {
        assert(c[n - 1] == f[n - 1]);
    }
    n
}

/// A duration is told in whole seconds to the nearest, halves up; one that is no number, or not
/// positive, is told as none.
pub proof fn durations_are_told_in_seconds(micros: Option<i64>)
    ensures
        micros is None ==> whole_secs(micros) == 0,
        micros matches Some(n) ==> n <= 0 ==> whole_secs(micros) == 0,
        micros matches Some(n) ==> n > 0 ==> n - 500_000 < whole_secs(micros) * 1_000_000 <= n
            + 500_000,
{
}

/// A name opens with the stamp and the station, or with a stand-in where the station has nothing
/// to spell it from. A window's goes on with its length, a track's with the title.
pub proof fn names_open_with_stamp_and_station(
    proven: bool,
    cut: Cut,
    stamp: Seq<char>,
    station: Option<Seq<char>>,
    title: Option<Seq<char>>,
    micros: Option<i64>,
)
    ensures
        ({
            let name = name_of(proven, cut, stamp, station, title, micros);
            let place = if station is Some && slug_of(station->0).len() > 0 {
                slug_of(station->0)
            } else {
                "stream"@
            };
            let head = stamp + "-"@ + place;
            let titled = proven && (cut is IcyEdge || cut is IcyOpen) && title is Some && slug_of(
                title->0,
            ).len() > 0;
            &&& titled ==> name == head + "-"@ + slug_of(title->0)
            &&& !titled ==> name == head + "-w"@ + decimal(whole_secs(micros)) + "s"@
            &&& station_part(station) == place
        }),
{
}

proof fn earlier_candidates_are_taken(
    names: Seq<String>,
    id: Seq<char>,
    k: int,
    pid: nat,
) -> (n: int)
    requires
        0 <= k <= names.len(),
    ensures
        k <= n <= names.len(),
        first_free(names, id, k, pid) == candidate(id, n, pid),
        forall|j: int| k <= j < n ==> !is_free(names, #[trigger] candidate(id, j, pid)),
    decreases names.len() - k,
{
    if k >= names.len() || is_free(names, candidate(id, k, pid)) {
        k
    } else {
        earlier_candidates_are_taken(names, id, k + 1, pid)
    }
}

/// A segment gets the first id on offer that is free: its own wherever that is, else its own and
/// the first letter that is, from `b` on, else its own and the process, else that and a count.
pub proof fn the_first_free_id_is_taken(names: Seq<String>, id: Seq<char>, pid: nat) -> (n: int)
    ensures
        0 <= n <= names.len(),
        first_free(names, id, 0, pid) == candidate(id, n, pid),
        forall|j: int| 0 <= j < n ==> !is_free(names, #[trigger] candidate(id, j, pid)),
        is_free(names, id) ==> first_free(names, id, 0, pid) == id,
        candidate(id, 0, pid) == id,
        candidate(id, 1, pid) == id + "-"@ + seq!['b'],
        candidate(id, 25, pid) == id + "-"@ + seq!['z'],
        candidate(id, 26, pid) == id + "-"@ + decimal(pid),
        candidate(id, 27, pid) == id + "-"@ + decimal(pid) + "-"@ + decimal(2),
        forall|j: int|
            1 <= j <= 25 ==> #[trigger] candidate(id, j, pid) == id + "-"@ + seq![
                ('a' as u8 + j) as u8 as char,
            ],
{
    earlier_candidates_are_taken(names, id, 0, pid)
}

/// An id is free where neither its audio nor its record is there.
pub proof fn ids_are_free_of_files(names: Seq<String>, id: Seq<char>)
    ensures
        is_free(names, id) <==> forall|k: int|
            0 <= k < names.len() ==> (#[trigger] names[k])@ != id + seq!['.'] + "mkv"@ && names[k]@
                != id + seq!['.'] + "toml"@,
{
    let a = dotted(id, "mkv"@);
    let r = dotted(id, "toml"@);
    assert(a =~= id + seq!['.'] + "mkv"@);
    assert(r =~= id + seq!['.'] + "toml"@);
    if is_free(names, id) {
        assert forall|k: int| 0 <= k < names.len() implies (#[trigger] names[k])@ != a && names[k]@
            != r by {}
    } else if forall|k: int|
        0 <= k < names.len() ==> (#[trigger] names[k])@ != a && names[k]@ != r {
        assert(!names_it(names, a));
        assert(!names_it(names, r));
    }
}

/// A guard takes its file along, whichever it is, and once released none.
pub proof fn guards_take_their_file_along(guard: TmpGuard)
    ensures
        guard.0@.len() > 0 ==> guard.dooms() == Some(guard.0@),
        guard.0@.len() == 0 ==> guard.dooms() is None,
{
}

/// A directory is safe to name exactly where none of a quote, a backslash, a line feed and a
/// carriage return is in its name: any of them anywhere makes it unsafe, and nothing else does.
pub proof fn only_four_characters_are_unsafe(root: Seq<char>, c: char)
    ensures
        is_safe(Seq::empty()),
        is_safe(root.push(c)) <==> is_safe(root) && c as u32 != 0x22 && c as u32 != 0x5c && c as u32
            != 0xa && c as u32 != 0xd,
{
    let all = root.push(c);
    if is_safe(all) {
        assert(all[root.len() as int] == c);
        assert forall|i: int| 0 <= i < root.len() implies (#[trigger] root[i]) != '"' && root[i]
            != '\\' && root[i] != '\n' && root[i] != '\r' by {
            assert(all[i] == root[i]);
        }
    }
    if is_safe(root) {
        assert forall|i: int| 0 <= i < root.len() implies all[i] == #[trigger] root[i] by {}
    }
}

} // verus!
