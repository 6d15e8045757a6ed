//! What a sweep makes of each file, and when it stops.
use crate::sorting::sorting_keeps_elements;
use crate::sweep::{
    age_order, age_order_is_total, audio_of, bytes_at, fate, fated, fated_are_so, has_audio,
    has_record, kept_bytes, least_kept, pair_bytes, record_of, stem_before,
    sweeps_count_what_remains, swept, views, Fate, Pair, SweepView, TapeFile,
};
use crate::text::{before, decimal};
use vstd::prelude::*;

verus! {

/// A name is a stem, a dot and an extension exactly where it is those put together, and the
/// stem is then what is left.
pub proof fn stems_come_before_extensions(name: Seq<char>, stem: Seq<char>, ext: Seq<char>)
    ensures
        stem_before(stem + seq!['.'] + ext, ext) == Some(stem),
        stem_before(name, ext) matches Some(s) ==> name == s + seq!['.'] + ext,
{
    let whole = stem + seq!['.'] + ext;
    let n = whole.len() - ext.len() - 1;
    assert(whole[n] == '.');
    assert(whole.skip(n + 1) =~= ext);
    assert(whole.take(n) =~= stem);
    if stem_before(name, ext) is Some {
        let m = name.len() - ext.len() - 1;
        assert(name =~= name.take(m) + seq!['.'] + name.skip(m + 1));
    }
}

/// What each file is to a sweep. A dump belongs to the process whose number follows `tmp.`, and
/// only another's is foreign. Audio is what ends in the one extension and is no dump, a record
/// what ends in the other. Audio with a record is a pair, without one half of one; so is a
/// record without audio. Anything else is left alone.
pub proof fn files_are_judged_by_name(files: Seq<TapeFile>, pid: nat, k: int)
    requires
        0 <= k < files.len(),
    ensures
        ({
            let name = files[k].name@;
            let mkv = stem_before(name, "mkv"@);
            let toml = stem_before(name, "toml"@);
            let dump = "tmp."@.is_prefix_of(name);
            let own = ("tmp."@ + decimal(pid) + seq!['.']).is_prefix_of(name);
            &&& fate(files, pid, k) == Fate::Foreign <==> mkv is Some && dump && !own
            &&& fate(files, pid, k) == Fate::Pair <==> mkv is Some && !dump && has_record(
                files,
                mkv->0,
            )
            &&& fate(files, pid, k) == Fate::LoneAudio <==> mkv is Some && !dump && !has_record(
                files,
                mkv->0,
            )
            &&& fate(files, pid, k) == Fate::LoneRecord ==> toml is Some && !has_audio(
                files,
                toml->0,
            )
            &&& toml is Some && mkv is None && !has_audio(files, toml->0) ==> fate(files, pid, k)
                == Fate::LoneRecord
        }),
        forall|id: Seq<char>| #[trigger]
            has_record(files, id) <==> exists|j: int|
                0 <= j < files.len() && stem_before((#[trigger] files[j]).name@, "toml"@) == Some(
                    id,
                ),
        forall|id: Seq<char>| #[trigger]
            has_audio(files, id) <==> exists|j: int|
                0 <= j < files.len() && !("tmp."@.is_prefix_of((#[trigger] files[j]).name@))
                    && stem_before(files[j].name@, "mkv"@) == Some(id),
{
    assert forall|id: Seq<char>| #[trigger] has_record(files, id) <==> exists|j: int|
        0 <= j < files.len() && stem_before((#[trigger] files[j]).name@, "toml"@) == Some(id) by {
        if has_record(files, id) {
            let j = choose|j: int|
                0 <= j < files.len() && record_of((#[trigger] files[j]).name@) == Some(id);
            assert(stem_before(files[j].name@, "toml"@) == Some(id));
        }
        if exists|j: int|
            0 <= j < files.len() && stem_before((#[trigger] files[j]).name@, "toml"@) == Some(id) {
            let j = choose|j: int|
                0 <= j < files.len() && stem_before((#[trigger] files[j]).name@, "toml"@) == Some(
                    id,
                );
            assert(record_of(files[j].name@) == Some(id));
        }
    }
    assert forall|id: Seq<char>| #[trigger] has_audio(files, id) <==> exists|j: int|
        0 <= j < files.len() && !("tmp."@.is_prefix_of((#[trigger] files[j]).name@))
            && stem_before(files[j].name@, "mkv"@) == Some(id) by {
        if has_audio(files, id) {
            let j = choose|j: int|
                0 <= j < files.len() && audio_of((#[trigger] files[j]).name@) == Some(id);
            assert(stem_before(files[j].name@, "mkv"@) == Some(id));
        }
        if exists|j: int|
            0 <= j < files.len() && !("tmp."@.is_prefix_of((#[trigger] files[j]).name@))
                && stem_before(files[j].name@, "mkv"@) == Some(id) {
            let j = choose|j: int|
                0 <= j < files.len() && !("tmp."@.is_prefix_of((#[trigger] files[j]).name@))
                    && stem_before(files[j].name@, "mkv"@) == Some(id);
            assert(audio_of(files[j].name@) == Some(id));
        }
    }
}

proof fn fated_miss_none(files: Seq<TapeFile>, pid: nat, want: Fate, n: int, k: int)
    requires
        0 <= k < n <= files.len(),
        fate(files, pid, k) == want,
    ensures
        fated(files, pid, want, n).contains(k as usize),
    decreases n,
{
    let was = fated(files, pid, want, n - 1);
    let now = fated(files, pid, want, n);
    if k < n - 1 {
        fated_miss_none(files, pid, want, n - 1, k);
        let i = choose|i: int| 0 <= i < was.len() && was[i] == k as usize;
        assert(now[i] == k as usize);
    } else {
        assert(now[was.len() as int] == k as usize);
    }
}

/// A sweep's view of a directory lists every file under what it is, and the pairs in the order of
/// their ids, which is that of their age.
pub proof fn views_are_complete(v: SweepView, files: Seq<TapeFile>, pid: nat, k: int)
    requires
        views(v, files, pid),
        files.len() <= usize::MAX,
        0 <= k < files.len(),
    ensures
        v.foreign@.contains(k as usize) <==> fate(files, pid, k) == Fate::Foreign,
        v.lone_records@.contains(k as usize) <==> fate(files, pid, k) == Fate::LoneRecord,
        v.lone_audio@.contains(k as usize) <==> fate(files, pid, k) == Fate::LoneAudio,
        v.pairs@.contains(k as usize) <==> fate(files, pid, k) == Fate::Pair,
        forall|a: int, b: int|
            0 <= a < b < v.pairs@.len() ==> {
                let x = audio_of(files[(#[trigger] v.pairs@[a]) as int].name@)->0;
                let y = audio_of(files[(#[trigger] v.pairs@[b]) as int].name@)->0;
                x == y || before(x, y)
            },
{
    let n = files.len() as int;
    listed_by_fate(files, pid, Fate::Foreign, k);
    listed_by_fate(files, pid, Fate::LoneRecord, k);
    listed_by_fate(files, pid, Fate::LoneAudio, k);
    listed_by_fate(files, pid, Fate::Pair, k);
    age_order_is_total(files);
    sorting_keeps_elements(fated(files, pid, Fate::Pair, n), age_order(files));
    let leq = age_order(files);
    assert forall|a: int, b: int| 0 <= a < b < v.pairs@.len() implies ({
        let x = audio_of(files[(#[trigger] v.pairs@[a]) as int].name@)->0;
        let y = audio_of(files[(#[trigger] v.pairs@[b]) as int].name@)->0;
        x == y || before(x, y)
    }) by {
        assert(leq(v.pairs@[a], v.pairs@[b]));
    }
}

proof fn listed_by_fate(files: Seq<TapeFile>, pid: nat, want: Fate, k: int)
    requires
        0 <= k < files.len() <= usize::MAX,
    ensures
        fated(files, pid, want, files.len() as int).contains(k as usize) <==> fate(files, pid, k)
            == want,
{
    let n = files.len() as int;
    fated_are_so(files, pid, want, n);
    let f = fated(files, pid, want, n);
    if fate(files, pid, k) == want {
        fated_miss_none(files, pid, want, n, k);
    }
    if f.contains(k as usize) {
        let i = choose|i: int| 0 <= i < f.len() && f[i] == k as usize;
        assert(fate(files, pid, f[i] as int) == want);
    }
}

/// Bytes are added up, pair by pair, pinned or not; those of the pins are of the pinned alone.
pub proof fn pairs_add_up(pairs: Seq<Pair>, n: int)
    requires
        0 <= n < pairs.len(),
    ensures
        pair_bytes(pairs, 0) == 0,
        pair_bytes(pairs, n + 1) == pair_bytes(pairs, n) + pairs[n].bytes,
        kept_bytes(pairs, 0) == 0,
        pairs[n].keep ==> kept_bytes(pairs, n + 1) == kept_bytes(pairs, n) + pairs[n].bytes,
        !pairs[n].keep ==> kept_bytes(pairs, n + 1) == kept_bytes(pairs, n),
{
}

/// The least number of pairs kept is as configured, but never none.
pub proof fn some_pair_is_kept(keep_min: u32)
    ensures
        least_kept(keep_min) >= 1,
        keep_min >= 1 ==> least_kept(keep_min) == keep_min,
{
}

/// A sweep removes no pair too many: each goes only while what then remains is over the budget,
/// and more than the least number of pairs remains with it.
pub proof fn sweeps_stop_in_time(
    pairs: Seq<Pair>,
    max_bytes: int,
    keep_min: int,
    k: int,
    i: int,
)
    requires
        0 <= k <= pairs.len() <= usize::MAX,
        0 <= i < swept(pairs, max_bytes, keep_min, k).gone.len(),
    ensures
        ({
            let gone = swept(pairs, max_bytes, keep_min, k).gone;
            &&& pair_bytes(pairs, pairs.len() as int) - bytes_at(pairs, gone.take(i)) > max_bytes
            &&& pairs.len() - i > keep_min
            &&& gone[i] < pairs.len() && !pairs[gone[i] as int].keep
        }),
    decreases k,
{
    let s = swept(pairs, max_bytes, keep_min, k - 1);
    let now = swept(pairs, max_bytes, keep_min, k);
    if i < s.gone.len() {
        sweeps_stop_in_time(pairs, max_bytes, keep_min, k - 1, i);
        assert(now.gone.take(i) =~= s.gone.take(i));
        assert(now.gone[i] == s.gone[i]);
    } else {
        sweeps_count_what_remains(pairs, max_bytes, keep_min, k - 1);
        assert(now.gone.take(i) =~= s.gone);
    }
}

} // verus!
