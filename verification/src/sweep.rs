//! Keeping the tape within its budget: which files are half of a pair and must go, and which
//! pairs go, oldest first.
use crate::segment::{SEGMENT_EXT, SIDECAR_EXT};
use crate::sorting::{sort_positions, sorting_keeps_elements};
use crate::text::{
    before, before_is_irreflexive, before_is_total, before_is_transitive, chars_of, comes_before,
    decimal, has_prefix, push_decimal, string_of,
};
use vstd::prelude::*;
use vstd::relations::total_ordering;

verus! {

/// A plain file of the tape's directory.
#[derive(Debug)]
pub struct TapeFile {
    pub name: String,
    pub bytes: u64,
}

/// What a sweep did.
#[derive(Clone, Copy, Debug, PartialEq, Eq, Structural)]
pub struct SweepReport {
    /// Pairs removed.
    pub removed: usize,
    /// Halves of pairs, and temporaries of dead processes, removed.
    pub orphans: usize,
    /// Audio bytes that remain.
    pub bytes: u64,
    /// The pinned pairs alone exceed the budget.
    pub over_budget_on_pins: bool,
}

impl Default for SweepReport {
    fn default() -> (r: Self)
        ensures
            r == (SweepReport { removed: 0, orphans: 0, bytes: 0, over_budget_on_pins: false }),
    {
        SweepReport { removed: 0, orphans: 0, bytes: 0, over_budget_on_pins: false }
    }
}

/// What a sweep makes of a directory, as positions in the list of its files.
#[derive(Debug)]
pub struct SweepView {
    /// Dumps that another process left.
    pub foreign: Vec<usize>,
    /// Records without audio.
    pub lone_records: Vec<usize>,
    /// Audio without a record.
    pub lone_audio: Vec<usize>,
    /// Audio with its record, oldest first.
    pub pairs: Vec<usize>,
}

/// A name before an extension.
pub open spec fn stem_before(name: Seq<char>, ext: Seq<char>) -> Option<Seq<char>> {
    let n = name.len() - ext.len() - 1;
    if n >= 0 && name[n] == '.' && name.skip(n + 1) == ext {
        Some(name.take(n))
    } else {
        None
    }
}

/// A name like an in-flight dump's.
pub open spec fn is_dump(name: Seq<char>) -> bool {
    "tmp."@.is_prefix_of(name)
}

/// The names of a process's own dumps begin so.
pub open spec fn own_prefix(pid: nat) -> Seq<char> {
    "tmp."@ + decimal(pid) + seq!['.']
}

/// An in-flight dump of another process.
pub open spec fn is_foreign(name: Seq<char>, pid: nat) -> bool {
    stem_before(name, SEGMENT_EXT@) is Some && is_dump(name) && !own_prefix(pid).is_prefix_of(name)
}

/// The id whose audio a file is.
pub open spec fn audio_of(name: Seq<char>) -> Option<Seq<char>> {
    if is_dump(name) {
        None
    } else {
        stem_before(name, SEGMENT_EXT@)
    }
}

/// The id whose record a file is.
pub open spec fn record_of(name: Seq<char>) -> Option<Seq<char>> {
    stem_before(name, SIDECAR_EXT@)
}

/// Some file is the audio of an id.
pub open spec fn has_audio(files: Seq<TapeFile>, id: Seq<char>) -> bool {
    exists|k: int| 0 <= k < files.len() && audio_of((#[trigger] files[k]).name@) == Some(id)
}

/// Some file is the record of an id.
pub open spec fn has_record(files: Seq<TapeFile>, id: Seq<char>) -> bool {
    exists|k: int| 0 <= k < files.len() && record_of((#[trigger] files[k]).name@) == Some(id)
}

/// What a file of the directory is to a sweep.
pub enum Fate {
    Foreign,
    LoneRecord,
    LoneAudio,
    Pair,
    /// A record with its audio, a dump of this process, or none of the tape's business.
    Untouched,
}

/// What a file is to a sweep.
pub open spec fn fate(files: Seq<TapeFile>, pid: nat, k: int) -> Fate {
    let name = files[k].name@;
    if is_foreign(name, pid) {
        Fate::Foreign
    } else if audio_of(name) is Some {
        if has_record(files, audio_of(name)->0) {
            Fate::Pair
        } else {
            Fate::LoneAudio
        }
    } else if record_of(name) is Some && !has_audio(files, record_of(name)->0) {
        Fate::LoneRecord
    } else {
        Fate::Untouched
    }
}

/// The positions below `n` of the files of one fate.
pub open spec fn fated(files: Seq<TapeFile>, pid: nat, want: Fate, n: int) -> Seq<usize>
    decreases n,
{
    if n <= 0 {
        Seq::empty()
    } else if fate(files, pid, n - 1) == want {
        fated(files, pid, want, n - 1).push((n - 1) as usize)
    } else {
        fated(files, pid, want, n - 1)
    }
}

/// The order of ids over positions of audio files. A name opens with the minute it was made
/// in, so this is the order of age.
pub open spec fn age_order(files: Seq<TapeFile>) -> spec_fn(usize, usize) -> bool {
    |x: usize, y: usize|
        before(audio_of(files[x as int].name@)->0, audio_of(files[y as int].name@)->0) || (
        audio_of(files[x as int].name@)->0 == audio_of(files[y as int].name@)->0 && x <= y)
}

/// What a sweep must make of a directory.
pub open spec fn views(v: SweepView, files: Seq<TapeFile>, pid: nat) -> bool {
    let n = files.len() as int;
    &&& v.foreign@ == fated(files, pid, Fate::Foreign, n)
    &&& v.lone_records@ == fated(files, pid, Fate::LoneRecord, n)
    &&& v.lone_audio@ == fated(files, pid, Fate::LoneAudio, n)
    &&& v.pairs@ == fated(files, pid, Fate::Pair, n).sort_by(age_order(files))
}

/// Audio files are put in order by a total order.
pub proof fn age_order_is_total(files: Seq<TapeFile>)
    ensures
        total_ordering(age_order(files)),
{
    let r = age_order(files);
    let f = |x: usize| audio_of(files[x as int].name@)->0;
    assert forall|x: usize, y: usize, z: usize| #[trigger] r(x, y) && #[trigger] r(y, z) implies r(
        x,
        z,
    ) by {
        if before(f(x), f(y)) && before(f(y), f(z)) {
            before_is_transitive(f(x), f(y), f(z));
        }
    }
    assert forall|x: usize, y: usize| #[trigger] r(x, y) && #[trigger] r(y, x) implies x == y by {
        before_is_total(f(x), f(y));
        before_is_irreflexive(f(x));
    }
    assert forall|x: usize, y: usize| #[trigger] r(x, y) || #[trigger] r(y, x) by {
        before_is_total(f(x), f(y));
    }
}

/// The name before an extension.
fn strip(name: &str, ext: &str) -> (r: Option<String>)
    ensures
        r is Some <==> stem_before(name@, ext@) is Some,
        r is Some ==> r->0@ == stem_before(name@, ext@)->0,
{
    let ns: Vec<char> = chars_of(name);
    let es: Vec<char> = chars_of(ext);
    if ns.len() <= es.len() {
        return None;
    }
    let n: usize = ns.len() - es.len() - 1;
    if ns[n] != '.' {
        return None;
    }
    let ghost tail = name@.skip(n + 1);
    for k in 0..es.len()
        invariant
            ns@ == name@,
            es@ == ext@,
            n + 1 + es@.len() == ns@.len(),
            tail == name@.skip(n + 1),
            forall|j: int| 0 <= j < k ==> es@[j] == tail[j],
    {
        assert(ns@.len() == ns.len());
        if ns[n + 1 + k] != es[k] {
            assert(tail[k as int] != ext@[k as int]);
            return None;
        }
    }
    assert(tail =~= ext@);
    let mut head: Vec<char> = Vec::new();
    for k in 0..n
        invariant
            n <= ns@.len(),
            head@ =~= ns@.take(k as int),
    {
        head.push(ns[k]);
    }
    Some(string_of(head.as_slice()))
}

/// The id whose audio a file is.
fn audio_id(name: &str) -> (r: Option<String>)
    ensures
        r is Some <==> audio_of(name@) is Some,
        r is Some ==> r->0@ == audio_of(name@)->0,
{
    if has_prefix(name, "tmp.") {
        return None;
    }
    strip(name, SEGMENT_EXT)
}

/// Whether a file is another process's dump.
fn foreign(name: &str, pid: u32) -> (r: bool)
    ensures
        r == is_foreign(name@, pid as nat),
{
    let mut own: String = "tmp.".to_owned();
    push_decimal(&mut own, pid as u64);
    own.push('.');
    assert(own@ =~= own_prefix(pid as nat));
    strip(name, SEGMENT_EXT).is_some() && has_prefix(name, "tmp.") && !has_prefix(
        name,
        own.as_str(),
    )
}

/// Whether some file is the audio of an id.
fn audio_exists(files: &Vec<TapeFile>, id: &String) -> (r: bool)
    ensures
        r == has_audio(files@, id@),
{
    for k in 0..files.len()
        invariant
            forall|j: int| 0 <= j < k ==> audio_of((#[trigger] files@[j]).name@) != Some(id@),
    {
        match audio_id(files[k].name.as_str()) {
            Some(s) => {
                if s == *id {
                    assert(audio_of(files@[k as int].name@) == Some(id@));
                    return true;
                }
            },
            None => {},
        }
    }
    false
}

/// Whether some file is the record of an id.
fn record_exists(files: &Vec<TapeFile>, id: &String) -> (r: bool)
    ensures
        r == has_record(files@, id@),
{
    for k in 0..files.len()
        invariant
            forall|j: int| 0 <= j < k ==> record_of((#[trigger] files@[j]).name@) != Some(id@),
    {
        match strip(files[k].name.as_str(), SIDECAR_EXT) {
            Some(s) => {
                if s == *id {
                    assert(record_of(files@[k as int].name@) == Some(id@));
                    return true;
                }
            },
            None => {},
        }
    }
    false
}

/// What a file is to a sweep.
fn judge(files: &Vec<TapeFile>, pid: u32, k: usize) -> (r: Fate)
    requires
        k < files@.len(),
    ensures
        r == fate(files@, pid as nat, k as int),
{
    let name: &str = files[k].name.as_str();
    if foreign(name, pid) {
        return Fate::Foreign;
    }
    match audio_id(name) {
        Some(id) => {
            if record_exists(files, &id) {
                Fate::Pair
            } else {
                Fate::LoneAudio
            }
        },
        None => match strip(name, SIDECAR_EXT) {
            Some(id) => {
                if audio_exists(files, &id) {
                    Fate::Untouched
                } else {
                    Fate::LoneRecord
                }
            },
            None => Fate::Untouched,
        },
    }
}

/// The files of one fate are of that fate, each once.
pub proof fn fated_are_so(files: Seq<TapeFile>, pid: nat, want: Fate, n: int)
    requires
        0 <= n <= files.len() <= usize::MAX,
    ensures
        forall|k: int|
            0 <= k < fated(files, pid, want, n).len() ==> (#[trigger] fated(
                files,
                pid,
                want,
                n,
            )[k]) < n && fate(files, pid, fated(files, pid, want, n)[k] as int) == want,
        fated(files, pid, want, n).no_duplicates(),
    decreases n,
{
    if n > 0 {
        fated_are_so(files, pid, want, n - 1);
        let was = fated(files, pid, want, n - 1);
        let now = fated(files, pid, want, n);
        assert forall|k: int| 0 <= k < now.len() implies (#[trigger] now[k]) < n && fate(
            files,
            pid,
            now[k] as int,
        ) == want by {
            if k < was.len() {
                assert(now[k] == was[k]);
            }
        }
        assert forall|i: int, j: int| 0 <= i < now.len() && 0 <= j < now.len() && i != j implies
            now[i] != now[j] by {
            if i < was.len() {
                assert(now[i] == was[i]);
            }
            if j < was.len() {
                assert(now[j] == was[j]);
            }
        }
    }
}

/// Puts audio files in order of age.
fn by_age(files: &Vec<TapeFile>, at: &Vec<usize>) -> (r: Vec<usize>)
    requires
        forall|k: int| 0 <= k < at@.len() ==> (#[trigger] at@[k]) < files@.len(),
        forall|k: int|
            0 <= k < at@.len() ==> audio_of(files@[(#[trigger] at@[k]) as int].name@) is Some,
    ensures
        r@ == at@.sort_by(age_order(files@)),
{
    let mut ids: Vec<String> = Vec::new();
    for k in 0..files.len()
        invariant
            ids@.len() == k,
            forall|j: int|
                0 <= j < k && audio_of((#[trigger] files@[j]).name@) is Some ==> ids@[j]@
                    == audio_of(files@[j].name@)->0,
    {
        match audio_id(files[k].name.as_str()) {
            Some(s) => {
                ids.push(s);
            },
            None => {
                ids.push(String::new());
            },
        }
    }
    let ghost leq = age_order(files@);
    assert forall|x: usize, y: usize|
        x < files@.len() && y < files@.len() && audio_of(files@[x as int].name@) is Some
            && audio_of(files@[y as int].name@) is Some implies #[trigger] leq(x, y) == (before(
        ids@[x as int]@,
        ids@[y as int]@,
    ) || (ids@[x as int]@ == ids@[y as int]@ && x <= y)) by {}
    let older = |x: usize, y: usize| -> (b: bool)
        requires
            x < files@.len(),
            y < files@.len(),
            audio_of(files@[x as int].name@) is Some,
            audio_of(files@[y as int].name@) is Some,
        ensures
            b == leq(x, y),
        {
            comes_before(ids[x].as_str(), ids[y].as_str()) || (ids[x] == ids[y] && x <= y)
        };
    proof {
        age_order_is_total(files@);
    }
    sort_positions(at, older, Ghost(leq))
}

/// Looks over the tape's directory: which files are half of a pair, or a dead process's
/// dump, and which pairs there are, oldest first. Anything else is left alone.
pub fn view_directory(files: &Vec<TapeFile>, pid: u32) -> (r: SweepView)
    ensures
        views(r, files@, pid as nat),
{
    let mut foreign: Vec<usize> = Vec::new();
    let mut lone_records: Vec<usize> = Vec::new();
    let mut lone_audio: Vec<usize> = Vec::new();
    let mut paired: Vec<usize> = Vec::new();
    for k in 0..files.len()
        invariant
            foreign@ == fated(files@, pid as nat, Fate::Foreign, k as int),
            lone_records@ == fated(files@, pid as nat, Fate::LoneRecord, k as int),
            lone_audio@ == fated(files@, pid as nat, Fate::LoneAudio, k as int),
            paired@ == fated(files@, pid as nat, Fate::Pair, k as int),
    {
        match judge(files, pid, k) {
            Fate::Foreign => {
                foreign.push(k);
            },
            Fate::LoneRecord => {
                lone_records.push(k);
            },
            Fate::LoneAudio => {
                lone_audio.push(k);
            },
            Fate::Pair => {
                paired.push(k);
            },
            Fate::Untouched => {},
        }
    }
    proof {
        assert(files@.len() == files.len());
        fated_are_so(files@, pid as nat, Fate::Pair, files@.len() as int);
        assert forall|k: int| 0 <= k < paired@.len() implies audio_of(
            files@[(#[trigger] paired@[k]) as int].name@,
        ) is Some by {
            assert(fate(files@, pid as nat, paired@[k] as int) == Fate::Pair);
        }
    }
    let pairs: Vec<usize> = by_age(files, &paired);
    SweepView { foreign, lone_records, lone_audio, pairs }
}

/// A file that is neither a segment's audio, nor a record, nor a dump is never touched; nor is
/// a dump of this process, nor a pair that is whole.
pub proof fn strangers_are_left_alone(files: Seq<TapeFile>, pid: nat, k: int)
    requires
        0 <= k < files.len(),
    ensures
        stem_before(files[k].name@, SEGMENT_EXT@) is None && record_of(files[k].name@) is None
            ==> fate(files, pid, k) == Fate::Untouched,
        own_prefix(pid).is_prefix_of(files[k].name@) && stem_before(
            files[k].name@,
            SEGMENT_EXT@,
        ) is Some ==> fate(files, pid, k) == Fate::Untouched,
        record_of(files[k].name@) is Some && has_audio(files, record_of(files[k].name@)->0)
            && stem_before(files[k].name@, SEGMENT_EXT@) is None ==> fate(files, pid, k)
            == Fate::Untouched,
{
    let name = files[k].name@;
    if own_prefix(pid).is_prefix_of(name) {
        let own = own_prefix(pid);
        assert("tmp."@ =~= own.subrange(0, "tmp."@.len() as int));
        assert("tmp."@ =~= name.subrange(0, "tmp."@.len() as int)) by {
            assert(own == name.subrange(0, own.len() as int));
            assert forall|i: int| 0 <= i < "tmp."@.len() implies "tmp."@[i] == name[i] by {
                assert(own[i] == name.subrange(0, own.len() as int)[i]);
            }
        }
        if stem_before(name, SEGMENT_EXT@) is Some && record_of(name) is Some {
            extensions_differ(name);
        }
    }
}

proof fn extensions_differ(name: Seq<char>)
    requires
        stem_before(name, SEGMENT_EXT@) is Some,
    ensures
        record_of(name) is None,
{
    reveal_strlit("mkv");
    reveal_strlit("toml");
    if record_of(name) is Some {
        let a = name.skip(name.len() - 3);
        let b = name.skip(name.len() - 4);
        assert(a[2] == 'v');
        assert(b[3] == 'l');
        assert(a[2] == name[name.len() - 1]);
        assert(b[3] == name[name.len() - 1]);
    }
}

/// Every committed segment id of the directory, newest last: audio whose record is not there
/// is what an interrupted commit left.
pub fn segment_ids(files: &Vec<TapeFile>) -> (r: Vec<String>)
    ensures
        ({
            let at = committed(files@, files@.len() as int).sort_by(age_order(files@));
            &&& r@.len() == at.len()
            &&& forall|k: int|
                0 <= k < r@.len() ==> audio_of(files@[at[k] as int].name@) == Some(
                    (#[trigger] r@[k])@,
                )
        }),
{
    let mut at: Vec<usize> = Vec::new();
    for k in 0..files.len()
        invariant
            at@ == committed(files@, k as int),
            forall|j: int| 0 <= j < at@.len() ==> (#[trigger] at@[j]) < k,
            forall|j: int|
                0 <= j < at@.len() ==> audio_of(files@[(#[trigger] at@[j]) as int].name@) is Some,
    {
        match audio_id(files[k].name.as_str()) {
            Some(id) => {
                if record_exists(files, &id) {
                    at.push(k);
                }
            },
            None => {},
        }
    }
    let order: Vec<usize> = by_age(files, &at);
    proof {
        age_order_is_total(files@);
        sorting_keeps_elements(at@, age_order(files@));
    }
    let mut out: Vec<String> = Vec::new();
    for k in 0..order.len()
        invariant
            forall|j: int| 0 <= j < at@.len() ==> (#[trigger] at@[j]) < files@.len(),
            forall|j: int|
                0 <= j < at@.len() ==> audio_of(files@[(#[trigger] at@[j]) as int].name@) is Some,
            forall|x: usize| order@.contains(x) <==> at@.contains(x),
            out@.len() == k,
            forall|j: int|
                0 <= j < k ==> audio_of(files@[order@[j] as int].name@) == Some(
                    (#[trigger] out@[j])@,
                ),
    {
        assert(order@.contains(order@[k as int]));
        assert(at@.contains(order@[k as int]));
        proof {
            let m = choose|m: int| 0 <= m < at@.len() && at@[m] == order@[k as int];
            assert(audio_of(files@[at@[m] as int].name@) is Some);
        }
        match audio_id(files[order[k]].name.as_str()) {
            Some(s) => {
                out.push(s);
            },
            None => {
                assert(false);
            },
        }
    }
    out
}

/// The positions below `n` of audio files with a record.
pub open spec fn committed(files: Seq<TapeFile>, n: int) -> Seq<usize>
    decreases n,
{
    if n <= 0 {
        Seq::empty()
    } else if audio_of(files[n - 1].name@) is Some && has_record(
        files,
        audio_of(files[n - 1].name@)->0,
    ) {
        committed(files, n - 1).push((n - 1) as usize)
    } else {
        committed(files, n - 1)
    }
}

/// The committed segments are the pairs of a sweep, whichever process looks.
pub proof fn committed_segments_are_the_pairs(files: Seq<TapeFile>, pid: nat, n: int)
    requires
        0 <= n <= files.len(),
    ensures
        committed(files, n) == fated(files, pid, Fate::Pair, n),
    decreases n,
{
    if n > 0 {
        committed_segments_are_the_pairs(files, pid, n - 1);
    }
}

/// A whole segment.
#[derive(Debug)]
pub struct Pair {
    pub id: String,
    pub bytes: u64,
    /// Pinned against eviction.
    pub keep: bool,
}

/// The segment whose audio is a file of the directory; `keep` is what its record says.
pub fn pair_at(files: &Vec<TapeFile>, at: usize, keep: bool) -> (r: Option<Pair>)
    requires
        at < files@.len(),
    ensures
        r is Some <==> audio_of(files@[at as int].name@) is Some,
        r matches Some(p) ==> p.id@ == audio_of(files@[at as int].name@)->0 && p.bytes
            == files@[at as int].bytes && p.keep == keep,
{
    match audio_id(files[at].name.as_str()) {
        Some(id) => Some(Pair { id, bytes: files[at].bytes, keep }),
        None => None,
    }
}

/// Bytes of the first `n` pairs.
pub open spec fn pair_bytes(pairs: Seq<Pair>, n: int) -> int
    decreases n,
{
    if n <= 0 {
        0
    } else {
        pair_bytes(pairs, n - 1) + pairs[n - 1].bytes
    }
}

/// How far a sweep of pairs got.
pub struct Swept {
    /// Which ones go.
    pub gone: Seq<usize>,
    /// Bytes that remain.
    pub bytes: int,
    /// Pairs that remain.
    pub left: int,
}

/// The sweep over the first `k` pairs: each goes, unless it is pinned, as long as the rest is
/// over the budget and more than the least number of pairs remains.
pub open spec fn swept(pairs: Seq<Pair>, max_bytes: int, keep_min: int, k: int) -> Swept
    decreases k,
{
    if k <= 0 {
        Swept {
            gone: Seq::empty(),
            bytes: pair_bytes(pairs, pairs.len() as int),
            left: pairs.len() as int,
        }
    } else {
        let s = swept(pairs, max_bytes, keep_min, k - 1);
        if s.bytes <= max_bytes || s.left <= keep_min || pairs[k - 1].keep {
            s
        } else {
            Swept {
                gone: s.gone.push((k - 1) as usize),
                bytes: s.bytes - pairs[k - 1].bytes,
                left: s.left - 1,
            }
        }
    }
}

/// The least number of pairs that is kept, never none.
pub open spec fn least_kept(keep_min: u32) -> int {
    if keep_min == 0 {
        1
    } else {
        keep_min as int
    }
}

/// Bytes of the pinned ones among the first `n` pairs.
pub open spec fn kept_bytes(pairs: Seq<Pair>, n: int) -> int
    decreases n,
{
    if n <= 0 {
        0
    } else if pairs[n - 1].keep {
        kept_bytes(pairs, n - 1) + pairs[n - 1].bytes
    } else {
        kept_bytes(pairs, n - 1)
    }
}

proof fn pins_are_part_of_all(pairs: Seq<Pair>, n: int)
    requires
        0 <= n <= pairs.len(),
    ensures
        0 <= kept_bytes(pairs, n) <= pair_bytes(pairs, n),
    decreases n,
{
    if n > 0 {
        pins_are_part_of_all(pairs, n - 1);
    }
}

proof fn pins_stay_counted(pairs: Seq<Pair>, max_bytes: int, keep_min: int, k: int)
    requires
        0 <= k <= pairs.len(),
    ensures
        swept(pairs, max_bytes, keep_min, k).bytes >= kept_bytes(pairs, k) + pair_bytes(
            pairs,
            pairs.len() as int,
        ) - pair_bytes(pairs, k),
    decreases k,
{
    if k > 0 {
        pins_stay_counted(pairs, max_bytes, keep_min, k - 1);
    }
}

/// Pins alone over the budget leave it exceeded, whatever else goes; and a sweep that leaves it
/// exceeded with more than the least number of pairs did so for the pins alone.
pub proof fn pins_alone_may_exceed_the_budget(pairs: Seq<Pair>, max_bytes: int, keep_min: int)
    ensures
        ({
            let s = swept(pairs, max_bytes, keep_min, pairs.len() as int);
            &&& kept_bytes(pairs, pairs.len() as int) <= s.bytes
            &&& s.bytes > max_bytes && s.left > keep_min ==> s.bytes == kept_bytes(
                pairs,
                pairs.len() as int,
            )
        }),
{
    pins_stay_counted(pairs, max_bytes, keep_min, pairs.len() as int);
    unfinished_sweeps_leave_pins(pairs, max_bytes, keep_min, pairs.len() as int);
}

proof fn unfinished_sweeps_leave_pins(pairs: Seq<Pair>, max_bytes: int, keep_min: int, k: int)
    requires
        0 <= k <= pairs.len(),
    ensures
        ({
            let s = swept(pairs, max_bytes, keep_min, k);
            s.bytes > max_bytes && s.left > keep_min ==> s.bytes == kept_bytes(pairs, k)
                + pair_bytes(pairs, pairs.len() as int) - pair_bytes(pairs, k)
        }),
    decreases k,
{
    if k > 0 {
        unfinished_sweeps_leave_pins(pairs, max_bytes, keep_min, k - 1);
    }
}

proof fn sweeps_stay_natural(pairs: Seq<Pair>, max_bytes: int, keep_min: int, k: int)
    requires
        0 <= k <= pairs.len(),
    ensures
        swept(pairs, max_bytes, keep_min, k).bytes >= pair_bytes(pairs, pairs.len() as int)
            - pair_bytes(pairs, k),
        swept(pairs, max_bytes, keep_min, k).left >= pairs.len() - k,
        swept(pairs, max_bytes, keep_min, k).left == pairs.len() - swept(
            pairs,
            max_bytes,
            keep_min,
            k,
        ).gone.len(),
        swept(pairs, max_bytes, keep_min, k).bytes <= pair_bytes(pairs, pairs.len() as int),
        swept(pairs, max_bytes, keep_min, k).gone.len() <= k,
    decreases k,
{
    if k > 0 {
        sweeps_stay_natural(pairs, max_bytes, keep_min, k - 1);
    }
}

proof fn bytes_add_up(pairs: Seq<Pair>, m: int, n: int)
    requires
        0 <= m <= n <= pairs.len(),
    ensures
        0 <= pair_bytes(pairs, m) <= pair_bytes(pairs, n),
    decreases n,
{
    if m < n {
        bytes_add_up(pairs, m, n - 1);
    } else if n > 0 {
        bytes_add_up(pairs, m - 1, n - 1);
    }
}

/// Decides which pairs go, oldest first, until the rest fits the budget. A pinned pair counts
/// against the budget but never goes, and some pair always stays. `orphans` is how many halves
/// and dead dumps were already removed.
pub fn sweep(pairs: &Vec<Pair>, max_bytes: u64, keep_min: u32, orphans: usize) -> (r: (
    Vec<usize>,
    SweepReport,
))
    requires
        pair_bytes(pairs@, pairs@.len() as int) <= u64::MAX,
    ensures
        ({
            let s = swept(pairs@, max_bytes as int, least_kept(keep_min), pairs@.len() as int);
            &&& r.0@ == s.gone
            &&& r.1.removed == s.gone.len()
            &&& r.1.orphans == orphans
            &&& r.1.bytes == s.bytes
            &&& r.1.over_budget_on_pins == (kept_bytes(pairs@, pairs@.len() as int) > max_bytes)
        }),
{
    let min: usize = if keep_min == 0 {
        1
    } else {
        keep_min as usize
    };
    let n: usize = pairs.len();
    let mut total: u64 = 0;
    let mut kept: u64 = 0;
    for k in 0..n
        invariant
            n == pairs@.len(),
            pair_bytes(pairs@, pairs@.len() as int) <= u64::MAX,
            total == pair_bytes(pairs@, k as int),
            kept == kept_bytes(pairs@, k as int),
    {
        proof {
            bytes_add_up(pairs@, k + 1, n as int);
            pins_are_part_of_all(pairs@, k + 1);
        }
        total = total + pairs[k].bytes;
        if pairs[k].keep {
            kept = kept + pairs[k].bytes;
        }
    }
    let mut gone: Vec<usize> = Vec::new();
    let mut left: usize = n;
    for k in 0..n
        invariant
            n == pairs@.len(),
            min == least_kept(keep_min),
            ({
                let s = swept(pairs@, max_bytes as int, min as int, k as int);
                gone@ == s.gone && total == s.bytes && left == s.left
            }),
    {
        proof {
            sweeps_stay_natural(pairs@, max_bytes as int, min as int, k as int);
            bytes_add_up(pairs@, k + 1, n as int);
        }
        if !pairs[k].keep && total > max_bytes && left > min {
            gone.push(k);
            total = total - pairs[k].bytes;
            left = left - 1;
        }
    }
    proof {
        sweeps_stay_natural(pairs@, max_bytes as int, min as int, n as int);
    }
    let report: SweepReport = SweepReport {
        removed: gone.len(),
        orphans,
        bytes: total,
        over_budget_on_pins: kept > max_bytes,
    };
    (gone, report)
}

/// A sweep never deletes a pinned pair, never goes below the least number of pairs, and goes
/// oldest first: of what it removed nothing older and unpinned was spared.
pub proof fn sweeps_spare_what_they_must(
    pairs: Seq<Pair>,
    max_bytes: int,
    keep_min: int,
    k: int,
)
    requires
        0 <= k <= pairs.len() <= usize::MAX,
        keep_min >= 1,
    ensures
        ({
            let s = swept(pairs, max_bytes, keep_min, k);
            &&& s.left >= earlier_of(keep_min, pairs.len() as int)
            &&& forall|i: int|
                0 <= i < s.gone.len() ==> (#[trigger] s.gone[i]) < k && !pairs[s.gone[i] as int].keep
            &&& forall|i: int, j: int|
                0 <= i < s.gone.len() && 0 <= j < (#[trigger] s.gone[i]) && !(
                #[trigger] pairs[j]).keep ==> s.gone.contains(j as usize)
            &&& forall|i: int, j: int|
                0 <= i < j < s.gone.len() ==> #[trigger] s.gone[i] < #[trigger] s.gone[j]
            &&& s.bytes > max_bytes && s.left > keep_min ==> forall|j: int|
                0 <= j < k && !(#[trigger] pairs[j]).keep ==> s.gone.contains(j as usize)
        }),
    decreases k,
{
    if k > 0 {
        sweeps_spare_what_they_must(pairs, max_bytes, keep_min, k - 1);
        let was = swept(pairs, max_bytes, keep_min, k - 1);
        let now = swept(pairs, max_bytes, keep_min, k);
        if now.gone.len() > was.gone.len() {
            assert(now.gone.last() == (k - 1) as usize);
            assert forall|j: int| 0 <= j < k && !(#[trigger] pairs[j]).keep implies
                now.gone.contains(j as usize) by {
                if j < k - 1 {
                    assert(was.gone.contains(j as usize));
                    let m = choose|m: int|
                        0 <= m < was.gone.len() && was.gone[m] == j as usize;
                    assert(now.gone[m] == j as usize);
                } else {
                    assert(now.gone[now.gone.len() - 1] == j as usize);
                }
            }
            assert forall|i: int| 0 <= i < now.gone.len() implies (#[trigger] now.gone[i]) < k
                && !pairs[now.gone[i] as int].keep by {
                if i < was.gone.len() {
                    assert(now.gone[i] == was.gone[i]);
                }
            }
            assert forall|i: int, j: int|
                0 <= i < j < now.gone.len() implies #[trigger] now.gone[i]
                < #[trigger] now.gone[j] by {
                assert(now.gone[i] == was.gone[i]);
                if j < was.gone.len() {
                    assert(now.gone[j] == was.gone[j]);
                }
            }
            assert forall|i: int, j: int|
                0 <= i < now.gone.len() && 0 <= j < (#[trigger] now.gone[i]) && !(
                #[trigger] pairs[j]).keep implies now.gone.contains(j as usize) by {}
        }
    }
}

/// The smaller of two numbers.
pub open spec fn earlier_of(a: int, b: int) -> int {
    if a <= b {
        a
    } else {
        b
    }
}

/// Bytes of the pairs at some positions.
pub open spec fn bytes_at(pairs: Seq<Pair>, at: Seq<usize>) -> int
    decreases at.len(),
{
    if at.len() == 0 {
        0
    } else {
        bytes_at(pairs, at.drop_last()) + pairs[at.last() as int].bytes
    }
}

/// What a sweep reports as remaining is what there was less what it removed.
pub proof fn sweeps_count_what_remains(pairs: Seq<Pair>, max_bytes: int, keep_min: int, k: int)
    requires
        0 <= k <= pairs.len() <= usize::MAX,
    ensures
        swept(pairs, max_bytes, keep_min, k).bytes == pair_bytes(pairs, pairs.len() as int)
            - bytes_at(pairs, swept(pairs, max_bytes, keep_min, k).gone),
        swept(pairs, max_bytes, keep_min, k).left == pairs.len() - swept(
            pairs,
            max_bytes,
            keep_min,
            k,
        ).gone.len(),
    decreases k,
{
    if k > 0 {
        sweeps_count_what_remains(pairs, max_bytes, keep_min, k - 1);
        let was = swept(pairs, max_bytes, keep_min, k - 1);
        let now = swept(pairs, max_bytes, keep_min, k);
        if now.gone.len() > was.gone.len() {
            assert(now.gone.drop_last() =~= was.gone);
        }
    }
}

/// A sweep that leaves the budget exceeded had no choice: what remains is the least number of
/// pairs, or pinned to the last one.
pub proof fn sweeps_go_as_far_as_they_may(pairs: Seq<Pair>, max_bytes: int, keep_min: int)
    requires
        pairs.len() <= usize::MAX,
        keep_min >= 1,
    ensures
        ({
            let s = swept(pairs, max_bytes, keep_min, pairs.len() as int);
            s.bytes <= max_bytes || s.left <= keep_min || forall|j: int|
                0 <= j < pairs.len() && !(#[trigger] pairs[j]).keep ==> s.gone.contains(j as usize)
        }),
{
    sweeps_spare_what_they_must(pairs, max_bytes, keep_min, pairs.len() as int);
}

} // verus!
