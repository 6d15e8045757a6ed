//! What a kept segment is called, and where its two files go.
//!
//! A name has one of two shapes, and the shape is the claim: a window asserts a station, a
//! minute and a duration; a track asserts a track, and has to earn it.
use crate::paths::{decimals_are_digits, dot, dotted, join, joined, tmp_file, tmp_file_name};
use crate::scan::names_it;
use crate::tape::{Cut, TRACK_SHAPE_PROVEN};
use crate::text::{
    char_is_alnum, char_lower, chars_of, decimal, decimals_tell_numbers_apart, is_alnum, is_digit,
    lower, push_decimal, string_of,
};
use vstd::prelude::*;
use vstd::set_lib::{lemma_int_range, lemma_len_subset, set_int_range};

verus! {

/// The longest slug, in bytes. Its characters are all ASCII, one byte each.
pub const SLUG_MAX_BYTES: usize = 48;

/// The station of a name when nothing better is known.
pub const UNKNOWN_STATION: &'static str = "stream";

/// The extension of a segment's audio.
pub const SEGMENT_EXT: &'static str = "mkv";

/// The extension of a segment's record, which is written last.
pub const SIDECAR_EXT: &'static str = "toml";

/// The ownership marker: its presence says that the directory is the tape's to sweep.
pub const TAPE_MARKER_NAME: &'static str = ".hypodj-tape";

/// The slug of a text, however long: its ASCII letters and digits in lower case, and one
/// hyphen for each stretch of anything else between two of them.
pub open spec fn full_slug(s: Seq<char>) -> Seq<char>
    decreases s.len(),
{
    if s.len() == 0 {
        Seq::empty()
    } else {
        let rest = full_slug(s.drop_last());
        if !is_alnum(s.last()) {
            rest
        } else if rest.len() > 0 && !is_alnum(s[s.len() - 2]) {
            rest.push('-').push(lower(s.last()))
        } else {
            rest.push(lower(s.last()))
        }
    }
}

/// A text without the hyphens at its end.
pub open spec fn unhyphened(s: Seq<char>) -> Seq<char>
    decreases s.len(),
{
    if s.len() > 0 && s.last() == '-' {
        unhyphened(s.drop_last())
    } else {
        s
    }
}

/// At most the first `n` of a text.
pub open spec fn at_most(s: Seq<char>, n: int) -> Seq<char> {
    if s.len() > n {
        s.take(n)
    } else {
        s
    }
}

/// The slug of a text.
pub open spec fn slug_of(s: Seq<char>) -> Seq<char> {
    unhyphened(at_most(full_slug(s), SLUG_MAX_BYTES as int))
}

/// A text of lower-case letters, digits and single hyphens, with none at either end.
pub open spec fn is_slug(s: Seq<char>) -> bool {
    &&& forall|i: int|
        0 <= i < s.len() ==> (#[trigger] s[i] == '-' || (is_alnum(s[i]) && lower(s[i]) == s[i]))
    &&& s.len() > 0 ==> s[0] != '-' && s.last() != '-'
    &&& forall|i: int| 0 < i < s.len() && #[trigger] s[i] == '-' ==> s[i - 1] != '-'
}

proof fn lowered_stays(c: char)
    requires
        is_alnum(c),
    ensures
        is_alnum(lower(c)),
        lower(lower(c)) == lower(c),
        lower(c) != '-',
{
}

proof fn full_slugs_are_slugs(s: Seq<char>)
    ensures
        is_slug(full_slug(s)),
    decreases s.len(),
{
    if s.len() > 0 {
        full_slugs_are_slugs(s.drop_last());
        if is_alnum(s.last()) {
            lowered_stays(s.last());
            let rest = full_slug(s.drop_last());
            let now = full_slug(s);
            assert forall|i: int| 0 <= i < now.len() implies (#[trigger] now[i] == '-' || (is_alnum(
                now[i],
            ) && lower(now[i]) == now[i])) by {
                if i < rest.len() {
                    assert(now[i] == rest[i]);
                }
            }
            assert forall|i: int| 0 < i < now.len() && #[trigger] now[i] == '-' implies now[i - 1]
                != '-' by {
                if i < rest.len() {
                    assert(now[i] == rest[i]);
                    assert(now[i - 1] == rest[i - 1]);
                } else {
                    assert(now[i - 1] == rest.last());
                }
            }
            if rest.len() > 0 {
                assert(now[0] == rest[0]);
            }
        }
    }
}

proof fn cutting_keeps_slugs(s: Seq<char>, n: int)
    requires
        is_slug(s),
        0 <= n,
    ensures
        is_slug(unhyphened(at_most(s, n))),
        unhyphened(at_most(s, n)).len() <= n,
{
    let t = at_most(s, n);
    if t.len() > 0 && t.last() == '-' {
        let u = t.drop_last();
        if u.len() > 0 {
            assert(s[t.len() - 1] == '-');
            assert(u.last() == s[t.len() - 2]);
        } else {
            assert(s[0] == '-');
        }
        assert(unhyphened(u) == u);
        assert(unhyphened(t) == u);
        assert forall|i: int| 0 < i < u.len() && #[trigger] u[i] == '-' implies u[i - 1] != '-' by {
            assert(s[i] == '-');
        }
        assert forall|i: int| 0 <= i < u.len() implies (#[trigger] u[i] == '-' || (is_alnum(u[i])
            && lower(u[i]) == u[i])) by {
            assert(u[i] == s[i]);
        }
    } else {
        assert forall|i: int| 0 < i < t.len() && #[trigger] t[i] == '-' implies t[i - 1] != '-' by {
            assert(s[i] == '-');
        }
        assert forall|i: int| 0 <= i < t.len() implies (#[trigger] t[i] == '-' || (is_alnum(t[i])
            && lower(t[i]) == t[i])) by {
            assert(t[i] == s[i]);
        }
    }
}

/// A full slug is empty exactly where the text has nothing to spell it from.
proof fn full_slugs_are_empty_of_nothing(s: Seq<char>)
    ensures
        full_slug(s).len() == 0 <==> forall|i: int| 0 <= i < s.len() ==> !is_alnum(#[trigger] s[i]),
    decreases s.len(),
{
    if s.len() > 0 {
        let t = s.drop_last();
        full_slugs_are_empty_of_nothing(t);
        if full_slug(s).len() == 0 {
            assert forall|i: int| 0 <= i < s.len() implies !is_alnum(#[trigger] s[i]) by {
                if i < t.len() {
                    assert(!is_alnum(t[i]));
                }
            }
        } else if forall|i: int| 0 <= i < s.len() ==> !is_alnum(#[trigger] s[i]) {
            assert(!is_alnum(s[s.len() - 1]));
            assert forall|i: int| 0 <= i < t.len() implies !is_alnum(#[trigger] t[i]) by {
                assert(!is_alnum(s[i]));
            }
        }
    }
}

proof fn a_first_letter_stays(s: Seq<char>)
    requires
        s.len() > 0,
        s[0] != '-',
    ensures
        unhyphened(s).len() > 0,
    decreases s.len(),
{
    if s.last() == '-' {
        a_first_letter_stays(s.drop_last());
    }
}

/// A slug is empty exactly where the text holds no ASCII letter or digit.
pub proof fn slugs_are_empty_of_nothing(s: Seq<char>)
    ensures
        slug_of(s).len() == 0 <==> forall|i: int| 0 <= i < s.len() ==> !is_alnum(#[trigger] s[i]),
{
    full_slugs_are_empty_of_nothing(s);
    full_slugs_are_slugs(s);
    if full_slug(s).len() > 0 {
        a_first_letter_stays(at_most(full_slug(s), SLUG_MAX_BYTES as int));
    }
}

/// A slug is safe in a file name: letters, digits and single hyphens only, none at either
/// end, and never too long.
pub proof fn slugs_are_slugs(s: Seq<char>)
    ensures
        is_slug(slug_of(s)),
        slug_of(s).len() <= SLUG_MAX_BYTES,
{
    full_slugs_are_slugs(s);
    cutting_keeps_slugs(full_slug(s), SLUG_MAX_BYTES as int);
}

proof fn slugs_stay(s: Seq<char>)
    requires
        forall|i: int|
            0 <= i < s.len() ==> (#[trigger] s[i] == '-' || (is_alnum(s[i]) && lower(s[i])
                == s[i])),
        s.len() > 0 ==> s[0] != '-',
        forall|i: int| 0 < i < s.len() && #[trigger] s[i] == '-' ==> s[i - 1] != '-',
    ensures
        full_slug(s) == (if s.len() > 0 && s.last() == '-' {
            s.drop_last()
        } else {
            s
        }),
    decreases s.len(),
{
    if s.len() > 0 {
        let t = s.drop_last();
        assert forall|i: int| 0 <= i < t.len() implies (#[trigger] t[i] == '-' || (is_alnum(t[i])
            && lower(t[i]) == t[i])) by {
            assert(t[i] == s[i]);
        }
        assert forall|i: int| 0 < i < t.len() && #[trigger] t[i] == '-' implies t[i - 1] != '-' by {
            assert(s[i] == '-');
        }
        slugs_stay(t);
        let c = s[s.len() - 1];
        assert(c == '-' || (is_alnum(c) && lower(c) == c));
        if c == '-' {
            assert(s[s.len() - 2] != '-');
            assert(t.last() == s[s.len() - 2]);
            assert(full_slug(s) =~= t);
        } else if t.len() > 0 && t.last() == '-' {
            assert(s[t.len() - 1] == '-');
            if t.len() == 1 {
                assert(s[0] == '-');
            }
            assert(t.drop_last().len() > 0);
            assert(full_slug(s) =~= t.drop_last().push('-').push(c));
            assert(full_slug(s) =~= s);
        } else {
            if t.len() > 0 {
                assert(s[t.len() - 1] != '-');
                assert(is_alnum(s[s.len() - 2]));
            }
            assert(full_slug(s) =~= s);
        }
    }
}

/// Slugging a slug changes nothing.
pub proof fn slugging_is_idempotent(s: Seq<char>)
    ensures
        slug_of(slug_of(s)) == slug_of(s),
{
    slugs_are_slugs(s);
    slugs_stay(slug_of(s));
}

proof fn slugs_extend(s: Seq<char>, i: int)
    requires
        0 <= i <= s.len(),
    ensures
        full_slug(s.take(i)).len() <= full_slug(s).len(),
        full_slug(s).take(full_slug(s.take(i)).len() as int) == full_slug(s.take(i)),
    decreases s.len(),
{
    if i == s.len() {
        assert(s.take(i) =~= s);
        assert(full_slug(s).take(full_slug(s).len() as int) =~= full_slug(s));
    } else {
        let t = s.drop_last();
        assert(t.take(i) =~= s.take(i));
        slugs_extend(t, i);
        let short = full_slug(s.take(i));
        assert(full_slug(s).take(short.len() as int) =~= short) by {
            assert(full_slug(t).take(short.len() as int) == short);
            assert forall|k: int| 0 <= k < short.len() implies full_slug(s)[k] == short[k] by {
                assert(full_slug(t).take(short.len() as int)[k] == short[k]);
            }
        }
    }
}

/// A name's safe part of a text: lower-case letters and digits, everything else collapsed to
/// single hyphens, none at the ends, and cut at a length.
pub fn slug(s: &str) -> (r: String)
    ensures
        r@ == slug_of(s@),
{
    let cs: Vec<char> = chars_of(s);
    let mut out: Vec<char> = Vec::new();
    let mut pending: bool = false;
    let mut i: usize = 0;
    assert(s@.take(s@.len() as int) =~= s@);
    while i < cs.len()
        invariant_except_break
            i <= cs@.len(),
            cs@ == s@,
            s@.take(s@.len() as int) == s@,
            out@ == full_slug(s@.take(i as int)),
            out@.len() <= SLUG_MAX_BYTES,
            pending == (i > 0 && !is_alnum(s@[i - 1])),
        ensures
            out@ == at_most(full_slug(s@), SLUG_MAX_BYTES as int),
        decreases cs@.len() - i,
    {
        let c: char = cs[i];
        let ghost upto = s@.take(i + 1);
        assert(upto.drop_last() =~= s@.take(i as int));
        assert(upto.last() == c);
        if i > 0 {
            assert(upto[upto.len() - 2] == s@[i - 1]);
        }
        if char_is_alnum(c) {
            let ghost rest = out@;
            if pending && out.len() > 0 && out.len() + 1 <= SLUG_MAX_BYTES {
                out.push('-');
            }
            pending = false;
            if out.len() + 1 > SLUG_MAX_BYTES {
                proof {
                    let next = full_slug(upto);
                    slugs_extend(s@, i + 1);
                    assert(next.len() > SLUG_MAX_BYTES);
                    assert(out@ =~= next.take(SLUG_MAX_BYTES as int));
                    assert(full_slug(s@).take(SLUG_MAX_BYTES as int) =~= next.take(
                        SLUG_MAX_BYTES as int,
                    )) by {
                        assert forall|k: int| 0 <= k < SLUG_MAX_BYTES implies full_slug(s@)[k]
                            == next[k] by {
                            assert(full_slug(s@).take(next.len() as int)[k] == next[k]);
                        }
                    }
                }
                break;
            }
            out.push(char_lower(c));
            assert(out@ =~= full_slug(upto));
        } else {
            pending = true;
        }
        i = i + 1;
    }
    let ghost cut = out@;
    while out.len() > 0 && out[out.len() - 1] == '-'
        invariant
            unhyphened(out@) == unhyphened(cut),
        decreases out@.len(),
    {
        let ghost was = out@;
        out.pop();
        assert(out@ =~= was.drop_last());
    }
    string_of(out.as_slice())
}

/// Whole seconds of a duration, to the nearest; none of one that is no number or negative.
pub open spec fn whole_secs(micros: Option<i64>) -> nat {
    match micros {
        Some(n) if n > 0 => ((n + 500_000) / 1_000_000) as nat,
        _ => 0,
    }
}

/// The station's part of a name.
pub open spec fn station_part(station: Option<Seq<char>>) -> Seq<char> {
    match station {
        Some(s) if slug_of(s).len() > 0 => slug_of(s),
        _ => UNKNOWN_STATION@,
    }
}

/// The name of a window.
pub open spec fn window_name(
    stamp: Seq<char>,
    station: Option<Seq<char>>,
    micros: Option<i64>,
) -> Seq<char> {
    stamp + "-"@ + station_part(station) + "-w"@ + decimal(whole_secs(micros)) + "s"@
}

/// The name of a track.
pub open spec fn track_name(
    stamp: Seq<char>,
    station: Option<Seq<char>>,
    title: Seq<char>,
) -> Seq<char> {
    stamp + "-"@ + station_part(station) + "-"@ + slug_of(title)
}

/// The name of a segment: a track's where the cut may name one and there is a title to name,
/// else a window's.
pub open spec fn name_of(
    proven: bool,
    cut: Cut,
    stamp: Seq<char>,
    station: Option<Seq<char>>,
    title: Option<Seq<char>>,
    micros: Option<i64>,
) -> Seq<char> {
    if proven && !(cut is Window) && title is Some && slug_of(title->0).len() > 0 {
        track_name(stamp, station, title->0)
    } else {
        window_name(stamp, station, micros)
    }
}

/// The view of an optional text.
pub open spec fn text_of(s: Option<&str>) -> Option<Seq<char>> {
    match s {
        Some(t) => Some(t@),
        None => None,
    }
}

/// Names a segment.
pub fn segment_name(
    cut: Cut,
    stamp: &str,
    station: Option<&str>,
    icy_title: Option<&str>,
    micros: Option<i64>,
) -> (r: String)
    ensures
        r@ == name_of(
            TRACK_SHAPE_PROVEN,
            cut,
            stamp@,
            text_of(station),
            text_of(icy_title),
            micros,
        ),
{
    segment_name_when(TRACK_SHAPE_PROVEN, cut, stamp, station, icy_title, micros)
}

/// Names a segment; `proven` says whether track names are earned.
pub fn segment_name_when(
    proven: bool,
    cut: Cut,
    stamp: &str,
    station: Option<&str>,
    icy_title: Option<&str>,
    micros: Option<i64>,
) -> (r: String)
    ensures
        r@ == name_of(proven, cut, stamp@, text_of(station), text_of(icy_title), micros),
{
    let mut name: String = stamp.to_owned();
    name.append("-");
    let known: Option<String> = match station {
        Some(s) => {
            let t: String = slug(s);
            if chars_of(t.as_str()).len() > 0 {
                Some(t)
            } else {
                None
            }
        },
        None => None,
    };
    match &known {
        Some(t) => {
            name.append(t.as_str());
        },
        None => {
            name.append(UNKNOWN_STATION);
        },
    }
    if cut.may_name_a_track_when(proven) {
        match icy_title {
            Some(title) => {
                let t: String = slug(title);
                if chars_of(t.as_str()).len() > 0 {
                    name.append("-");
                    name.append(t.as_str());
                    return name;
                }
            },
            None => {},
        }
    }
    let secs: u64 = match micros {
        Some(n) => if n > 0 {
            (n as u64 + 500_000) / 1_000_000
        } else {
            0
        },
        None => 0,
    };
    name.append("-w");
    push_decimal(&mut name, secs);
    name.append("s");
    name
}

/// A window's name says nothing of any title, whatever stands on air and whatever was proven.
pub proof fn window_names_carry_no_title(
    proven: bool,
    stamp: Seq<char>,
    station: Option<Seq<char>>,
    one: Option<Seq<char>>,
    other: Option<Seq<char>>,
    micros: Option<i64>,
)
    ensures
        name_of(proven, Cut::Window, stamp, station, one, micros) == name_of(
            proven,
            Cut::Window,
            stamp,
            station,
            other,
            micros,
        ),
{
}

/// As long as title changes are not known to land where they are heard, no name of any cut
/// carries a title.
pub proof fn unproven_names_are_windows(
    cut: Cut,
    stamp: Seq<char>,
    station: Option<Seq<char>>,
    title: Option<Seq<char>>,
    micros: Option<i64>,
)
    ensures
        name_of(false, cut, stamp, station, title, micros) == window_name(stamp, station, micros),
{
}

/// A directory whose name can be handed to the player in quotes.
pub open spec fn is_safe(root: Seq<char>) -> bool {
    forall|i: int|
        0 <= i < root.len() ==> (#[trigger] root[i]) != '"' && root[i] != '\\' && root[i] != '\n'
            && root[i] != '\r'
}

/// Whether a directory can be handed to the player's command line, which would mangle these
/// characters.
pub fn root_is_safe(root: &str) -> (r: bool)
    ensures
        r == is_safe(root@),
        r <==> !root@.contains('"') && !root@.contains('\\') && !root@.contains('\n')
            && !root@.contains('\r'),
{
    let cs: Vec<char> = chars_of(root);
    for i in 0..cs.len()
        invariant
            cs@ == root@,
            forall|j: int|
                0 <= j < i ==> #[trigger] root@[j] != '"' && root@[j] != '\\' && root@[j] != '\n'
                    && root@[j] != '\r',
    {
        let c: char = cs[i];
        if c == '"' || c == '\\' || c == '\n' || c == '\r' {
            assert(root@[i as int] == c);
            return false;
        }
    }
    true
}

/// An in-flight dump's path: its leaf is ASCII by construction.
pub fn tmp_path(root: &str, pid: u32, seq: u64) -> (r: String)
    ensures
        r@ == joined(root@, dotted(tmp_file(pid as nat, seq as nat), SEGMENT_EXT@)),
{
    let stem: String = tmp_file_name(pid, seq);
    let leaf: String = dot(stem.as_str(), SEGMENT_EXT);
    join(root, leaf.as_str())
}

/// The audio of a segment.
pub fn segment_path(root: &str, id: &str) -> (r: String)
    ensures
        r@ == joined(root@, dotted(id@, SEGMENT_EXT@)),
{
    let leaf: String = dot(id, SEGMENT_EXT);
    join(root, leaf.as_str())
}

/// The record of a segment.
pub fn sidecar_path(root: &str, id: &str) -> (r: String)
    ensures
        r@ == joined(root@, dotted(id@, SIDECAR_EXT@)),
{
    let leaf: String = dot(id, SIDECAR_EXT);
    join(root, leaf.as_str())
}

/// An in-flight dump that has to go unless it is released.
#[derive(Debug)]
pub struct TmpGuard(pub String);

impl TmpGuard {
    /// Gives up the path: the file was renamed away.
    pub fn release(self) -> (r: TmpGuard)
        ensures
            r.0@.len() == 0,
    {
        TmpGuard(String::new())
    }

    /// The file that goes with the guard.
    pub open spec fn dooms(self) -> Option<Seq<char>> {
        if self.0@.len() == 0 {
            None
        } else {
            Some(self.0@)
        }
    }

    /// The file to unlink, unless it was released.
    pub fn doomed(&self) -> (r: Option<&str>)
        ensures
            r is Some <==> self.dooms() is Some,
            r is Some ==> r->0@ == self.dooms()->0,
            r is Some <==> self.0@.len() > 0,
            r is Some ==> r->0@ == self.0@,
    {
        if chars_of(self.0.as_str()).len() == 0 {
            None
        } else {
            Some(self.0.as_str())
        }
    }
}

/// The letter of a second, third, and so on press within a minute.
pub open spec fn suffix_letter(k: int) -> char {
    (97 + k) as u8 as char
}

/// The ids that a segment may get, in order of preference: its own, its own and a letter, its
/// own and the process id, and from there on a count.
pub open spec fn candidate(id: Seq<char>, k: int, pid: nat) -> Seq<char> {
    if k <= 0 {
        id
    } else if k <= 25 {
        id + "-"@ + seq![suffix_letter(k)]
    } else if k == 26 {
        id + "-"@ + decimal(pid)
    } else {
        id + "-"@ + decimal(pid) + "-"@ + decimal((k - 25) as nat)
    }
}

/// No file of the directory belongs to an id.
pub open spec fn is_free(names: Seq<String>, id: Seq<char>) -> bool {
    !names_it(names, dotted(id, SEGMENT_EXT@)) && !names_it(names, dotted(id, SIDECAR_EXT@))
}

/// The first candidate from `k` on that is free. There are more candidates than names.
pub open spec fn first_free(names: Seq<String>, id: Seq<char>, k: int, pid: nat) -> Seq<char>
    decreases names.len() - k,
{
    if k >= names.len() || is_free(names, candidate(id, k, pid)) {
        candidate(id, k, pid)
    } else {
        first_free(names, id, k + 1, pid)
    }
}

proof fn candidates_differ(id: Seq<char>, j: int, k: int, pid: nat)
    requires
        0 <= j < k,
    ensures
        candidate(id, j, pid) != candidate(id, k, pid),
{
    reveal_strlit("-");
    let n = id.len() as int;
    let a = candidate(id, j, pid);
    let b = candidate(id, k, pid);
    decimals_are_digits(pid);
    if j <= 0 {
        assert(b.len() > a.len());
    } else if j <= 25 {
        assert(a[n + 1] == suffix_letter(j));
        if k <= 25 {
            assert(b[n + 1] == suffix_letter(k));
        } else {
            assert(b[n + 1] == decimal(pid)[0]);
            assert(is_digit(decimal(pid)[0]));
        }
    } else if j == 26 {
        assert(b.len() > a.len());
    } else {
        let front = id + "-"@ + decimal(pid) + "-"@;
        let at = front.len() as int;
        if a == b {
            assert(a.skip(at) =~= decimal((j - 25) as nat));
            assert(b.skip(at) =~= decimal((k - 25) as nat));
            decimals_tell_numbers_apart((j - 25) as nat, (k - 25) as nat);
        }
    }
}

/// A name belongs to an id.
spec fn belongs(name: Seq<char>, id: Seq<char>) -> bool {
    name == dotted(id, SEGMENT_EXT@) || name == dotted(id, SIDECAR_EXT@)
}

proof fn names_belong_once(name: Seq<char>, a: Seq<char>, b: Seq<char>)
    requires
        belongs(name, a),
        belongs(name, b),
    ensures
        a == b,
{
    reveal_strlit("mkv");
    reveal_strlit("toml");
    let last = name[name.len() - 1];
    assert(name == dotted(a, SEGMENT_EXT@) ==> last == 'v');
    assert(name == dotted(b, SEGMENT_EXT@) ==> last == 'v');
    assert(name == dotted(a, SIDECAR_EXT@) ==> last == 'l');
    assert(name == dotted(b, SIDECAR_EXT@) ==> last == 'l');
    assert(name.take(a.len() as int) =~= a);
    assert(name.take(b.len() as int) =~= b);
}

/// Where the name stands that takes a candidate.
spec fn taker(names: Seq<String>, id: Seq<char>) -> int {
    choose|p: int| 0 <= p < names.len() && belongs(#[trigger] names[p]@, id)
}

proof fn taken_ids_have_a_taker(names: Seq<String>, id: Seq<char>)
    requires
        !is_free(names, id),
    ensures
        0 <= taker(names, id) < names.len(),
        belongs(names[taker(names, id)]@, id),
{
    let name = if names_it(names, dotted(id, SEGMENT_EXT@)) {
        dotted(id, SEGMENT_EXT@)
    } else {
        dotted(id, SIDECAR_EXT@)
    };
    let p = choose|p: int| 0 <= p < names.len() && (#[trigger] names[p])@ == name;
    assert(belongs(names[p]@, id));
}

/// As each name takes one candidate at most, one of the first candidates is free.
proof fn some_candidate_is_free(names: Seq<String>, id: Seq<char>, pid: nat)
    ensures
        exists|k: int|
            0 <= k <= names.len() && is_free(names, #[trigger] candidate(id, k, pid)),
{
    if forall|k: int|
        0 <= k <= names.len() ==> !is_free(names, #[trigger] candidate(id, k, pid)) {
        let n = names.len() as int;
        let at = Seq::new((n + 1) as nat, |k: int| taker(names, candidate(id, k, pid)));
        assert forall|k: int| 0 <= k <= n implies 0 <= #[trigger] at[k] < n && belongs(
            names[at[k]]@,
            candidate(id, k, pid),
        ) by {
            taken_ids_have_a_taker(names, candidate(id, k, pid));
        }
        assert(at.no_duplicates()) by {
            assert forall|i: int, j: int| 0 <= i < at.len() && 0 <= j < at.len() && i != j implies
                at[i] != at[j] by {
                if at[i] == at[j] {
                    names_belong_once(
                        names[at[i]]@,
                        candidate(id, i, pid),
                        candidate(id, j, pid),
                    );
                    if i < j {
                        candidates_differ(id, i, j, pid);
                    } else {
                        candidates_differ(id, j, i, pid);
                    }
                }
            }
        }
        at.unique_seq_to_set();
        lemma_int_range(0, n);
        assert(at.to_set().subset_of(set_int_range(0, n))) by {
            assert forall|x: int| at.to_set().contains(x) implies set_int_range(0, n).contains(
                x,
            ) by {
                let k = choose|k: int| 0 <= k < at.len() && at[k] == x;
                assert(0 <= at[k] < n);
            }
        }
        lemma_len_subset(at.to_set(), set_int_range(0, n));
    }
}

proof fn free_ones_are_reached(names: Seq<String>, id: Seq<char>, k: int, free: int, pid: nat)
    requires
        0 <= k <= free <= names.len(),
        is_free(names, candidate(id, free, pid)),
    ensures
        is_free(names, first_free(names, id, k, pid)),
    decreases free - k,
{
    if k < names.len() && !is_free(names, candidate(id, k, pid)) {
        free_ones_are_reached(names, id, k + 1, free, pid);
    }
}

/// The id that a segment gets is free, whatever the directory holds: no commit ever overwrites
/// another.
pub proof fn ids_never_clobber(names: Seq<String>, id: Seq<char>, pid: nat)
    ensures
        is_free(names, first_free(names, id, 0, pid)),
{
    some_candidate_is_free(names, id, pid);
    let k = choose|k: int|
        0 <= k <= names.len() && is_free(names, #[trigger] candidate(id, k, pid));
    free_ones_are_reached(names, id, 0, k, pid);
}

/// Whether a list of file names holds one.
fn listed(names: &Vec<String>, name: &String) -> (r: bool)
    ensures
        r == names_it(names@, name@),
{
    for i in 0..names.len()
        invariant
            forall|j: int| 0 <= j < i ==> (#[trigger] names@[j])@ != name@,
    {
        if names[i] == *name {
            assert(names@[i as int]@ == name@);
            return true;
        }
    }
    false
}

/// Whether an id is free.
fn free(names: &Vec<String>, id: &str) -> (r: bool)
    ensures
        r == is_free(names@, id@),
{
    let audio: String = dot(id, SEGMENT_EXT);
    let record: String = dot(id, SIDECAR_EXT);
    !listed(names, &audio) && !listed(names, &record)
}

/// One of the ids that a segment may get.
fn name_candidate(id: &str, k: usize, pid: u32) -> (r: String)
    ensures
        r@ == candidate(id@, k as int, pid as nat),
{
    let mut name: String = id.to_owned();
    if k == 0 {
        return name;
    }
    name.append("-");
    if k <= 25 {
        name.push((97 + k as u8) as char);
        assert(name@ =~= candidate(id@, k as int, pid as nat));
        return name;
    }
    push_decimal(&mut name, pid as u64);
    if k > 26 {
        name.append("-");
        push_decimal(&mut name, (k - 25) as u64);
    }
    name
}

/// The id that a segment gets in a directory with these files: its own where that is free, else
/// its own with the first letter, process id or count that is, so that a second press within a
/// minute never overwrites the first.
pub fn unique_id(names: &Vec<String>, id: &str, pid: u32) -> (r: String)
    ensures
        r@ == first_free(names@, id@, 0, pid as nat),
        is_free(names@, r@),
{
    proof {
        ids_never_clobber(names@, id@, pid as nat);
    }
    let n: usize = names.len();
    let mut k: usize = 0;
    while k < n
        invariant
            n == names@.len(),
            k <= n,
            first_free(names@, id@, 0, pid as nat) == first_free(names@, id@, k as int, pid as nat),
            is_free(names@, first_free(names@, id@, 0, pid as nat)),
        decreases n - k,
    {
        let name: String = name_candidate(id, k, pid);
        if free(names, name.as_str()) {
            return name;
        }
        k = k + 1;
    }
    name_candidate(id, k, pid)
}

/// What a commit of a segment does.
#[derive(Debug)]
pub struct SegmentCommit {
    /// The id that the segment gets.
    pub id: String,
    /// The paths that appear, in order: the audio, and then the record.
    pub writes: Vec<String>,
}

/// The paths of a segment in the order in which a commit makes them appear.
pub open spec fn commit_order(root: Seq<char>, id: Seq<char>) -> Seq<Seq<char>> {
    seq![joined(root, dotted(id, SEGMENT_EXT@)), joined(root, dotted(id, SIDECAR_EXT@))]
}

/// The paths of a segment in the order in which a removal makes them go.
pub open spec fn removal_order(root: Seq<char>, id: Seq<char>) -> Seq<Seq<char>> {
    seq![joined(root, dotted(id, SIDECAR_EXT@)), joined(root, dotted(id, SEGMENT_EXT@))]
}

/// Lays out the commit of a dump under an id, in a directory with these files. The record comes
/// last, so that a commit that is cut off leaves audio without a record, which a sweep removes.
pub fn commit(root: &str, names: &Vec<String>, id: &str, pid: u32) -> (r: SegmentCommit)
    ensures
        r.id@ == first_free(names@, id@, 0, pid as nat),
        is_free(names@, r.id@),
        r.writes@.map_values(|p: String| p@) == commit_order(root@, r.id@),
{
    let id: String = unique_id(names, id, pid);
    let mut writes: Vec<String> = Vec::new();
    writes.push(segment_path(root, id.as_str()));
    writes.push(sidecar_path(root, id.as_str()));
    assert(writes@.map_values(|p: String| p@) =~= commit_order(root@, id@));
    SegmentCommit { id, writes }
}

/// Lays out the removal of a segment: a commit backwards, so that one that is cut off leaves
/// audio without a record, too.
pub fn removal(root: &str, id: &str) -> (r: Vec<String>)
    ensures
        r@.map_values(|p: String| p@) == removal_order(root@, id@),
{
    let mut gone: Vec<String> = Vec::new();
    gone.push(sidecar_path(root, id));
    gone.push(segment_path(root, id));
    assert(gone@.map_values(|p: String| p@) =~= removal_order(root@, id@));
    gone
}

/// No record without its audio: wherever a commit or a removal is cut off, a record that is
/// there has its audio beside it.
pub proof fn records_have_their_audio(root: Seq<char>, id: Seq<char>, n: int)
    requires
        0 <= n <= 2,
        id.len() > 0 && id[0] != '/',
    ensures
        ({
            let audio = joined(root, dotted(id, SEGMENT_EXT@));
            let record = joined(root, dotted(id, SIDECAR_EXT@));
            &&& audio != record
            &&& commit_order(root, id).take(n).contains(record) ==> commit_order(
                root,
                id,
            ).take(n).contains(audio)
            &&& removal_order(root, id).skip(n).contains(record) ==> removal_order(
                root,
                id,
            ).skip(n).contains(audio)
        }),
{
    reveal_strlit("mkv");
    reveal_strlit("toml");
    let audio = joined(root, dotted(id, SEGMENT_EXT@));
    let record = joined(root, dotted(id, SIDECAR_EXT@));
    assert(dotted(id, SEGMENT_EXT@)[0] == id[0] && dotted(id, SIDECAR_EXT@)[0] == id[0]);
    assert(audio.len() != record.len());
    let put = commit_order(root, id).take(n);
    if put.contains(record) {
        let k = choose|k: int| 0 <= k < put.len() && put[k] == record;
        assert(put[k] == commit_order(root, id)[k]);
        assert(k == 1);
        assert(put[0] == audio);
    }
    let left = removal_order(root, id).skip(n);
    if left.contains(record) {
        let k = choose|k: int| 0 <= k < left.len() && left[k] == record;
        assert(left[k] == removal_order(root, id)[k + n]);
        assert(n == 0);
        assert(left[1] == audio);
    }
}

} // verus!
