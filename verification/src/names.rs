//! Keys, names and path safety: what may become a file name in the store directory.
use crate::text::{
    char_is_alnum, char_is_digit, char_is_space, char_lower, chars_of, is_alnum, is_digit, lower,
    lowered, same, string_of, trim_end, trim_start, trimmed,
};
use vstd::prelude::*;

verus! {

/// Suffix of an audio file whose server-reported suffix is missing or unusable.
pub const FALLBACK_SUFFIX: &'static str = "bin";

/// Longest sanitized suffix.
pub const MAX_SUFFIX_LEN: usize = 8;

/// The characters a store key is made of.
pub open spec fn is_key_char(c: char) -> bool {
    is_alnum(c) || c == '_' || c == '-'
}

/// A key that is safe as a path component: one or more of `[A-Za-z0-9_-]`.
pub open spec fn storable(id: Seq<char>) -> bool {
    id.len() > 0 && forall|i: int| 0 <= i < id.len() ==> is_key_char(#[trigger] id[i])
}

/// A suffix that may name an audio file: short, lowercase alphanumeric, and not the
/// sidecar's own `toml`.
pub open spec fn usable_suffix(s: Seq<char>) -> bool {
    &&& 1 <= s.len() <= MAX_SUFFIX_LEN
    &&& forall|i: int| 0 <= i < s.len() ==> is_alnum(#[trigger] s[i]) && lower(s[i]) == s[i]
    &&& s != "toml"@
}

/// The suffix a server-reported one is stored under.
pub open spec fn sanitized(suffix: Option<Seq<char>>) -> Seq<char> {
    match suffix {
        Some(raw) => {
            let s = lowered(trimmed(raw));
            if usable_suffix(s) {
                s
            } else {
                FALLBACK_SUFFIX@
            }
        },
        None => FALLBACK_SUFFIX@,
    }
}

/// One or more ASCII digits.
pub open spec fn all_digits(s: Seq<char>) -> bool {
    s.len() > 0 && forall|i: int| 0 <= i < s.len() ==> is_digit(#[trigger] s[i])
}

/// The name of an in-flight temporary: `tmp.<digits>.<digits>`.
pub open spec fn tmp_name(name: Seq<char>) -> bool {
    exists|pid: Seq<char>, seq: Seq<char>|
        #![trigger all_digits(pid), all_digits(seq)]
        all_digits(pid) && all_digits(seq) && name == "tmp."@ + pid + seq!['.'] + seq
}

/// Whether `id` may be used as a store key at all.
///
/// The key becomes a path component and part of a player command, so everything but
/// letters, digits, `_` and `-` is refused rather than escaped.
pub fn is_storable_id(id: &str) -> (r: bool)
    ensures
        r == storable(id@),
{
    let cs: Vec<char> = chars_of(id);
    if cs.len() == 0 {
        return false;
    }
    for i in 0..cs.len()
        invariant
            cs@ == id@,
            forall|j: int| 0 <= j < i ==> is_key_char(#[trigger] cs@[j]),
    {
        let c: char = cs[i];
        if !(char_is_alnum(c) || c == '_' || c == '-') {
            assert(!is_key_char(id@[i as int]));
            return false;
        }
    }
    true
}

/// Cuts the white space off both ends and puts the rest into ASCII lowercase.
fn trimmed_lower(raw: &str) -> (r: Vec<char>)
    ensures
        r@ == lowered(trimmed(raw@)),
{
    let cs: Vec<char> = chars_of(raw);
    let mut lo: usize = 0;
    assert(cs@.skip(0) =~= cs@);
    while lo < cs.len() && char_is_space(cs[lo])
        invariant
            lo <= cs.len(),
            trim_start(cs@) == trim_start(cs@.skip(lo as int)),
        decreases cs.len() - lo,
    {
        assert(cs@.skip(lo as int).drop_first() =~= cs@.skip(lo + 1));
        lo = lo + 1;
    }
    assert(trim_start(cs@) == cs@.skip(lo as int));
    let ghost s = cs@.skip(lo as int);
    let mut hi: usize = cs.len();
    assert(s.take(hi - lo) =~= s);
    while hi > lo && char_is_space(cs[hi - 1])
        invariant
            lo <= hi <= cs.len(),
            s == cs@.skip(lo as int),
            trim_end(s) == trim_end(s.take(hi - lo)),
        decreases hi,
    {
        assert(s.take(hi - lo).drop_last() =~= s.take(hi - lo - 1));
        hi = hi - 1;
    }
    let ghost t = s.take(hi - lo);
    assert(t == trimmed(raw@));
    let mut out: Vec<char> = Vec::new();
    for i in lo..hi
        invariant
            lo <= hi <= cs.len(),
            t == cs@.skip(lo as int).take(hi - lo),
            out@ == lowered(t.take(i - lo)),
    {
        out.push(char_lower(cs[i]));
        assert(out@ =~= lowered(t.take(i + 1 - lo)));
    }
    assert(t.take(hi - lo) =~= t);
    out
}

/// Turns a server-reported file suffix into one that is safe in a path.
pub fn sanitize_suffix(suffix: Option<&str>) -> (r: String)
    ensures
        r@ == sanitized(match suffix {
            Some(s) => Some(s@),
            None => None,
        }),
{
    match suffix {
        None => FALLBACK_SUFFIX.to_owned(),
        Some(raw) => {
            let cs: Vec<char> = trimmed_lower(raw);
            let ghost low = lowered(trimmed(raw@));
            assert(low == cs@);
            let mut ok: bool = 1 <= cs.len() && cs.len() <= MAX_SUFFIX_LEN;
            for i in 0..cs.len()
                invariant
                    cs@ == low,
                    low == lowered(trimmed(raw@)),
                    ok == ((1 <= cs.len() <= MAX_SUFFIX_LEN) && forall|j: int|
                        0 <= j < i ==> is_alnum(#[trigger] low[j]) && lower(low[j]) == low[j]),
            {
                assert(low[i as int] == lower(trimmed(raw@)[i as int]));
                if !char_is_alnum(cs[i]) {
                    ok = false;
                }
            }
            let out: String = string_of(cs.as_slice());
            if ok && !same(out.as_str(), "toml") {
                out
            } else {
                FALLBACK_SUFFIX.to_owned()
            }
        },
    }
}

/// Whether `name` is one of our in-flight temporaries (`tmp.<pid>.<seq>`).
///
/// Both trailing segments must be digits throughout, so a song whose id is `tmp` is not
/// mistaken for garbage.
pub fn is_tmp_name(name: &str) -> (r: bool)
    ensures
        r == tmp_name(name@),
{
    proof {
        reveal_strlit("tmp.");
    }
    let cs: Vec<char> = chars_of(name);
    let mut ok: bool = cs.len() >= 4 && cs[0] == 't' && cs[1] == 'm' && cs[2] == 'p' && cs[3] == '.';
    if !ok {
        assert(!tmp_name(name@)) by {
            if tmp_name(name@) {
                let (pid, seq) = choose|pid: Seq<char>, seq: Seq<char>|
                    #![trigger all_digits(pid), all_digits(seq)]
                    all_digits(pid) && all_digits(seq) && name@ == "tmp."@ + pid + seq!['.'] + seq;
                let n = "tmp."@ + pid + seq!['.'] + seq;
                assert(n[0] == "tmp."@[0] && n[1] == "tmp."@[1] && n[2] == "tmp."@[2] && n[3] == "tmp."@[3]);
            }
        }
        return false;
    }
    let mut dot: usize = 4;
    while dot < cs.len() && char_is_digit(cs[dot])
        invariant
            4 <= dot <= cs.len(),
            forall|j: int| 4 <= j < dot ==> is_digit(#[trigger] cs@[j]),
        decreases cs.len() - dot,
    {
        dot = dot + 1;
    }
    ok = dot > 4 && dot < cs.len() && cs[dot] == '.' && dot + 1 < cs.len();
    let mut i: usize = dot;
    if ok {
        i = dot + 1;
        while i < cs.len() && char_is_digit(cs[i])
            invariant
                dot < i <= cs.len(),
                forall|j: int| dot < j < i ==> is_digit(#[trigger] cs@[j]),
            decreases cs.len() - i,
        {
            i = i + 1;
        }
        ok = i == cs.len();
    }
    proof {
        let n = name@;
        if ok {
            let pid = n.subrange(4, dot as int);
            let seq = n.skip(dot + 1);
            assert(n =~= "tmp."@ + pid + seq!['.'] + seq);
            assert(all_digits(pid) && all_digits(seq));
        } else if tmp_name(n) {
            let (pid, seq) = choose|pid: Seq<char>, seq: Seq<char>|
                #![trigger all_digits(pid), all_digits(seq)]
                all_digits(pid) && all_digits(seq) && n == "tmp."@ + pid + seq!['.'] + seq;
            let at = 4 + pid.len();
            assert(n[at as int] == '.');
            assert(forall|j: int| 4 <= j < at ==> n[j] == pid[j - 4]);
            assert(forall|j: int| at < j < n.len() ==> n[j] == seq[j - at - 1]);
            if dot < at {
                assert(is_digit(pid[dot - 4]));
            }
            if dot > at {
                assert(is_digit(cs@[at as int]));
            }
            assert(dot == at);
            if i < n.len() {
                assert(is_digit(seq[i - at - 1]));
            }
        }
    }
    ok
}

/// Sanitizing what was sanitized changes nothing.
pub proof fn sanitizing_is_idempotent(suffix: Option<Seq<char>>)
    ensures
        sanitized(Some(sanitized(suffix))) == sanitized(suffix),
        usable_suffix(sanitized(suffix)),
{
    reveal_strlit("bin");
    reveal_strlit("toml");
    let s = sanitized(suffix);
    assert(usable_suffix(FALLBACK_SUFFIX@)) by {
        assert(FALLBACK_SUFFIX@ =~= seq!['b', 'i', 'n']);
    }
    assert(usable_suffix(s));
    assert(is_alnum(s[0]));
    assert(is_alnum(s.last()));
    assert(trimmed(s) == s);
    assert(lowered(s) =~= s);
}

/// A storable key holds no character that could leave the directory, quote a command or
/// start an extension.
pub proof fn storable_keys_are_path_safe(id: Seq<char>)
    requires
        storable(id),
    ensures
        !id.contains('/'),
        !id.contains('\\'),
        !id.contains('.'),
        !id.contains('"'),
        !id.contains(' '),
        !id.contains('\n'),
{
    assert(forall|i: int| 0 <= i < id.len() ==> is_key_char(#[trigger] id[i]));
}

/// The audio file of a storable key is never named like an in-flight temporary: its name holds
/// one dot, and a temporary's holds two.
pub proof fn audio_names_are_not_temporaries(id: Seq<char>, suffix: Seq<char>)
    requires
        storable(id),
        usable_suffix(suffix),
    ensures
        !tmp_name(id + seq!['.'] + suffix),
{
    let n = id + seq!['.'] + suffix;
    if tmp_name(n) {
        reveal_strlit("tmp.");
        let (pid, seq) = choose|pid: Seq<char>, seq: Seq<char>|
            #![trigger all_digits(pid), all_digits(seq)]
            all_digits(pid) && all_digits(seq) && n == "tmp."@ + pid + seq!['.'] + seq;
        let m = "tmp."@ + pid + seq!['.'] + seq;
        let at = 4 + pid.len();
        assert(m.len() == at + 1 + seq.len());
        assert(n.len() == id.len() + 1 + suffix.len());
        assert(m.len() > 3);
        assert(m[3] == "tmp."@[3]);
        assert(m[at as int] == '.');
        assert(n[3] == '.');
        assert(n[at as int] == '.');
        // The name has one dot only: the one between the key and the suffix.
        assert(forall|j: int| 0 <= j < id.len() ==> n[j] == id[j]);
        assert(forall|j: int| id.len() < j < n.len() ==> n[j] == suffix[j - id.len() - 1]);
        if 3 < id.len() {
            assert(is_key_char(id[3]));
        }
        if 3 > id.len() {
            assert(is_alnum(suffix[3 - id.len() - 1]));
        }
        assert(id.len() < at < n.len());
        assert(0 <= at - id.len() - 1 < suffix.len());
        assert(is_alnum(suffix[at - id.len() - 1]));
    }
}

} // verus!
