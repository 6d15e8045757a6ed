//! What the operations on text, names and paths come to, character by character.
use crate::names::{all_digits, is_key_char, sanitized, storable, tmp_name};
use crate::paths::{dotted, joined};
use crate::text::{
    before, before_from, decimal, is_alnum, is_digit, is_space, lower, lowered, trim_end,
    trim_start, trimmed,
};
use vstd::prelude::*;

verus! {

/// Lower case is thirty-two code points on from upper case, and nothing else changes.
pub proof fn only_capitals_are_lowered(c: char)
    ensures
        0x41 <= c as u32 <= 0x5a ==> lower(c) as u32 == c as u32 + 32,
        !(0x41 <= c as u32 <= 0x5a) ==> lower(c) == c,
        is_digit(c) <==> 0x30 <= c as u32 <= 0x39,
        is_alnum(c) <==> 0x30 <= c as u32 <= 0x39 || 0x41 <= c as u32 <= 0x5a || 0x61 <= c as u32
            <= 0x7a,
        is_alnum(lower(c)) <==> is_alnum(c),
{
}

proof fn trimming_the_start(s: Seq<char>) -> (n: int)
    ensures
        0 <= n <= s.len(),
        trim_start(s) == s.skip(n),
        forall|i: int| 0 <= i < n ==> is_space(#[trigger] s[i]),
        n < s.len() ==> !is_space(s[n]),
    decreases s.len(),
{
    if s.len() > 0 && is_space(s[0]) {
        let rest = s.drop_first();
        let m = trimming_the_start(rest);
        assert(rest.skip(m) =~= s.skip(m + 1));
        assert forall|i: int| 0 <= i < m + 1 implies is_space(#[trigger] s[i]) by {
            if i > 0 {
                assert(is_space(rest[i - 1]));
            }
        }
        m + 1
    } else {
        assert(s.skip(0) =~= s);
        0
    }
}

proof fn trimming_the_end(s: Seq<char>) -> (n: int)
    ensures
        0 <= n <= s.len(),
        trim_end(s) == s.take(n),
        forall|i: int| n <= i < s.len() ==> is_space(#[trigger] s[i]),
        n > 0 ==> !is_space(s[n - 1]),
    decreases s.len(),
{
    if s.len() > 0 && is_space(s.last()) {
        let rest = s.drop_last();
        let m = trimming_the_end(rest);
        assert(rest.take(m) =~= s.take(m));
        assert forall|i: int| m <= i < s.len() implies is_space(#[trigger] s[i]) by {
            if i < rest.len() {
                assert(is_space(rest[i]));
            }
        }
        m
    } else {
        assert(s.take(s.len() as int) =~= s);
        s.len() as int
    }
}

/// Trimming takes white space off both ends, all of it and nothing else.
pub proof fn trimming_takes_the_ends(s: Seq<char>) -> (r: (int, int))
    ensures
        0 <= r.0 <= r.1 <= s.len(),
        trimmed(s) == s.subrange(r.0, r.1),
        forall|i: int| 0 <= i < r.0 || r.1 <= i < s.len() ==> is_space(#[trigger] s[i]),
        r.0 < r.1 ==> !is_space(s[r.0]) && !is_space(s[r.1 - 1]),
{
    let a = trimming_the_start(s);
    let t = s.skip(a);
    let b = trimming_the_end(t);
    assert(t.take(b) =~= s.subrange(a, a + b));
    assert forall|i: int| 0 <= i < a || a + b <= i < s.len() implies is_space(#[trigger] s[i]) by {
        if i >= a {
            assert(is_space(t[i - a]));
        }
    }
    if b > 0 {
        assert(t[0] == s[a]);
        assert(t[b - 1] == s[a + b - 1]);
    }
    (a, a + b)
}

/// A suffix is stored as it is reported, without the white space around it and in lower case,
/// where that is one to eight ASCII letters and digits and not the records' own; otherwise under
/// the fallback.
pub proof fn suffixes_are_kept_where_they_can_be(raw: Seq<char>)
    ensures
        ({
            let s = lowered(trimmed(raw));
            let kept = 1 <= s.len() <= 8 && (forall|i: int|
                0 <= i < s.len() ==> is_alnum(#[trigger] s[i])) && s != "toml"@;
            &&& kept ==> sanitized(Some(raw)) == s
            &&& !kept ==> sanitized(Some(raw)) == "bin"@
            &&& s.len() == trimmed(raw).len()
            &&& forall|i: int| 0 <= i < s.len() ==> #[trigger] s[i] == lower(trimmed(raw)[i])
        }),
        sanitized(None) == "bin"@,
{
    let s = lowered(trimmed(raw));
    assert forall|i: int| 0 <= i < s.len() implies lower(#[trigger] s[i]) == s[i] by {
        assert(s[i] == lower(trimmed(raw)[i]));
    }
}

/// A key can be stored exactly where it is made of ASCII letters, digits, low lines and hyphens,
/// and of at least one.
pub proof fn keys_are_made_of(id: Seq<char>)
    ensures
        storable(id) <==> id.len() > 0 && forall|i: int|
            0 <= i < id.len() ==> {
                let n = (#[trigger] id[i]) as u32;
                0x30 <= n <= 0x39 || 0x41 <= n <= 0x5a || 0x61 <= n <= 0x7a || n == 0x5f || n
                    == 0x2d
            },
{
    assert forall|i: int| 0 <= i < id.len() implies (is_key_char(#[trigger] id[i]) <==> {
        let n = id[i] as u32;
        0x30 <= n <= 0x39 || 0x41 <= n <= 0x5a || 0x61 <= n <= 0x7a || n == 0x5f || n == 0x2d
    }) by {
        only_capitals_are_lowered(id[i]);
    }
    if storable(id) {
        assert forall|i: int| 0 <= i < id.len() implies ({
            let n = (#[trigger] id[i]) as u32;
            0x30 <= n <= 0x39 || 0x41 <= n <= 0x5a || 0x61 <= n <= 0x7a || n == 0x5f || n == 0x2d
        }) by {
            assert(is_key_char(id[i]));
        }
    }
}

/// A temporary's name is `tmp.`, digits, a dot and digits, and any name so made is one.
pub proof fn temporaries_are_named_so(name: Seq<char>, pid: Seq<char>, seq: Seq<char>)
    ensures
        (pid.len() > 0 && seq.len() > 0 && (forall|i: int|
            0 <= i < pid.len() ==> '0' <= (#[trigger] pid[i]) <= '9') && forall|i: int|
            0 <= i < seq.len() ==> '0' <= (#[trigger] seq[i]) <= '9') ==> tmp_name(
            "tmp."@ + pid + seq!['.'] + seq,
        ),
        tmp_name(name) ==> exists|n: int|
            5 <= n < name.len() - 1 && name.take(4) == "tmp."@ && #[trigger] name[n] == '.' && forall|
                i: int,
            |
                4 <= i < name.len() && i != n ==> '0' <= (#[trigger] name[i]) <= '9',
{
    reveal_strlit("tmp.");
    if pid.len() > 0 && seq.len() > 0 && (forall|i: int|
        0 <= i < pid.len() ==> '0' <= (#[trigger] pid[i]) <= '9') && forall|i: int|
        0 <= i < seq.len() ==> '0' <= (#[trigger] seq[i]) <= '9' {
        assert(all_digits(pid) && all_digits(seq));
    }
    if tmp_name(name) {
        let (p, q) = choose|p: Seq<char>, q: Seq<char>|
            #![trigger all_digits(p), all_digits(q)]
            all_digits(p) && all_digits(q) && name == "tmp."@ + p + seq!['.'] + q;
        let n = 4 + p.len() as int;
        assert(name.take(4) =~= "tmp."@);
        assert(name[n] == '.');
        assert forall|i: int| 4 <= i < name.len() && i != n implies '0' <= (#[trigger] name[i])
            <= '9' by {
            if i < n {
                assert(name[i] == p[i - 4]);
                assert(is_digit(p[i - 4]));
            } else {
                assert(name[i] == q[i - n - 1]);
                assert(is_digit(q[i - n - 1]));
            }
        }
    }
}

/// Two texts are equal up to a place, and there the first ends or has the smaller character.
pub open spec fn first_differs_at(a: Seq<char>, b: Seq<char>, n: int) -> bool {
    &&& 0 <= n <= a.len() && n < b.len()
    &&& forall|k: int| 0 <= k < n ==> a[k] == b[k]
    &&& n == a.len() || a[n] < b[n]
}

proof fn order_from(a: Seq<char>, b: Seq<char>, i: int)
    requires
        0 <= i <= a.len(),
        i <= b.len(),
        forall|k: int| 0 <= k < i ==> a[k] == b[k],
    ensures
        before_from(a, b, i) <==> exists|n: int| i <= n && #[trigger] first_differs_at(a, b, n),
    decreases a.len() - i,
{
    if i < b.len() && i < a.len() && a[i] == b[i] {
        order_from(a, b, i + 1);
        if before_from(a, b, i) {
            let n = choose|n: int| i + 1 <= n && #[trigger] first_differs_at(a, b, n);
            assert(i <= n && first_differs_at(a, b, n));
        }
        if exists|n: int| i <= n && #[trigger] first_differs_at(a, b, n) {
            let n = choose|n: int| i <= n && #[trigger] first_differs_at(a, b, n);
            assert(i + 1 <= n && first_differs_at(a, b, n));
        }
    } else if before_from(a, b, i) {
        assert(first_differs_at(a, b, i));
    } else if exists|n: int| i <= n && #[trigger] first_differs_at(a, b, n) {
        let n = choose|n: int| i <= n && #[trigger] first_differs_at(a, b, n);
        if n > i {
            assert(a[i] == b[i]);
        }
    }
}

/// The order of text is that of a dictionary by code point: the first difference decides, and a
/// text comes before any that goes on from it.
pub proof fn texts_are_ordered_by_their_first_difference(a: Seq<char>, b: Seq<char>)
    ensures
        before(a, b) <==> exists|n: int| #[trigger] first_differs_at(a, b, n),
{
    order_from(a, b, 0);
    if exists|n: int| #[trigger] first_differs_at(a, b, n) {
        let n = choose|n: int| #[trigger] first_differs_at(a, b, n);
        assert(0 <= n && first_differs_at(a, b, n));
    }
}

/// The number that decimal digits write.
pub open spec fn read_back(s: Seq<char>) -> int
    decreases s.len(),
{
    if s.len() == 0 {
        0
    } else {
        10 * read_back(s.drop_last()) + (s.last() as int - 0x30)
    }
}

/// A number in decimal reads back as itself, and has no digit too many.
pub proof fn decimals_read_back(n: nat)
    ensures
        read_back(decimal(n)) == n,
        decimal(n).len() > 0,
        n > 0 ==> decimal(n)[0] != '0',
        n == 0 ==> decimal(n).len() == 1,
        forall|i: int| 0 <= i < decimal(n).len() ==> '0' <= (#[trigger] decimal(n)[i]) <= '9',
    decreases n,
{
    let s = decimal(n);
    if n < 10 {
        assert(s.drop_last() =~= Seq::<char>::empty());
        assert(read_back(s.drop_last()) == 0);
    } else {
        decimals_read_back(n / 10);
        let t = decimal(n / 10);
        assert(s.drop_last() =~= t);
        assert(s[0] == t[0]);
        assert forall|i: int| 0 <= i < s.len() implies '0' <= (#[trigger] s[i]) <= '9' by {
            if i < t.len() {
                assert(s[i] == t[i]);
            }
        }
    }
}

/// A name under a directory is the directory, one slash between the two, and the name; an
/// absolute name is itself.
pub proof fn names_go_under_the_directory(root: Seq<char>, name: Seq<char>)
    ensures
        name.len() > 0 && name[0] == '/' ==> joined(root, name) == name,
        root.len() == 0 ==> joined(root, name) == name,
        root.len() > 0 && root.last() == '/' && !(name.len() > 0 && name[0] == '/') ==> joined(
            root,
            name,
        ) == root + name,
        root.len() > 0 && root.last() != '/' && !(name.len() > 0 && name[0] == '/') ==> joined(
            root,
            name,
        ) == root + seq!['/'] + name,
        dotted(root, name) == root + seq!['.'] + name,
{
    if root.len() == 0 {
        assert(joined(root, name) =~= name);
    }
    assert(root.push('/') =~= root + seq!['/']);
    assert(root.push('.') =~= root + seq!['.']);
}

/// White space is what Unicode lists as such: the ASCII tab, line ends, feeds and blank, the next
/// line, the blanks of typography, and the line and paragraph separators. Nothing else is, neither
/// of the control characters nor of the joiners of zero width.
pub proof fn white_space_is_as_listed(c: char)
    ensures
        is_space(c) <==> c == '\t' || c == '\n' || c == '\u{b}' || c == '\u{c}' || c == '\r' || c
            == ' ' || c == '\u{85}' || c == '\u{a0}' || c == '\u{1680}' || ('\u{2000}' <= c && c
            <= '\u{200a}') || c == '\u{2028}' || c == '\u{2029}' || c == '\u{202f}' || c
            == '\u{205f}' || c == '\u{3000}',
        !is_space('\u{200b}'),
        !is_space('\u{1c}'),
        is_digit(c) <==> '0' <= c && c <= '9',
        is_alnum(c) ==> !is_space(c),
{
}

} // verus!
