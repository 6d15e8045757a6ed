//! Paths under a directory, as text.
use crate::names::{all_digits, tmp_name};
use crate::text::{chars_of, decimal, is_digit, push_decimal};
use vstd::prelude::*;

verus! {

/// A name under a directory. An absolute name stands for itself.
pub open spec fn joined(root: Seq<char>, name: Seq<char>) -> Seq<char> {
    if name.len() > 0 && name[0] == '/' {
        name
    } else if root.len() == 0 || root.last() == '/' {
        root + name
    } else {
        root.push('/') + name
    }
}

/// A stem and its extension.
pub open spec fn dotted(stem: Seq<char>, ext: Seq<char>) -> Seq<char> {
    stem.push('.') + ext
}

/// Puts a name under a directory.
pub fn join(root: &str, name: &str) -> (r: String)
    ensures
        r@ == joined(root@, name@),
{
    let ns: Vec<char> = chars_of(name);
    if ns.len() > 0 && ns[0] == '/' {
        return name.to_owned();
    }
    let rs: Vec<char> = chars_of(root);
    let mut out: String = root.to_owned();
    if rs.len() > 0 && rs[rs.len() - 1] != '/' {
        out.push('/');
    }
    out.append(name);
    out
}

/// Joins a stem and its extension with a dot.
pub fn dot(stem: &str, ext: &str) -> (r: String)
    ensures
        r@ == dotted(stem@, ext@),
{
    let mut out: String = stem.to_owned();
    out.push('.');
    out.append(ext);
    out
}

/// The name of an in-flight temporary of a process.
pub open spec fn tmp_file(pid: nat, seq: nat) -> Seq<char> {
    "tmp."@ + decimal(pid) + seq!['.'] + decimal(seq)
}

/// Names an in-flight temporary.
pub fn tmp_file_name(pid: u32, seq: u64) -> (r: String)
    ensures
        r@ == tmp_file(pid as nat, seq as nat),
{
    let mut out: String = "tmp.".to_owned();
    push_decimal(&mut out, pid as u64);
    out.push('.');
    push_decimal(&mut out, seq);
    assert(out@ =~= tmp_file(pid as nat, seq as nat));
    out
}

/// A number in decimal is digits, and at least one.
pub proof fn decimals_are_digits(n: nat)
    ensures
        all_digits(decimal(n)),
    decreases n,
{
    if n >= 10 {
        decimals_are_digits(n / 10);
        let d = decimal(n / 10);
        assert forall|i: int| 0 <= i < decimal(n).len() implies is_digit(
            #[trigger] decimal(n)[i],
        ) by {
            if i < d.len() {
                assert(is_digit(d[i]));
            }
        }
    }
}

/// Every in-flight temporary is recognised as one, whoever left it.
pub proof fn temporaries_are_recognised(pid: nat, seq: nat)
    ensures
        tmp_name(tmp_file(pid, seq)),
{
    decimals_are_digits(pid);
    decimals_are_digits(seq);
    assert(all_digits(decimal(pid)) && all_digits(decimal(seq)));
}

} // verus!
