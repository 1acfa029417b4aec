//! What the built-in commands `echo`, `exit` and `type` compute. Writing
//! their output, and looking commands up on disk, is left to the caller.

use vstd::prelude::*;
use crate::assemble::strings;
use crate::text::{chars_of, push_str};

verus! {

/// The names of the built-in commands.
pub open spec fn is_builtin_name(s: Seq<char>) -> bool {
    s == "echo"@ || s == "exit"@ || s == "type"@
}

pub(crate) fn same_chars(v: &Vec<char>, w: &str) -> (r: bool)
    ensures
        r == (v@ == w@),
{
    let t = chars_of(w);
    if v.len() != t.len() {
        return false;
    }
    let mut k: usize = 0;
    while k < v.len()
        invariant
            v.len() == t.len(),
            t@ == w@,
            k <= v.len(),
            forall|j: int| 0 <= j < k ==> v@[j] == t@[j],
        decreases v.len() - k,
    {
        if v[k] != t[k] {
            return false;
        }
        k += 1;
    }
    assert(v@ =~= t@);
    true
}

/// Whether `cmd` names a built-in command.
pub fn is_builtin(cmd: &str) -> (r: bool)
    ensures
        r == is_builtin_name(cmd@),
{
    let v = chars_of(cmd);
    same_chars(&v, "echo") || same_chars(&v, "exit") || same_chars(&v, "type")
}

/// The names of the built-in commands, in a fixed order.
pub fn builtin_names() -> (r: Vec<String>)
    ensures
        strings(r@) == seq!["echo"@, "exit"@, "type"@],
{
    let mut r: Vec<String> = Vec::new();
    let mut e = String::new();
    push_str(&mut e, "echo");
    r.push(e);
    let mut x = String::new();
    push_str(&mut x, "exit");
    r.push(x);
    let mut t = String::new();
    push_str(&mut t, "type");
    r.push(t);
    assert(strings(r@) =~= seq!["echo"@, "exit"@, "type"@]);
    r
}

/// Words joined by single spaces.
pub open spec fn join_words(ws: Seq<Seq<char>>) -> Seq<char>
    decreases ws.len(),
{
    if ws.len() == 0 {
        Seq::empty()
    } else if ws.len() == 1 {
        ws[0]
    } else {
        join_words(ws.drop_last()) + seq![' '] + ws.last()
    }
}

/// What `echo` prints: its arguments joined by single spaces, and a newline.
pub fn handle_echo_cmd(args: &Vec<String>) -> (r: String)
    ensures
        r@ == join_words(strings(args@)) + seq!['\n'],
{
    let mut r = String::new();
    let mut k: usize = 0;
    while k < args.len()
        invariant
            k <= args.len(),
            r@ == join_words(strings(args@.subrange(0, k as int))),
        decreases args.len() - k,
    {
        let ghost before = r@;
        if k > 0 {
            r.push(' ');
        }
        push_str(&mut r, args[k].as_str());
        proof {
            let ws = strings(args@.subrange(0, k + 1));
            assert(ws.drop_last() =~= strings(args@.subrange(0, k as int)));
            assert(ws.last() == args@[k as int]@);
            if k == 0 {
                assert(before =~= Seq::<char>::empty());
            }
        }
        k += 1;
    }
    assert(args@.subrange(0, args.len() as int) =~= args@);
    r.push('\n');
    r
}

/// An ASCII decimal digit.
pub open spec fn is_decimal_digit(c: char) -> bool {
    '0' <= c && c <= '9'
}

/// The value of a string of decimal digits.
pub open spec fn decimal_value(s: Seq<char>) -> nat
    decreases s.len(),
{
    if s.len() == 0 {
        0
    } else {
        decimal_value(s.drop_last()) * 10 + (s.last() as nat - '0' as nat) as nat
    }
}

/// `s` without the `+` sign that may lead it.
pub open spec fn unsigned_part(s: Seq<char>) -> Seq<char> {
    if s.len() > 0 && s[0] == '+' {
        s.subrange(1, s.len() as int)
    } else {
        s
    }
}

/// Every character of `d` is a decimal digit.
pub open spec fn all_decimal(d: Seq<char>) -> bool {
    forall|k: int| 0 <= k < d.len() ==> is_decimal_digit(#[trigger] d[k])
}

/// What `str::parse::<u8>` makes of `s`: an optional `+`, then one or more
/// decimal digits whose value fits in a byte.
pub open spec fn parse_u8(s: Seq<char>) -> Option<u8> {
    let d = unsigned_part(s);
    if d.len() > 0 && all_decimal(d) && decimal_value(d) <= 255 {
        Some(decimal_value(d) as u8)
    } else {
        None
    }
}

/// Reads a byte-sized decimal number as `parse_u8` describes it.
pub fn parse_status(s: &str) -> (r: Option<u8>)
    ensures
        r == parse_u8(s@),
{
    let v = chars_of(s);
    let n = v.len();
    let start: usize = if n > 0 && v[0] == '+' {
        1
    } else {
        0
    };
    let ghost d = v@.subrange(start as int, n as int);
    proof {
        if start == 0 {
            assert(d =~= v@);
        }
    }
    if start >= n {
        return None;
    }
    let mut value: u32 = 0;
    let mut k: usize = start;
    while k < n
        invariant
            n == v.len(),
            start <= k <= n,
            d == v@.subrange(start as int, n as int),
            v@ == s@,
            d == unsigned_part(s@),
            value <= 255,
            value == decimal_value(v@.subrange(start as int, k as int)),
            forall|j: int| start <= j < k ==> is_decimal_digit(#[trigger] v@[j]),
        decreases n - k,
    {
        let c = v[k];
        if !('0' <= c && c <= '9') {
            assert(!is_decimal_digit(d[k - start]));
            return None;
        }
        let ghost p = v@.subrange(start as int, k as int);
        assert(v@.subrange(start as int, k + 1).drop_last() =~= p);
        let next = value * 10 + (c as u32 - '0' as u32);
        if next > 255 {
            proof {
                lemma_decimal_value_grows(d, (k + 1 - start) as int);
                assert(d.subrange(0, (k + 1 - start) as int) =~= v@.subrange(start as int, k + 1));
                assert(d.subrange(0, d.len() as int) =~= d);
                assert(v@.subrange(start as int, k + 1).last() == c);
                assert(decimal_value(v@.subrange(start as int, k + 1)) == next);
                assert(decimal_value(d) > 255);
            }
            return None;
        }
        value = next;
        k += 1;
    }
    assert(v@.subrange(start as int, n as int) =~= d);
    assert forall|j: int| 0 <= j < d.len() implies is_decimal_digit(#[trigger] d[j]) by {
        assert(d[j] == v@[start + j]);
    }
    Some(value as u8)
}

/// A longer prefix of digits has at least the value of a shorter one.
proof fn lemma_decimal_value_grows(d: Seq<char>, i: int)
    requires
        0 <= i <= d.len(),
    ensures
        decimal_value(d.subrange(0, i)) <= decimal_value(d.subrange(0, d.len() as int)),
    decreases d.len() - i,
{
    if i < d.len() {
        lemma_decimal_value_grows(d, i + 1);
        assert(d.subrange(0, i + 1).drop_last() =~= d.subrange(0, i));
    }
}

/// The status that `exit` ends the shell with: 0 without arguments, the
/// first argument when it reads as a byte-sized number, and 1 otherwise.
pub fn handle_exit_cmd(args: &Vec<String>) -> (r: u8)
    ensures
        args.len() == 0 ==> r == 0,
        args.len() > 0 ==> r == (match parse_u8(args@[0]@) {
            Some(v) => v,
            None => 1,
        }),
{
    if args.len() == 0 {
        return 0;
    }
    match parse_status(args[0].as_str()) {
        Some(v) => v,
        None => 1,
    }
}

} // verus!
