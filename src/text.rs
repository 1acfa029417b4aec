//! Character classes and small text helpers shared by the parser's stages.

use vstd::prelude::*;

verus! {

/// Characters with the Unicode `White_Space` property: the ones that
/// `char::is_whitespace` and `str::trim` treat as blank.
pub open spec fn is_space(c: char) -> bool {
    let u = c as u32;
    (0x9 <= u && u <= 0xd) || u == 0x20 || u == 0x85 || u == 0xa0 || u == 0x1680 || (0x2000 <= u
        && u <= 0x200a) || u == 0x2028 || u == 0x2029 || u == 0x202f || u == 0x205f || u == 0x3000
}

/// Whether `c` is blank, as `char::is_whitespace` decides it.
pub fn is_space_char(c: char) -> (r: bool)
    ensures
        r == is_space(c),
{
    let u = c as u32;
    (0x9 <= u && u <= 0xd) || u == 0x20 || u == 0x85 || u == 0xa0 || u == 0x1680 || (0x2000 <= u
        && u <= 0x200a) || u == 0x2028 || u == 0x2029 || u == 0x202f || u == 0x205f || u == 0x3000
}

/// Relies on std's `String::push`: it appends `ch` after the characters
/// that `s` holds.
pub assume_specification[ String::push ](s: &mut String, ch: char)
    ensures
        final(s)@ == old(s)@.push(ch),
;

/// The characters of `s`, in order.
pub fn chars_of(s: &str) -> (r: Vec<char>)
    ensures
        r@ == s@,
{
    let mut r: Vec<char> = Vec::new();
    for c in it: s.chars()
        invariant
            r@ == it.seq().take(it.index() as int),
    {
        r.push(c);
    }
    r
}

/// The end of the run of characters satisfying `p` that starts at `i`: the
/// first index at or after `i` whose character fails `p`, or the length.
pub open spec fn run_end(s: Seq<char>, i: int, p: spec_fn(char) -> bool) -> int
    decreases s.len() - i,
{
    if 0 <= i < s.len() && p(s[i]) {
        run_end(s, i + 1, p)
    } else {
        i
    }
}

/// A run ends inside the sequence, every character before its end satisfies
/// `p`, and the character at its end (if any) does not.
pub proof fn lemma_run_end(s: Seq<char>, i: int, p: spec_fn(char) -> bool)
    requires
        0 <= i <= s.len(),
    ensures
        i <= run_end(s, i, p) <= s.len(),
        forall|k: int| i <= k < run_end(s, i, p) ==> #[trigger] p(s[k]),
        run_end(s, i, p) < s.len() ==> !p(s[run_end(s, i, p)]),
    decreases s.len() - i,
{
    if i < s.len() && p(s[i]) {
        lemma_run_end(s, i + 1, p);
    }
}

/// Two predicates that agree on the characters from `i` on give the same run.
pub proof fn lemma_run_end_agree(
    s: Seq<char>,
    i: int,
    p: spec_fn(char) -> bool,
    q: spec_fn(char) -> bool,
)
    requires
        0 <= i <= s.len(),
        forall|k: int| i <= k < s.len() ==> p(#[trigger] s[k]) == q(s[k]),
    ensures
        run_end(s, i, p) == run_end(s, i, q),
    decreases s.len() - i,
{
    if i < s.len() {
        lemma_run_end_agree(s, i + 1, p, q);
    }
}

/// A `String` holding `v[lo..hi]`.
pub fn string_of(v: &Vec<char>, lo: usize, hi: usize) -> (r: String)
    requires
        lo <= hi <= v.len(),
    ensures
        r@ == v@.subrange(lo as int, hi as int),
{
    let mut r = String::new();
    let mut k: usize = lo;
    while k < hi
        invariant
            lo <= k <= hi <= v.len(),
            r@ == v@.subrange(lo as int, k as int),
        decreases hi - k,
    {
        r.push(v[k]);
        assert(v@.subrange(lo as int, k + 1) == v@.subrange(lo as int, k as int).push(v@[k as int]));
        k += 1;
    }
    r
}

/// Appends the characters of `t` to `acc`.
pub fn push_str(acc: &mut String, t: &str)
    ensures
        final(acc)@ == old(acc)@ + t@,
{
    let tc = chars_of(t);
    let n = tc.len();
    let mut k: usize = 0;
    while k < n
        invariant
            n == tc.len(),
            tc@ == t@,
            k <= n,
            acc@ == old(acc)@ + t@.subrange(0, k as int),
        decreases n - k,
    {
        acc.push(tc[k]);
        assert(t@.subrange(0, k + 1) == t@.subrange(0, k as int).push(t@[k as int]));
        k += 1;
    }
    assert(t@.subrange(0, n as int) == t@);
}

} // verus!
