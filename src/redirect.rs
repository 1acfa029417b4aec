//! The redirection extractor: it finds the first unquoted `[fd]>` or
//! `[fd]>>` operator of a line and splits the line into the part that holds
//! the command and its arguments, and the redirection that the rest names.

use vstd::prelude::*;
use crate::lexer::{blank_end, single_close, double_close, lemma_double_close};
use crate::text::{is_space, is_space_char, lemma_run_end, string_of, chars_of};

verus! {

/// The standard stream that a redirection sends elsewhere.
#[derive(Debug, Clone, Copy, PartialEq, Eq)]
pub enum Stream {
    Stdout,
    Stderr,
}

/// How a redirection opens its target.
#[derive(Debug, Clone, Copy, PartialEq, Eq)]
pub enum Mode {
    /// `>`: the target is emptied first.
    Truncate,
    /// `>>`: output goes after what the target holds.
    Append,
}

/// Where a command's output goes.
#[derive(Debug, Clone, PartialEq, Eq)]
pub enum Redirection {
    /// The inherited standard streams.
    Inherit,
    /// The file at `path`, in place of `stream`.
    Target { stream: Stream, mode: Mode, path: String },
}

/// A redirection, with its path as a sequence of characters.
pub ghost enum RedirectionView {
    Inherit,
    Target { stream: Stream, mode: Mode, path: Seq<char> },
}

impl View for Redirection {
    type V = RedirectionView;

    open spec fn view(&self) -> RedirectionView {
        match self {
            Redirection::Inherit => RedirectionView::Inherit,
            Redirection::Target { stream, mode, path } => RedirectionView::Target {
                stream: *stream,
                mode: *mode,
                path: path@,
            },
        }
    }
}

/// An ASCII decimal digit.
pub open spec fn is_digit(c: char) -> bool {
    '0' <= c && c <= '9'
}

/// Scans `s` from index `i`, which lies outside any quote, for the first
/// operator character `>` that is neither quoted nor escaped. `d` is where
/// the run of plain digits that ends at `i` began. The result is the index of
/// the operator and the start of the digits right before it, or the length
/// twice when there is no such operator.
pub open spec fn operator_from(s: Seq<char>, i: int, d: int) -> (int, int)
    decreases s.len() - i,
{
    if i < 0 || i >= s.len() {
        (s.len() as int, s.len() as int)
    } else {
        let c = s[i];
        if c == '>' {
            (i, d)
        } else if is_digit(c) {
            operator_from(s, i + 1, d)
        } else if c == '\'' {
            let j = single_close(s, i + 1);
            proof {
                lemma_run_end(s, i + 1, |c: char| c != '\'');
            }
            if j >= s.len() {
                (s.len() as int, s.len() as int)
            } else {
                operator_from(s, j + 1, j + 1)
            }
        } else if c == '"' {
            let j = double_close(s, i + 1);
            proof {
                lemma_double_close(s, i + 1);
            }
            if j >= s.len() {
                (s.len() as int, s.len() as int)
            } else {
                operator_from(s, j + 1, j + 1)
            }
        } else if c == '\\' {
            if i + 1 < s.len() {
                operator_from(s, i + 2, i + 2)
            } else {
                (s.len() as int, s.len() as int)
            }
        } else {
            operator_from(s, i + 1, i + 1)
        }
    }
}

/// The stream that a file-descriptor prefix selects: none or `1` is standard
/// output, `2` standard error; anything else selects nothing.
pub open spec fn stream_of(fd: Seq<char>) -> Option<Stream> {
    if fd.len() == 0 || fd == seq!['1'] {
        Some(Stream::Stdout)
    } else if fd == seq!['2'] {
        Some(Stream::Stderr)
    } else {
        None
    }
}

/// `t` without its trailing blanks.
pub open spec fn trim_end(t: Seq<char>) -> Seq<char>
    decreases t.len(),
{
    if t.len() > 0 && is_space(t.last()) {
        trim_end(t.drop_last())
    } else {
        t
    }
}

/// `t` without its leading and trailing blanks.
pub open spec fn trim(t: Seq<char>) -> Seq<char> {
    trim_end(t.subrange(blank_end(t, 0), t.len() as int))
}

/// A line split into the part before its redirection and the redirection.
/// The first unquoted, unescaped `>` is the operator; a second `>` right
/// after it asks for append mode; the digits right before it choose the
/// stream; the rest of the line, trimmed, is the target. When the digits
/// choose no stream, or the target is empty, the line holds no redirection
/// and stays whole.
pub open spec fn split_redirection(s: Seq<char>) -> (Seq<char>, RedirectionView) {
    let (p, d) = operator_from(s, 0, 0);
    if p >= s.len() {
        (s, RedirectionView::Inherit)
    } else {
        let append = p + 1 < s.len() && s[p + 1] == '>';
        let q = if append {
            p + 2
        } else {
            p + 1
        };
        let path = trim(s.subrange(q, s.len() as int));
        match stream_of(s.subrange(d, p)) {
            Some(stream) => if path.len() == 0 {
                (s, RedirectionView::Inherit)
            } else {
                (
                    s.subrange(0, d),
                    RedirectionView::Target {
                        stream,
                        mode: if append {
                            Mode::Append
                        } else {
                            Mode::Truncate
                        },
                        path,
                    },
                )
            },
            None => (s, RedirectionView::Inherit),
        }
    }
}

/// Whether the line holds a redirection.
pub open spec fn has_redirection(s: Seq<char>) -> bool {
    split_redirection(s).1 != RedirectionView::Inherit
}

/// The operator's position in `s`, as `operator_from(s, 0, 0)` gives it.
fn find_operator(s: &Vec<char>) -> (r: (usize, usize))
    ensures
        r.0 <= s.len(),
        r.1 <= r.0,
        operator_from(s@, 0, 0) == (if r.0 == s.len() {
            (s.len() as int, s.len() as int)
        } else {
            (r.0 as int, r.1 as int)
        }),
        r.0 < s.len() ==> s@[r.0 as int] == '>',
{
    let n = s.len();
    let mut i: usize = 0;
    let mut d: usize = 0;
    while i < n && s[i] != '>'
        invariant
            n == s.len(),
            d <= i <= n,
            operator_from(s@, 0, 0) == operator_from(s@, i as int, d as int),
        decreases n - i,
    {
        let c = s[i];
        if '0' <= c && c <= '9' {
            i += 1;
        } else if c == '\'' {
            let mut j: usize = i + 1;
            while j < n && s[j] != '\''
                invariant
                    n == s.len(),
                    i < j <= n,
                    single_close(s@, i + 1) == single_close(s@, j as int),
                decreases n - j,
            {
                j += 1;
            }
            if j >= n {
                i = n;
                d = n;
            } else {
                i = j + 1;
                d = j + 1;
            }
        } else if c == '"' {
            let mut j: usize = i + 1;
            while j < n && s[j] != '"'
                invariant
                    n == s.len(),
                    i < j <= n,
                    double_close(s@, i + 1) == double_close(s@, j as int),
                decreases n - j,
            {
                if s[j] == '\\' && j + 1 < n {
                    j += 2;
                } else if s[j] == '\\' {
                    j = n;
                } else {
                    j += 1;
                }
            }
            if j >= n {
                i = n;
                d = n;
            } else {
                i = j + 1;
                d = j + 1;
            }
        } else if c == '\\' {
            if i + 1 < n {
                i += 2;
                d = i;
            } else {
                i = n;
                d = n;
            }
        } else {
            i += 1;
            d = i;
        }
    }
    if i >= n {
        (n, n)
    } else {
        (i, d)
    }
}

/// Splits the characters of a line as `split_redirection` does: the length
/// of the part before the redirection, and the redirection.
pub fn split_redirection_chars(s: &Vec<char>) -> (r: (usize, Redirection))
    ensures
        r.0 <= s.len(),
        split_redirection(s@) == (s@.subrange(0, r.0 as int), r.1@),
{
    let n = s.len();
    let (p, d) = find_operator(s);
    if p >= n {
        assert(s@.subrange(0, n as int) =~= s@);
        return (n, Redirection::Inherit);
    }
    let append = p + 1 < n && s[p + 1] == '>';
    let q = if append {
        p + 2
    } else {
        p + 1
    };
    let stream: Stream;
    if p == d {
        assert(s@.subrange(d as int, p as int).len() == 0);
        stream = Stream::Stdout;
    } else if p == d + 1 && s[d] == '1' {
        assert(s@.subrange(d as int, p as int) =~= seq!['1']);
        stream = Stream::Stdout;
    } else if p == d + 1 && s[d] == '2' {
        assert(s@.subrange(d as int, p as int) =~= seq!['2']);
        assert(seq!['2'] != seq!['1']) by {
            assert(seq!['2'][0] != seq!['1'][0]);
        }
        stream = Stream::Stderr;
    } else {
        let ghost fd = s@.subrange(d as int, p as int);
        assert(fd != seq!['1'] && fd != seq!['2']) by {
            if fd == seq!['1'] || fd == seq!['2'] {
                assert(fd.len() == 1);
                assert(fd[0] == s@[d as int]);
            }
        }
        assert(s@.subrange(0, n as int) =~= s@);
        return (n, Redirection::Inherit);
    }
    let (a, e) = trim_bounds(s, q);
    if e == a {
        assert(s@.subrange(0, n as int) =~= s@);
        return (n, Redirection::Inherit);
    }
    let path = string_of(s, a, e);
    let mode = if append {
        Mode::Append
    } else {
        Mode::Truncate
    };
    (d, Redirection::Target { stream, mode, path })
}

/// Splits a line into the text before its redirection and the redirection.
pub fn extract_redirection(line: &str) -> (r: (String, Redirection))
    ensures
        split_redirection(line@) == (r.0@, r.1@),
{
    let s = chars_of(line);
    let (k, redirection) = split_redirection_chars(&s);
    (string_of(&s, 0, k), redirection)
}

/// The bounds of `v[lo..]` without its leading and trailing blanks.
fn trim_bounds(v: &Vec<char>, lo: usize) -> (r: (usize, usize))
    requires
        lo <= v.len(),
    ensures
        lo <= r.0 <= r.1 <= v.len(),
        v@.subrange(r.0 as int, r.1 as int) == trim(v@.subrange(lo as int, v.len() as int)),
{
    let n = v.len();
    let ghost t = v@.subrange(lo as int, n as int);
    let mut a: usize = lo;
    while a < n && is_space_char(v[a])
        invariant
            n == v.len(),
            lo <= a <= n,
            t == v@.subrange(lo as int, n as int),
            blank_end(t, 0) == blank_end(t, a - lo),
        decreases n - a,
    {
        a += 1;
    }
    assert(blank_end(t, a - lo) == a - lo);
    let ghost u = t.subrange(a - lo, t.len() as int);
    let mut e: usize = n;
    assert(u.subrange(0, (e - a) as int) =~= u);
    while e > a && is_space_char(v[e - 1])
        invariant
            n == v.len(),
            a <= e <= n,
            u == v@.subrange(a as int, n as int),
            trim_end(u) == trim_end(u.subrange(0, (e - a) as int)),
        decreases e,
    {
        assert(u.subrange(0, (e - a) as int).drop_last() =~= u.subrange(0, (e - 1 - a) as int));
        e -= 1;
    }
    let ghost w = u.subrange(0, (e - a) as int);
    if e > a {
        assert(w.last() == v@[e - 1]);
    }
    assert(trim_end(w) == w);
    assert(w =~= v@.subrange(a as int, e as int));
    (a, e)
}

/// The characters of `s` without its leading and trailing blanks.
pub fn trim_chars(s: &str) -> (r: Vec<char>)
    ensures
        r@ == trim(s@),
{
    let v = chars_of(s);
    let (a, e) = trim_bounds(&v, 0);
    assert(v@.subrange(0, v@.len() as int) =~= v@);
    let mut r: Vec<char> = Vec::new();
    let mut k: usize = a;
    while k < e
        invariant
            a <= k <= e <= v.len(),
            r@ == v@.subrange(a as int, k as int),
        decreases e - k,
    {
        r.push(v[k]);
        assert(v@.subrange(a as int, k + 1) == v@.subrange(a as int, k as int).push(v@[k as int]));
        k += 1;
    }
    r
}

} // verus!
