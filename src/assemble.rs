//! The argument assembler: tokens become the line's words, with escapes
//! resolved and adjacent fragments joined.

use vstd::prelude::*;
use crate::lexer::{Token, TokenView, views};
use crate::text::{chars_of, push_str};

verus! {

/// The characters that a backslash escapes inside double quotes.
pub open spec fn is_double_escapable(c: char) -> bool {
    c == '\\' || c == '"' || c == '$' || c == 'n'
}

/// What an escaped character stands for inside double quotes: `n` is a
/// newline, the others stand for themselves.
pub open spec fn double_escaped(c: char) -> char {
    if c == 'n' {
        '\n'
    } else {
        c
    }
}

/// Double-quoted text with its escapes resolved, left to right: `\\`, `\"`,
/// `\$` and `\n` become one character each; any other backslash stays.
pub open spec fn unescape_double(t: Seq<char>) -> Seq<char>
    decreases t.len(),
{
    if t.len() == 0 {
        Seq::empty()
    } else if t[0] == '\\' && t.len() >= 2 && is_double_escapable(t[1]) {
        seq![double_escaped(t[1])] + unescape_double(t.subrange(2, t.len() as int))
    } else {
        seq![t[0]] + unescape_double(t.subrange(1, t.len() as int))
    }
}

/// Resolves the escapes of the text of a double-quoted fragment.
pub fn escape_double_quoted_arg(arg: &str) -> (r: String)
    ensures
        r@ == unescape_double(arg@),
{
    let t = chars_of(arg);
    unescape_double_chars(&t)
}

fn unescape_double_chars(t: &Vec<char>) -> (r: String)
    ensures
        r@ == unescape_double(t@),
{
    let n = t.len();
    let mut r = String::new();
    let mut k: usize = 0;
    assert(t@.subrange(0, n as int) =~= t@);
    assert(Seq::<char>::empty() + t@ =~= t@);
    while k < n
        invariant
            n == t.len(),
            k <= n,
            unescape_double(t@) == r@ + unescape_double(t@.subrange(k as int, n as int)),
        decreases n - k,
    {
        let ghost rest = t@.subrange(k as int, n as int);
        let c = t[k];
        if c == '\\' && k + 1 < n && (t[k + 1] == '\\' || t[k + 1] == '"' || t[k + 1] == '$' || t[k
            + 1] == 'n') {
            let e = t[k + 1];
            let ghost before = r@;
            if e == 'n' {
                r.push('\n');
            } else {
                r.push(e);
            }
            assert(rest.subrange(2, rest.len() as int) == t@.subrange(k + 2, n as int));
            assert(before + (seq![double_escaped(e)] + unescape_double(rest.subrange(2, rest.len() as int)))
                == r@ + unescape_double(t@.subrange(k + 2, n as int)));
            k += 2;
        } else {
            let ghost before = r@;
            r.push(c);
            assert(rest.subrange(1, rest.len() as int) == t@.subrange(k + 1, n as int));
            assert(before + (seq![c] + unescape_double(rest.subrange(1, rest.len() as int))) == r@
                + unescape_double(t@.subrange(k + 1, n as int)));
            k += 1;
        }
    }
    assert(t@.subrange(n as int, n as int) =~= Seq::<char>::empty());
    assert(r@ + Seq::<char>::empty() =~= r@);
    r
}

/// The words that a token sequence assembles to, given the characters `acc`
/// already gathered for the current word. Quoted and literal text, and
/// escaped characters, join the current word; a boundary ends it, and a word
/// is kept only when it is not empty.
pub open spec fn assemble_from(ts: Seq<TokenView>, acc: Seq<char>) -> Seq<Seq<char>>
    decreases ts.len(),
{
    if ts.len() == 0 {
        if acc.len() > 0 {
            seq![acc]
        } else {
            Seq::empty()
        }
    } else {
        let rest = ts.subrange(1, ts.len() as int);
        match ts[0] {
            TokenView::Boundary => if acc.len() > 0 {
                seq![acc] + assemble_from(rest, Seq::empty())
            } else {
                assemble_from(rest, Seq::empty())
            },
            TokenView::Literal(t) => assemble_from(rest, acc + t),
            TokenView::SingleQuoted(t) => assemble_from(rest, acc + t),
            TokenView::DoubleQuoted(t) => assemble_from(rest, acc + unescape_double(t)),
            TokenView::Escaped(c) => assemble_from(rest, acc.push(c)),
        }
    }
}

/// The words of a token sequence.
pub open spec fn assemble_words(ts: Seq<TokenView>) -> Seq<Seq<char>> {
    assemble_from(ts, Seq::empty())
}

/// The character sequences of a list of strings.
pub open spec fn strings(v: Seq<String>) -> Seq<Seq<char>> {
    v.map_values(|s: String| s@)
}

proof fn lemma_strings_push(v: Seq<String>, s: String)
    ensures
        strings(v.push(s)) == strings(v) + seq![s@],
{
    assert forall|k: int| 0 <= k < v.len() + 1 implies #[trigger] strings(v.push(s))[k] == (strings(v)
        + seq![s@])[k] by {
        if k < v.len() {
            assert(v.push(s)[k] == v[k]);
        }
    }
    assert(strings(v.push(s)) =~= strings(v) + seq![s@]);
}

proof fn lemma_assemble_step(all: Seq<TokenView>, k: int)
    requires
        0 <= k < all.len(),
    ensures
        all.subrange(k, all.len() as int)[0] == all[k],
        all.subrange(k, all.len() as int).subrange(1, all.len() - k) == all.subrange(k + 1, all.len() as int),
{
    assert(all.subrange(k, all.len() as int).subrange(1, all.len() - k) =~= all.subrange(k + 1, all.len() as int));
}

/// Assembles the words of a token sequence.
pub fn assemble(tokens: &Vec<Token>) -> (r: Vec<String>)
    ensures
        strings(r@) == assemble_words(views(tokens@)),
{
    let n = tokens.len();
    let ghost all = views(tokens@);
    let mut out: Vec<String> = Vec::new();
    let mut acc = String::new();
    let mut k: usize = 0;
    assert(all.subrange(0, n as int) =~= all);
    assert(Seq::<Seq<char>>::empty() + assemble_words(all) =~= assemble_words(all));
    while k < n
        invariant
            n == tokens.len(),
            all == views(tokens@),
            k <= n,
            assemble_words(all) == strings(out@) + assemble_from(all.subrange(k as int, n as int), acc@),
        decreases n - k,
    {
        proof {
            lemma_assemble_step(all, k as int);
        }
        let ghost rest = all.subrange(k as int + 1, n as int);
        let ghost before = out@;
        let ghost acc0 = acc@;
        assert(all[k as int] == tokens@[k as int]@);
        match &tokens[k] {
            Token::Boundary => {
                if !acc.as_str().is_empty() {
                    let done = acc;
                    out.push(done);
                    acc = String::new();
                    proof {
                        lemma_strings_push(before, done);
                        assert(strings(before) + (seq![acc0] + assemble_from(rest, Seq::empty()))
                            =~= strings(out@) + assemble_from(rest, acc@));
                    }
                } else {
                    assert(acc@ =~= Seq::<char>::empty());
                }
            },
            Token::Literal(t) => {
                push_str(&mut acc, t.as_str());
                assert(assemble_from(all.subrange(k as int, n as int), acc0) == assemble_from(rest, acc@));
            },
            Token::SingleQuoted(t) => {
                push_str(&mut acc, t.as_str());
                assert(assemble_from(all.subrange(k as int, n as int), acc0) == assemble_from(rest, acc@));
            },
            Token::DoubleQuoted(t) => {
                let u = escape_double_quoted_arg(t.as_str());
                push_str(&mut acc, u.as_str());
                assert(assemble_from(all.subrange(k as int, n as int), acc0) == assemble_from(rest, acc@));
            },
            Token::Escaped(c) => {
                acc.push(*c);
                assert(assemble_from(all.subrange(k as int, n as int), acc0) == assemble_from(rest, acc@));
            },
        }
        assert(strings(before) + assemble_from(all.subrange(k as int, n as int), acc0) == strings(out@)
            + assemble_from(rest, acc@));
        k += 1;
    }
    if !acc.as_str().is_empty() {
        let ghost before = out@;
        out.push(acc);
        proof {
            lemma_strings_push(before, acc);
        }
    }
    proof {
        assert(strings(out@) + Seq::<Seq<char>>::empty() =~= strings(out@));
    }
    out
}

} // verus!
