//! The whole line parser: redirection extraction, lexing, assembly, and the
//! split of the words into a command and its arguments.

use vstd::prelude::*;
use crate::assemble::{assemble, assemble_from, assemble_words, strings};
use crate::lexer::{LexError, TokenView, lex, lex_chars, lex_from, blank_end, literal_end, is_literal_char};
use crate::redirect::{Redirection, RedirectionView, split_redirection, split_redirection_chars, has_redirection};
use crate::text::{is_space, run_end, lemma_run_end, lemma_run_end_agree, chars_of};

verus! {

/// A parsed line: the command, its arguments and where its output goes.
#[derive(Debug, Clone, PartialEq, Eq)]
pub struct ParsedLine {
    pub command: String,
    pub arguments: Vec<String>,
    pub redirection: Redirection,
}

/// A parsed line, as sequences of characters.
pub ghost struct ParsedLineView {
    pub command: Seq<char>,
    pub arguments: Seq<Seq<char>>,
    pub redirection: RedirectionView,
}

impl View for ParsedLine {
    type V = ParsedLineView;

    open spec fn view(&self) -> ParsedLineView {
        ParsedLineView {
            command: self.command@,
            arguments: strings(self.arguments@),
            redirection: self.redirection@,
        }
    }
}

/// The line that a list of words and a redirection make: the first word is
/// the command and the others its arguments. Without words the line is the
/// empty command, with no arguments and no redirection.
pub open spec fn line_of_words(words: Seq<Seq<char>>, redirection: RedirectionView) -> ParsedLineView {
    if words.len() == 0 {
        ParsedLineView {
            command: Seq::empty(),
            arguments: Seq::empty(),
            redirection: RedirectionView::Inherit,
        }
    } else {
        ParsedLineView {
            command: words[0],
            arguments: words.subrange(1, words.len() as int),
            redirection,
        }
    }
}

/// What a line parses to: its redirection is split off first, the rest is
/// lexed and assembled into words, and the words make the line.
pub open spec fn parse_line(s: Seq<char>) -> Result<ParsedLineView, LexError> {
    let (region, redirection) = split_redirection(s);
    match lex(region) {
        Some(ts) => Ok(line_of_words(assemble_words(ts), redirection)),
        None => Err(LexError::UnterminatedQuote),
    }
}

fn prefix(s: &Vec<char>, k: usize) -> (r: Vec<char>)
    requires
        k <= s.len(),
    ensures
        r@ == s@.subrange(0, k as int),
{
    let mut r: Vec<char> = Vec::new();
    let mut i: usize = 0;
    while i < k
        invariant
            k <= s.len(),
            i <= k,
            r@ == s@.subrange(0, i as int),
        decreases k - i,
    {
        r.push(s[i]);
        assert(s@.subrange(0, i + 1) == s@.subrange(0, i as int).push(s@[i as int]));
        i += 1;
    }
    r
}

/// Parses one line of input into a command, its arguments and its
/// redirection; fails only when a quote is left open.
pub fn parse_input(input: &str) -> (r: Result<ParsedLine, LexError>)
    ensures
        match r {
            Ok(line) => parse_line(input@) == Ok::<ParsedLineView, LexError>(line@),
            Err(e) => parse_line(input@) == Err::<ParsedLineView, LexError>(e),
        },
{
    let s = chars_of(input);
    let (k, redirection) = split_redirection_chars(&s);
    let region = prefix(&s, k);
    let tokens = match lex_chars(&region) {
        Ok(tokens) => tokens,
        Err(e) => {
            return Err(e);
        },
    };
    let mut words = assemble(&tokens);
    if words.len() == 0 {
        let line = ParsedLine {
            command: String::new(),
            arguments: Vec::new(),
            redirection: Redirection::Inherit,
        };
        assert(line@.arguments =~= Seq::<Seq<char>>::empty());
        return Ok(line);
    }
    let ghost all = words@;
    let command = words.remove(0);
    assert(strings(words@) =~= strings(all).subrange(1, all.len() as int));
    Ok(ParsedLine { command, arguments: words, redirection })
}

/// The words of `s[i..]` that blank runs separate, for text without quotes,
/// backslashes or redirections.
pub open spec fn blank_separated_from(s: Seq<char>, i: int) -> Seq<Seq<char>>
    decreases s.len() - i,
{
    if i < 0 || i >= s.len() {
        Seq::empty()
    } else if is_space(s[i]) {
        blank_separated_from(s, i + 1)
    } else {
        let j = run_end(s, i, |c: char| !is_space(c));
        proof {
            lemma_run_end(s, i, |c: char| !is_space(c));
        }
        seq![s.subrange(i, j)] + blank_separated_from(s, j)
    }
}

/// The words of `s` that blank runs separate.
pub open spec fn blank_separated(s: Seq<char>) -> Seq<Seq<char>> {
    blank_separated_from(s, 0)
}

/// A line with no quote or backslash character.
pub open spec fn is_plain(s: Seq<char>) -> bool {
    forall|k: int| 0 <= k < s.len() ==> #[trigger] s[k] != '\'' && s[k] != '"' && s[k] != '\\'
}

proof fn lemma_skip_blanks(s: Seq<char>, i: int)
    requires
        0 <= i <= s.len(),
    ensures
        blank_separated_from(s, i) == blank_separated_from(s, blank_end(s, i)),
    decreases s.len() - i,
{
    if i < s.len() && is_space(s[i]) {
        lemma_skip_blanks(s, i + 1);
    }
}

proof fn lemma_plain_words(s: Seq<char>, i: int)
    requires
        is_plain(s),
        0 <= i <= s.len(),
    ensures
        lex_from(s, i) is Some,
        assemble_from(lex_from(s, i)->0, Seq::empty()) == blank_separated_from(s, i),
    decreases s.len() - i,
{
    if i < s.len() {
        if is_space(s[i]) {
            let b = blank_end(s, i);
            lemma_run_end(s, i, |c: char| is_space(c));
            lemma_plain_words(s, b);
            lemma_skip_blanks(s, i + 1);
            let ts = lex_from(s, b)->0;
            assert((seq![TokenView::Boundary] + ts).subrange(1, ts.len() as int + 1) =~= ts);
            assert(lex_from(s, i) == Some(seq![TokenView::Boundary] + ts));
            assert(blank_end(s, i) == blank_end(s, i + 1));
            assert(assemble_from(seq![TokenView::Boundary] + ts, Seq::empty()) == assemble_from(ts, Seq::empty()));
            assert(blank_separated_from(s, i) == blank_separated_from(s, b));
        } else {
            let j = literal_end(s, i);
            lemma_run_end(s, i, |c: char| is_literal_char(c));
            lemma_run_end_agree(s, i, |c: char| is_literal_char(c), |c: char| !is_space(c));
            let t = s.subrange(i, j);
            let lit = seq![TokenView::Literal(t)];
            assert(Seq::<char>::empty() + t =~= t);
            if j == s.len() {
                assert((lit + Seq::<TokenView>::empty()).subrange(1, 1) =~= Seq::<TokenView>::empty());
                assert(lit + Seq::<TokenView>::empty() =~= lit);
                assert(lex_from(s, i) == Some(lit));
                assert(t.len() > 0);
                assert(lit.subrange(1, 1) =~= Seq::<TokenView>::empty());
                assert(assemble_from(Seq::<TokenView>::empty(), t) == seq![t]);
                assert(assemble_from(lit, Seq::empty()) == seq![t]);
                assert(blank_separated_from(s, i) == seq![t] + blank_separated_from(s, j));
                assert(seq![t] + Seq::<Seq<char>>::empty() =~= seq![t]);
            } else {
                let b = blank_end(s, j);
                lemma_run_end(s, j, |c: char| is_space(c));
                lemma_plain_words(s, b);
                lemma_skip_blanks(s, j);
                let ts = lex_from(s, b)->0;
                let bts = seq![TokenView::Boundary] + ts;
                assert(lex_from(s, j) == Some(bts));
                assert((lit + bts).subrange(1, bts.len() as int + 1) =~= bts);
                assert(bts.subrange(1, ts.len() as int + 1) =~= ts);
                assert(lex_from(s, i) == Some(lit + bts));
                assert(assemble_from(lit + bts, Seq::empty()) == assemble_from(bts, t));
                assert(assemble_from(bts, t) == seq![t] + assemble_from(ts, Seq::empty()));
                assert(blank_separated_from(s, i) == seq![t] + blank_separated_from(s, j));
            }
        }
    }
}

/// A line without quotes, backslashes or a redirection parses as its
/// blank-separated words: the first is the command, the others are its
/// arguments, and output is not redirected.
pub proof fn plain_line_splits_on_blanks(s: Seq<char>)
    requires
        is_plain(s),
        !has_redirection(s),
    ensures
        parse_line(s) == Ok::<ParsedLineView, LexError>(line_of_words(blank_separated(s), RedirectionView::Inherit)),
{
    lemma_plain_words(s, 0);
}

/// Parsing is a function of the line's characters alone: equal lines parse
/// to equal results, however often and wherever the parse runs.
pub proof fn parse_is_deterministic(a: Seq<char>, b: Seq<char>)
    requires
        a == b,
    ensures
        parse_line(a) == parse_line(b),
{
}

} // verus!
