//! The lexer: a line's characters become a flat sequence of tokens (unquoted
//! text, quoted text, escaped characters and blank runs), or an error when a
//! quote is left open.

use vstd::prelude::*;
use crate::text::{is_space, is_space_char, run_end, lemma_run_end, string_of, chars_of};

verus! {

/// What a token holds, as plain sequences.
pub ghost enum TokenView {
    Literal(Seq<char>),
    SingleQuoted(Seq<char>),
    DoubleQuoted(Seq<char>),
    Escaped(char),
    Boundary,
}

/// A fragment of a line, classified by how it was written.
#[derive(Debug, Clone, PartialEq, Eq)]
pub enum Token {
    /// An unquoted run of characters other than blanks, backslashes and quotes.
    Literal(String),
    /// The text between a pair of single quotes, taken as it stands.
    SingleQuoted(String),
    /// The text between a pair of double quotes, its backslash pairs kept.
    DoubleQuoted(String),
    /// The character after an unquoted backslash.
    Escaped(char),
    /// A run of unquoted blanks, which ends the current argument.
    Boundary,
}

impl View for Token {
    type V = TokenView;

    open spec fn view(&self) -> TokenView {
        match self {
            Token::Literal(t) => TokenView::Literal(t@),
            Token::SingleQuoted(t) => TokenView::SingleQuoted(t@),
            Token::DoubleQuoted(t) => TokenView::DoubleQuoted(t@),
            Token::Escaped(c) => TokenView::Escaped(*c),
            Token::Boundary => TokenView::Boundary,
        }
    }
}

/// The one way lexing fails.
#[derive(Debug, Clone, Copy, PartialEq, Eq)]
pub enum LexError {
    /// A single or double quote was opened and never closed.
    UnterminatedQuote,
}

/// The views of a sequence of tokens.
pub open spec fn views(ts: Seq<Token>) -> Seq<TokenView> {
    ts.map_values(|t: Token| t@)
}

/// A character that may stand in an unquoted literal.
pub open spec fn is_literal_char(c: char) -> bool {
    !is_space(c) && c != '\\' && c != '\'' && c != '"'
}

/// The end of the blank run that starts at `i`.
pub open spec fn blank_end(s: Seq<char>, i: int) -> int {
    run_end(s, i, |c: char| is_space(c))
}

/// The end of the literal run that starts at `i`.
pub open spec fn literal_end(s: Seq<char>, i: int) -> int {
    run_end(s, i, |c: char| is_literal_char(c))
}

/// The index of the first single quote at or after `i`, or the length.
pub open spec fn single_close(s: Seq<char>, i: int) -> int {
    run_end(s, i, |c: char| c != '\'')
}

/// The index of the first double quote at or after `i` that no backslash
/// escapes, or the length; a backslash always pairs with the character after it.
pub open spec fn double_close(s: Seq<char>, i: int) -> int
    decreases s.len() - i,
{
    if i < 0 || i >= s.len() {
        s.len() as int
    } else if s[i] == '"' {
        i
    } else if s[i] == '\\' {
        if i + 1 < s.len() {
            double_close(s, i + 2)
        } else {
            s.len() as int
        }
    } else {
        double_close(s, i + 1)
    }
}

/// The closing double quote, if found, lies inside the sequence and after `i`.
pub proof fn lemma_double_close(s: Seq<char>, i: int)
    requires
        0 <= i <= s.len(),
    ensures
        i <= double_close(s, i) <= s.len(),
        double_close(s, i) < s.len() ==> s[double_close(s, i)] == '"',
    decreases s.len() - i,
{
    if i < s.len() && s[i] != '"' {
        if s[i] == '\\' {
            if i + 1 < s.len() {
                lemma_double_close(s, i + 2);
            }
        } else {
            lemma_double_close(s, i + 1);
        }
    }
}

/// `pre` in front of the tokens of a successful lex; failure stays failure.
pub open spec fn prepend(pre: Seq<TokenView>, r: Option<Seq<TokenView>>) -> Option<Seq<TokenView>> {
    match r {
        Some(ts) => Some(pre + ts),
        None => None,
    }
}

/// The tokens of `s[i..]`, lexing from index `i`, or `None` when a quote is
/// left open. At each index the first rule that applies wins: a blank run, a
/// single-quoted part, a double-quoted part, a backslash and the character
/// after it (a lone backslash at the end stands for itself), a literal run.
pub open spec fn lex_from(s: Seq<char>, i: int) -> Option<Seq<TokenView>>
    decreases s.len() - i,
{
    if i < 0 || i >= s.len() {
        Some(Seq::empty())
    } else {
        let c = s[i];
        if is_space(c) {
            proof {
                lemma_run_end(s, i, |c: char| is_space(c));
            }
            prepend(seq![TokenView::Boundary], lex_from(s, blank_end(s, i)))
        } else if c == '\'' {
            let j = single_close(s, i + 1);
            proof {
                lemma_run_end(s, i + 1, |c: char| c != '\'');
            }
            if j >= s.len() {
                None
            } else {
                prepend(seq![TokenView::SingleQuoted(s.subrange(i + 1, j))], lex_from(s, j + 1))
            }
        } else if c == '"' {
            let j = double_close(s, i + 1);
            proof {
                lemma_double_close(s, i + 1);
            }
            if j >= s.len() {
                None
            } else {
                prepend(seq![TokenView::DoubleQuoted(s.subrange(i + 1, j))], lex_from(s, j + 1))
            }
        } else if c == '\\' {
            if i + 1 < s.len() {
                prepend(seq![TokenView::Escaped(s[i + 1])], lex_from(s, i + 2))
            } else {
                Some(seq![TokenView::Escaped('\\')])
            }
        } else {
            proof {
                lemma_run_end(s, i, |c: char| is_literal_char(c));
            }
            prepend(seq![TokenView::Literal(s.subrange(i, literal_end(s, i)))], lex_from(s, literal_end(s, i)))
        }
    }
}

/// The tokens of a whole line, or `None` when a quote is left open.
pub open spec fn lex(s: Seq<char>) -> Option<Seq<TokenView>> {
    lex_from(s, 0)
}

proof fn lemma_prepend_assoc(pre: Seq<TokenView>, t: Seq<TokenView>, r: Option<Seq<TokenView>>)
    ensures
        prepend(pre, prepend(t, r)) == prepend(pre + t, r),
{
    if let Some(ts) = r {
        assert(pre + (t + ts) =~= (pre + t) + ts);
    }
}

proof fn lemma_views_push(ts: Seq<Token>, t: Token)
    ensures
        views(ts.push(t)) == views(ts) + seq![t@],
{
    assert forall|k: int| 0 <= k < ts.len() + 1 implies #[trigger] views(ts.push(t))[k] == (views(ts)
        + seq![t@])[k] by {
        if k < ts.len() {
            assert(ts.push(t)[k] == ts[k]);
        }
    }
    assert(views(ts.push(t)) =~= views(ts) + seq![t@]);
}

proof fn lemma_lex_step(s: Seq<char>, before: Seq<Token>, tok: Token, i: int, next: int)
    requires
        lex(s) == prepend(views(before), lex_from(s, i)),
        lex_from(s, i) == prepend(seq![tok@], lex_from(s, next)),
    ensures
        lex(s) == prepend(views(before.push(tok)), lex_from(s, next)),
{
    lemma_prepend_assoc(views(before), seq![tok@], lex_from(s, next));
    lemma_views_push(before, tok);
}

/// Lexes the characters of `s`.
pub fn lex_chars(s: &Vec<char>) -> (r: Result<Vec<Token>, LexError>)
    ensures
        r is Err <==> lex(s@) is None,
        r matches Ok(ts) ==> lex(s@) == Some(views(ts@)),
{
    let n = s.len();
    let mut i: usize = 0;
    let mut toks: Vec<Token> = Vec::new();
    while i < n
        invariant
            n == s.len(),
            i <= n,
            lex(s@) == prepend(views(toks@), lex_from(s@, i as int)),
        decreases n - i,
    {
        let ghost before = toks@;
        let c = s[i];
        let tok: Token;
        let next: usize;
        if is_space_char(c) {
            let mut j: usize = i + 1;
            while j < n && is_space_char(s[j])
                invariant
                    n == s.len(),
                    i < j <= n,
                    blank_end(s@, i as int) == blank_end(s@, j as int),
                decreases n - j,
            {
                j += 1;
            }
            tok = Token::Boundary;
            next = j;
        } else if c == '\'' {
            let mut j: usize = i + 1;
            while j < n && s[j] != '\''
                invariant
                    n == s.len(),
                    i < j <= n,
                    single_close(s@, i + 1) == single_close(s@, j as int),
                decreases n - j,
            {
                j += 1;
            }
            if j >= n {
                return Err(LexError::UnterminatedQuote);
            }
            tok = Token::SingleQuoted(string_of(s, i + 1, j));
            next = j + 1;
        } else if c == '"' {
            let mut j: usize = i + 1;
            while j < n && s[j] != '"'
                invariant
                    n == s.len(),
                    i < j,
                    j <= n,
                    double_close(s@, i + 1) == double_close(s@, j as int),
                decreases n - j,
            {
                if s[j] == '\\' {
                    if j + 1 < n {
                        j += 2;
                    } else {
                        j = n;
                    }
                } else {
                    j += 1;
                }
            }
            if j >= n {
                return Err(LexError::UnterminatedQuote);
            }
            tok = Token::DoubleQuoted(string_of(s, i + 1, j));
            next = j + 1;
        } else if c == '\\' {
            if i + 1 < n {
                tok = Token::Escaped(s[i + 1]);
                next = i + 2;
            } else {
                tok = Token::Escaped('\\');
                next = n;
            }
        } else {
            let mut j: usize = i + 1;
            while j < n && s[j] != '\\' && s[j] != '\'' && s[j] != '"' && !is_space_char(s[j])
                invariant
                    n == s.len(),
                    i < j <= n,
                    literal_end(s@, i as int) == literal_end(s@, j as int),
                decreases n - j,
            {
                j += 1;
            }
            tok = Token::Literal(string_of(s, i, j));
            next = j;
        }
        assert(lex_from(s@, i as int) == prepend(seq![tok@], lex_from(s@, next as int)));
        proof {
            lemma_lex_step(s@, before, tok, i as int, next as int);
        }
        toks.push(tok);
        i = next;
    }
    proof {
        assert(views(toks@) + Seq::<TokenView>::empty() =~= views(toks@));
    }
    Ok(toks)
}

/// Lexes one line.
pub fn tokenize(line: &str) -> (r: Result<Vec<Token>, LexError>)
    ensures
        r is Err <==> lex(line@) is None,
        r matches Ok(ts) ==> lex(line@) == Some(views(ts@)),
{
    let s = chars_of(line);
    lex_chars(&s)
}

} // verus!
