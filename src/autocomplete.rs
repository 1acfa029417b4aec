//! Tab completion of command names: the word under the cursor is completed
//! to each known command that it begins.

use vstd::prelude::*;
use vstd::utf8::{encode_utf8, decode_utf8, is_char_boundary};
use vstd::string::StringSliceAdditionalSpecFns;
use crate::builtin::same_chars;
use crate::redirect::{trim, trim_chars};
use crate::text::chars_of;

verus! {

broadcast use vstd::utf8::encode_utf8_decode_utf8;

/// The characters that end a word for completion.
pub open spec fn is_break(c: char) -> bool {
    c == ' ' || c == '\t' || c == '\n'
}

/// Whether `c` ends a word for completion.
pub fn is_break_char(c: char) -> (r: bool)
    ensures
        r == is_break(c),
{
    c == ' ' || c == '\t' || c == '\n'
}

/// The UTF-8 encodings of the break characters, each one byte long.
pub open spec fn is_break_byte(b: u8) -> bool {
    b == 0x20 || b == 0x09 || b == 0x0a
}

/// The byte index where the word that ends at byte `pos` starts: just after
/// the last break character before `pos`, or 0.
pub open spec fn word_start(b: Seq<u8>, pos: int) -> int
    decreases pos,
{
    if pos <= 0 {
        0
    } else if is_break_byte(b[pos - 1]) {
        pos
    } else {
        word_start(b, pos - 1)
    }
}

/// Relies on `rustyline::completion::extract_word`, called without an escape
/// character: it returns the text of `line[..pos]` after the last break
/// character, and the byte index where that text starts.
#[verifier::external_body]
fn word_before(line: &str, pos: usize) -> (r: (usize, String))
    requires
        is_char_boundary(line.spec_bytes(), pos as int),
    ensures
        r.0 == word_start(line.spec_bytes(), pos as int),
        is_char_boundary(line.spec_bytes(), r.0 as int),
        encode_utf8(r.1@) == line.spec_bytes().subrange(r.0 as int, pos as int),
{
    let (start, word) = rustyline::completion::extract_word(line, pos, None, is_break_char);
    (start, word.to_string())
}

/// A command that completion offers, and the text that must stand before
/// it on the line for it to be offered.
#[derive(Debug, Clone, PartialEq, Eq, Hash)]
pub struct Command {
    cmd: String,
    pre_cmd: String,
}

impl View for Command {
    type V = (Seq<char>, Seq<char>);

    closed spec fn view(&self) -> (Seq<char>, Seq<char>) {
        (self.cmd@, self.pre_cmd@)
    }
}

impl Command {
    pub fn new(cmd: &str, pre_cmd: &str) -> (r: Self)
        ensures
            r@ == (cmd@, pre_cmd@),
    {
        let mut c = String::new();
        crate::text::push_str(&mut c, cmd);
        let mut p = String::new();
        crate::text::push_str(&mut p, pre_cmd);
        Command { cmd: c, pre_cmd: p }
    }
}

/// A completion: the text to show, and the text that replaces the word.
#[derive(Debug, Clone, PartialEq, Eq)]
pub struct Completion {
    pub display: String,
    pub replacement: String,
}

/// The names of the commands, in order, that the word begins and whose
/// required leading text is `pre`.
pub open spec fn matching(cmds: Seq<(Seq<char>, Seq<char>)>, word: Seq<char>, pre: Seq<char>) -> Seq<Seq<char>>
    decreases cmds.len(),
{
    if cmds.len() == 0 {
        Seq::empty()
    } else {
        let rest = matching(cmds.drop_last(), word, pre);
        let c = cmds.last();
        if word.is_prefix_of(c.0) && c.1 == pre {
            rest.push(c.0)
        } else {
            rest
        }
    }
}

/// The completions offer each name, to be replaced by the name and a space.
pub open spec fn offers(r: Seq<Completion>, names: Seq<Seq<char>>) -> bool {
    &&& r.len() == names.len()
    &&& forall|i: int|
        0 <= i < r.len() ==> (#[trigger] r[i]).display@ == names[i] && r[i].replacement@
            == names[i].push(' ')
}

/// The names of a list of strings.
pub open spec fn names_of(v: Seq<String>) -> Seq<Seq<char>> {
    v.map_values(|s: String| s@)
}

/// The names of the commands.
pub open spec fn command_names(cmds: Seq<(Seq<char>, Seq<char>)>) -> Seq<Seq<char>> {
    cmds.map_values(|c: (Seq<char>, Seq<char>)| c.0)
}

proof fn lemma_push_to_set(s: Seq<Seq<char>>, x: Seq<char>)
    ensures
        s.push(x).to_set() == s.to_set().insert(x),
{
    assert forall|a: Seq<char>| #[trigger] s.push(x).contains(a) implies s.contains(a) || a == x by {
        let i = choose|i: int| 0 <= i < s.len() + 1 && s.push(x)[i] == a;
        if i < s.len() {
            assert(s[i] == a);
        }
    }
    assert forall|a: Seq<char>| s.contains(a) implies #[trigger] s.push(x).contains(a) by {
        let i = choose|i: int| 0 <= i < s.len() && s[i] == a;
        assert(s.push(x)[i] == a);
    }
    assert(s.push(x)[s.len() as int] == x);
    assert(s.push(x).to_set() =~= s.to_set().insert(x));
}

/// The commands that completion knows, each once.
pub struct Autocompleter {
    cmds: Vec<Command>,
}

impl View for Autocompleter {
    type V = Seq<(Seq<char>, Seq<char>)>;

    closed spec fn view(&self) -> Seq<(Seq<char>, Seq<char>)> {
        self.cmds@.map_values(|c: Command| c@)
    }
}

fn starts_with(word: &Vec<char>, s: &str) -> (r: bool)
    ensures
        r == word@.is_prefix_of(s@),
{
    let t = chars_of(s);
    if word.len() > t.len() {
        return false;
    }
    let mut k: usize = 0;
    while k < word.len()
        invariant
            word.len() <= t.len(),
            t@ == s@,
            k <= word.len(),
            forall|j: int| 0 <= j < k ==> word@[j] == t@[j],
        decreases word.len() - k,
    {
        if word[k] != t[k] {
            return false;
        }
        k += 1;
    }
    assert(word@ =~= s@.subrange(0, word@.len() as int));
    true
}

impl Autocompleter {
    /// No command is known twice.
    pub closed spec fn wf(&self) -> bool {
        forall|i: int, j: int|
            0 <= i < j < self@.len() ==> #[trigger] self@[i] != #[trigger] self@[j]
    }

    /// Knows each of `cmds`, to be offered at the start of a line.
    pub fn new(cmds: &[String]) -> (r: Self)
        ensures
            r.wf(),
            forall|i: int| 0 <= i < r@.len() ==> (#[trigger] r@[i]).1 == Seq::<char>::empty(),
            command_names(r@).to_set() == names_of(cmds@).to_set(),
    {
        let mut r = Autocompleter { cmds: Vec::new() };
        assert(r@ =~= Seq::<(Seq<char>, Seq<char>)>::empty());
        let ghost all = names_of(cmds@);
        let mut j: usize = 0;
        assert(all.subrange(0, 0) =~= Seq::<Seq<char>>::empty());
        assert(command_names(r@) =~= Seq::<Seq<char>>::empty());
        while j < cmds.len()
            invariant
                j <= cmds@.len(),
                all == names_of(cmds@),
                r.wf(),
                forall|i: int| 0 <= i < r@.len() ==> (#[trigger] r@[i]).1 == Seq::<char>::empty(),
                command_names(r@).to_set() == all.subrange(0, j as int).to_set(),
            decreases cmds@.len() - j,
        {
            let ghost old_view = r@;
            let ghost done = all.subrange(0, j as int);
            assert(all.subrange(0, j + 1) =~= done.push(cmds@[j as int]@));
            proof {
                lemma_push_to_set(done, cmds@[j as int]@);
            }
            let found = r.position(&cmds[j]);
            match found {
                Some(i) => {
                    assert(command_names(old_view)[i as int] == cmds@[j as int]@);
                    assert(done.to_set().insert(cmds@[j as int]@) =~= done.to_set());
                },
                None => {
                    let c = Command::new(cmds[j].as_str(), "");
                    proof {
                        reveal_strlit("");
                    }
                    r.add(c);
                    proof {
                        lemma_push_to_set(command_names(old_view), c@.0);
                        assert(command_names(r@) =~= command_names(old_view).push(c@.0));
                    }
                },
            }
            j += 1;
        }
        assert(all.subrange(0, cmds@.len() as int) =~= all);
        r
    }

    /// Where the command named `name` stands, if it is known.
    fn position(&self, name: &String) -> (r: Option<usize>)
        ensures
            r matches Some(i) ==> i < self@.len() && self@[i as int].0 == name@,
            r is None ==> forall|i: int| 0 <= i < self@.len() ==> (#[trigger] self@[i]).0 != name@,
    {
        let mut k: usize = 0;
        while k < self.cmds.len()
            invariant
                k <= self@.len(),
                self@.len() == self.cmds@.len(),
                forall|i: int| 0 <= i < k ==> (#[trigger] self@[i]).0 != name@,
            decreases self.cmds@.len() - k,
        {
            if self.cmds[k].cmd == *name {
                return Some(k);
            }
            k += 1;
        }
        None
    }

    /// Adds a command that is not yet known.
    fn add(&mut self, c: Command)
        requires
            old(self).wf(),
            forall|i: int| 0 <= i < old(self)@.len() ==> (#[trigger] old(self)@[i]).0 != c@.0,
        ensures
            final(self).wf(),
            final(self)@ == old(self)@.push(c@),
    {
        self.cmds.push(c);
        assert(self@ =~= old(self)@.push(c@));
    }

    /// The start of the word that ends at byte `pos` of `line`, and a
    /// completion for each known command that the word begins and whose
    /// required leading text is what stands before the word, trimmed.
    pub fn find_matches(&self, line: &str, pos: usize) -> (r: (usize, Vec<Completion>))
        requires
            is_char_boundary(line.spec_bytes(), pos as int),
        ensures
            r.0 == word_start(line.spec_bytes(), pos as int),
            offers(
                r.1@,
                matching(
                    self@,
                    decode_utf8(line.spec_bytes().subrange(r.0 as int, pos as int)),
                    trim(decode_utf8(line.spec_bytes().subrange(0, r.0 as int))),
                ),
            ),
    {
        let (start, word) = word_before(line, pos);
        let (before, _) = line.split_at(start);
        let pre = trim_chars(before);
        let w = chars_of(word.as_str());
        let ghost target = matching(self@, w@, pre@);
        let mut out: Vec<Completion> = Vec::new();
        let mut k: usize = 0;
        while k < self.cmds.len()
            invariant
                k <= self.cmds@.len(),
                offers(out@, matching(self@.subrange(0, k as int), w@, pre@)),
            decreases self.cmds@.len() - k,
        {
            let c = &self.cmds[k];
            let ghost prev = out@;
            proof {
                assert(self@.subrange(0, k + 1).drop_last() =~= self@.subrange(0, k as int));
                assert(self@.subrange(0, k + 1).last() == c@);
            }
            if starts_with(&w, c.cmd.as_str()) && same_chars(&pre, c.pre_cmd.as_str()) {
                let mut replacement = c.cmd.clone();
                replacement.push(' ');
                out.push(Completion { display: c.cmd.clone(), replacement });
                proof {
                    let names = matching(self@.subrange(0, k + 1), w@, pre@);
                    assert forall|i: int| 0 <= i < out@.len() implies (#[trigger] out@[i]).display@ == names[i]
                        && out@[i].replacement@ == names[i].push(' ') by {
                        if i < prev.len() {
                            assert(out@[i] == prev[i]);
                        }
                    }
                }
            }
            k += 1;
        }
        assert(self@.subrange(0, self.cmds@.len() as int) =~= self@);
        (start, out)
    }
}

} // verus!
