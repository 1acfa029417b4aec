//! Resolving a command name: built-ins first, then what a search of the
//! directories on the search path found, and the report that `type` prints.

use vstd::prelude::*;
use crate::assemble::strings;
use crate::builtin::{is_builtin, is_builtin_name};
use crate::text::{is_space, is_space_char, chars_of, push_str, string_of};

verus! {

/// What a command name stands for.
#[derive(Debug, Clone, PartialEq, Eq)]
pub enum CommandType {
    /// One of the shell's own commands.
    Builtin,
    /// The program at this path.
    Executable(String),
}

impl CommandType {
    /// Resolves `cmd`: a built-in name is a built-in; otherwise it is the
    /// program that the search of the path found, if the search found one.
    pub fn resolve(cmd: &str, executable: Option<String>) -> (r: Option<CommandType>)
        ensures
            is_builtin_name(cmd@) ==> r == Some(CommandType::Builtin),
            !is_builtin_name(cmd@) ==> r == match executable {
                Some(p) => Some(CommandType::Executable(p)),
                None => None::<CommandType>,
            },
    {
        if is_builtin(cmd) {
            Some(CommandType::Builtin)
        } else {
            match executable {
                Some(p) => Some(CommandType::Executable(p)),
                None => None,
            }
        }
    }
}

/// The parts of `s[start..]` between colons, where the current part began at
/// `start` and the scan has reached `i`.
pub open spec fn split_colons_from(s: Seq<char>, i: int, start: int) -> Seq<Seq<char>>
    decreases s.len() - i,
{
    if i < 0 || i >= s.len() {
        seq![s.subrange(start, s.len() as int)]
    } else if s[i] == ':' {
        seq![s.subrange(start, i)] + split_colons_from(s, i + 1, i + 1)
    } else {
        split_colons_from(s, i + 1, start)
    }
}

/// The parts of `s` between colons, empty ones included, as `str::split(':')`
/// gives them.
pub open spec fn split_colons(s: Seq<char>) -> Seq<Seq<char>> {
    split_colons_from(s, 0, 0)
}

/// The directories of a colon-separated search path, in order.
pub fn split_path(path: &str) -> (r: Vec<String>)
    ensures
        strings(r@) == split_colons(path@),
{
    let s = chars_of(path);
    let n = s.len();
    let mut out: Vec<String> = Vec::new();
    let mut start: usize = 0;
    let mut i: usize = 0;
    while i < n
        invariant
            n == s.len(),
            s@ == path@,
            start <= i <= n,
            split_colons(s@) == strings(out@) + split_colons_from(s@, i as int, start as int),
        decreases n - i,
    {
        if s[i] == ':' {
            let ghost before = out@;
            let part = string_of(&s, start, i);
            out.push(part);
            proof {
                assert(strings(before.push(part)) =~= strings(before) + seq![part@]);
                assert(strings(before) + (seq![part@] + split_colons_from(s@, i + 1, i + 1))
                    =~= strings(out@) + split_colons_from(s@, i + 1, i + 1));
            }
            start = i + 1;
        }
        i += 1;
    }
    let ghost before = out@;
    let last = string_of(&s, start, n);
    out.push(last);
    assert(strings(before.push(last)) =~= strings(before) + seq![last@]);
    out
}

/// Text made only of blanks, as `str::trim` leaves empty.
pub open spec fn is_blank(s: Seq<char>) -> bool {
    forall|k: int| 0 <= k < s.len() ==> is_space(#[trigger] s[k])
}

/// The line that `type` prints for one argument, given what it resolved
/// to; nothing for a blank argument.
pub open spec fn type_line(arg: Seq<char>, kind: Option<CommandType>) -> Seq<char> {
    if is_blank(arg) {
        Seq::empty()
    } else {
        match kind {
            Some(CommandType::Builtin) => arg + " is a shell builtin\n"@,
            Some(CommandType::Executable(p)) => arg + " is "@ + p@ + "\n"@,
            None => arg + ": not found\n"@,
        }
    }
}

/// The lines that `type` prints for its arguments, in order.
pub open spec fn type_lines(args: Seq<Seq<char>>, kinds: Seq<Option<CommandType>>) -> Seq<char>
    decreases args.len(),
{
    if args.len() == 0 {
        Seq::empty()
    } else {
        type_lines(args.drop_last(), kinds.drop_last()) + type_line(args.last(), kinds.last())
    }
}

fn blank(arg: &str) -> (r: bool)
    ensures
        r == is_blank(arg@),
{
    let v = chars_of(arg);
    let mut k: usize = 0;
    while k < v.len()
        invariant
            v@ == arg@,
            k <= v.len(),
            forall|j: int| 0 <= j < k ==> is_space(#[trigger] v@[j]),
        decreases v.len() - k,
    {
        if !is_space_char(v[k]) {
            return false;
        }
        k += 1;
    }
    true
}

/// What `type` prints, given what each of its arguments resolved to.
pub fn handle_type_cmd(args: &Vec<String>, kinds: &Vec<Option<CommandType>>) -> (r: String)
    requires
        args.len() == kinds.len(),
    ensures
        r@ == type_lines(strings(args@), kinds@),
{
    let mut r = String::new();
    let mut k: usize = 0;
    while k < args.len()
        invariant
            args.len() == kinds.len(),
            k <= args.len(),
            r@ == type_lines(strings(args@.subrange(0, k as int)), kinds@.subrange(0, k as int)),
        decreases args.len() - k,
    {
        let arg = args[k].as_str();
        let ghost before = r@;
        if !blank(arg) {
            push_str(&mut r, arg);
            match &kinds[k] {
                Some(CommandType::Builtin) => {
                    push_str(&mut r, " is a shell builtin\n");
                },
                Some(CommandType::Executable(p)) => {
                    push_str(&mut r, " is ");
                    push_str(&mut r, p.as_str());
                    push_str(&mut r, "\n");
                },
                None => {
                    push_str(&mut r, ": not found\n");
                },
            }
        }
        proof {
            let a = strings(args@.subrange(0, k + 1));
            let ks = kinds@.subrange(0, k + 1);
            assert(a.drop_last() =~= strings(args@.subrange(0, k as int)));
            assert(ks.drop_last() =~= kinds@.subrange(0, k as int));
            assert(a.last() == args@[k as int]@);
            assert(r@ =~= before + type_line(args@[k as int]@, kinds@[k as int]));
        }
        k += 1;
    }
    assert(args@.subrange(0, args.len() as int) =~= args@);
    assert(kinds@.subrange(0, kinds.len() as int) =~= kinds@);
    r
}

} // verus!
