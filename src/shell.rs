//! Where commands run: through a shell program, or directly.
use vstd::prelude::*;
use vstd::string::StringExecFns;

use crate::error::OptionsError;
use crate::options::str_equals;
use crate::text::strings_view;

verus! {

/// The words of a command line as a POSIX shell splits them, or `None`
/// where a quote is left open.
pub uninterp spec fn shell_words_of(s: Seq<char>) -> Option<Seq<Seq<char>>>;

/// Relies on `shell_words::split`: splits a command line into words as a
/// POSIX shell would (quotes and backslashes respected), and fails only on
/// an unterminated quote; the result depends on the text alone.
#[verifier::external_body]
fn split_words(s: &str) -> (r: Option<Vec<String>>)
    ensures
        match r {
            Some(v) => shell_words_of(s@) == Some(strings_view(v@)),
            None => shell_words_of(s@) is None,
        },
{
    shell_words::split(s).ok()
}

/// How commands are launched.
#[derive(Debug, PartialEq, Eq)]
pub enum Shell {
    /// Through a shell program: its program and leading arguments.
    Default(Vec<String>),
    /// Directly, the command split into words.
    Direct,
}

/// What `Shell::parse` returns for the text of `--shell`: `none` for direct
/// execution, else the words of the text, of which there must be one at
/// least.
pub open spec fn shell_outcome(s: Seq<char>, r: Result<Shell, OptionsError>) -> bool {
    if s == seq!['n', 'o', 'n', 'e'] {
        r matches Ok(Shell::Direct)
    } else {
        match shell_words_of(s) {
            Some(w) => if w.len() > 0 {
                r matches Ok(Shell::Default(v)) && strings_view(v@) == w
            } else {
                r matches Err(OptionsError::UnparsableShell(t)) && t@ == s
            },
            None => r matches Err(OptionsError::UnparsableShell(t)) && t@ == s,
        }
    }
}

/// The program and arguments that run `command`: the shell's words then
/// `-c` and the command, or the command's own words, of which there must be
/// one at least.
pub open spec fn argv_of(shell_words: Option<Seq<Seq<char>>>, command: Seq<char>) -> Option<
    Seq<Seq<char>>,
> {
    match shell_words {
        Some(w) => Some(w + seq![seq!['-', 'c'], command]),
        None => match shell_words_of(command) {
            Some(w) => if w.len() > 0 {
                Some(w)
            } else {
                None
            },
            None => None,
        },
    }
}

impl Shell {
    /// The shell of `--shell` (see `shell_outcome`).
    pub fn parse(s: &str) -> (r: Result<Shell, OptionsError>)
        ensures
            shell_outcome(s@, r),
    {
        proof {
            reveal_strlit("none");
            assert("none"@ =~= seq!['n', 'o', 'n', 'e']);
        }
        if str_equals(s, "none") {
            return Ok(Shell::Direct);
        }
        match split_words(s) {
            Some(v) => if v.len() > 0 {
                Ok(Shell::Default(v))
            } else {
                Err(OptionsError::UnparsableShell(String::from_str(s)))
            },
            None => Err(OptionsError::UnparsableShell(String::from_str(s))),
        }
    }

    /// The words of the shell program, where commands go through one.
    pub open spec fn words(&self) -> Option<Seq<Seq<char>>> {
        match self {
            Shell::Default(v) => Some(strings_view(v@)),
            Shell::Direct => None,
        }
    }

    /// The program and arguments that run `command` (see `argv_of`).
    pub fn command_argv(&self, command: &str) -> (r: Option<Vec<String>>)
        ensures
            match r {
                Some(v) => argv_of(self.words(), command@) == Some(strings_view(v@)),
                None => argv_of(self.words(), command@) is None,
            },
    {
        match self {
            Shell::Default(argv) => {
                let mut r: Vec<String> = Vec::new();
                let mut i: usize = 0;
                while i < argv.len()
                    invariant
                        i <= argv@.len(),
                        strings_view(r@) =~= strings_view(argv@).take(i as int),
                    decreases argv@.len() - i,
                {
                    let ghost before = strings_view(r@);
                    r.push(argv[i].clone());
                    proof {
                        let w = strings_view(argv@);
                        assert(strings_view(r@) =~= before.push(argv@[i as int]@));
                        assert(w.take(i + 1) =~= w.take(i as int).push(w[i as int]));
                    }
                    i = i + 1;
                }
                proof {
                    reveal_strlit("-c");
                    assert("-c"@ =~= seq!['-', 'c']);
                }
                assert(strings_view(argv@).take(i as int) =~= strings_view(argv@));
                let ghost before = strings_view(r@);
                r.push(String::from_str("-c"));
                r.push(String::from_str(command));
                assert(strings_view(r@) =~= before.push(seq!['-', 'c']).push(command@));
                assert(strings_view(r@) =~= strings_view(argv@) + seq![seq!['-', 'c'], command@]);
                Some(r)
            },
            Shell::Direct => match split_words(command) {
                Some(v) => if v.len() > 0 {
                    Some(v)
                } else {
                    None
                },
                None => None,
            },
        }
    }
}

} // verus!
