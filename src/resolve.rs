//! Turning a requested alias into what to do: print its command line, or run
//! the program that the command line names.
use vstd::prelude::*;

use crate::alias_map::{keys_unique, map_of, pairs_view, AliasMap};

verus! {

/// The built-in subcommand that prints an alias's command line.
pub const PRINT_COMMAND: &'static str = "print";

/// The words that POSIX shell word splitting makes of `line` (quotes and
/// escapes honoured, no expansion), or `None` on a lexical error such as an
/// unterminated quote.
pub uninterp spec fn shell_words(line: Seq<char>) -> Option<Seq<Seq<char>>>;

/// The views of a sequence of strings.
pub open spec fn strings_view(v: Seq<String>) -> Seq<Seq<char>> {
    v.map_values(|s: String| s@)
}

/// Relies on shlex::split: the words of `line`, or `None` where the lexer
/// reported an error.
#[verifier::external_body]
fn split_words(line: &str) -> (r: Option<Vec<String>>)
    ensures
        match r {
            Some(v) => shell_words(line@) == Some(strings_view(v@)),
            None => shell_words(line@) is None,
        },
{
    shlex::split(line)
}

/// Why a request cannot be carried out.
#[derive(Debug, Clone, Copy, PartialEq, Eq, Structural)]
pub enum DispatchError {
    /// No alias of that name is defined.
    UnknownAlias,
    /// The command line does not split into words.
    LexError,
    /// The command line has no word.
    EmptyCommand,
}

impl DispatchError {
    /// A one-line description of the failure.
    pub fn message(&self) -> &'static str {
        match self {
            DispatchError::UnknownAlias => "command not found",
            DispatchError::LexError => "command line does not split into words",
            DispatchError::EmptyCommand => "command line is empty",
        }
    }
}

/// A program to start and the arguments to hand it.
#[derive(Debug)]
pub struct Invocation {
    pub program: String,
    pub args: Vec<String>,
}

impl View for Invocation {
    type V = (Seq<char>, Seq<Seq<char>>);

    open spec fn view(&self) -> (Seq<char>, Seq<Seq<char>>) {
        (self.program@, strings_view(self.args@))
    }
}

/// The invocation that the words of a command line give: the first word names
/// the program, the rest are its arguments.
pub open spec fn invocation_of(words: Option<Seq<Seq<char>>>) -> Result<(Seq<char>, Seq<Seq<char>>), DispatchError> {
    match words {
        None => Err(DispatchError::LexError),
        Some(w) => if w.len() == 0 {
            Err(DispatchError::EmptyCommand)
        } else {
            Ok((w[0], w.drop_first()))
        },
    }
}

/// A result of planning agrees with its model.
pub open spec fn planned_as(r: Result<Invocation, DispatchError>, model: Result<(Seq<char>, Seq<Seq<char>>), DispatchError>) -> bool {
    match r {
        Ok(inv) => model == Ok::<(Seq<char>, Seq<Seq<char>>), DispatchError>(inv@),
        Err(e) => model == Err::<(Seq<char>, Seq<Seq<char>>), DispatchError>(e),
    }
}

/// Makes an invocation of the words of a command line, `None` standing for a
/// line that did not split.
pub fn plan_invocation(words: Option<Vec<String>>) -> (r: Result<Invocation, DispatchError>)
    ensures
        planned_as(r, invocation_of(match words {
            Some(v) => Some(strings_view(v@)),
            None => None,
        })),
{
    let words = match words {
        None => return Err(DispatchError::LexError),
        Some(v) => v,
    };
    if words.len() == 0 {
        return Err(DispatchError::EmptyCommand);
    }
    let ghost w = strings_view(words@);
    let program = words[0].clone();
    let mut args: Vec<String> = Vec::new();
    let mut i: usize = 1;
    while i < words.len()
        invariant
            1 <= i <= words@.len(),
            w == strings_view(words@),
            strings_view(args@) == w.subrange(1, i as int),
        decreases words@.len() - i,
    {
        let word = words[i].clone();
        let ghost prev = args@;
        assert(word@ == w[i as int]);
        args.push(word);
        assert(args@ == prev.push(word));
        assert(strings_view(args@) =~= strings_view(prev).push(word@));
        assert(strings_view(args@) =~= w.subrange(1, i + 1));
        i = i + 1;
    }
    assert(w.subrange(1, i as int) =~= w.drop_first());
    Ok(Invocation { program, args })
}

/// Splits a command line into words and makes an invocation of them.
pub fn command_invocation(line: &str) -> (r: Result<Invocation, DispatchError>)
    ensures
        planned_as(r, invocation_of(shell_words(line@))),
{
    plan_invocation(split_words(line))
}

/// The command line that `alias` stands for, to be printed as it is.
pub fn print_command(map: &AliasMap, alias: &String) -> (r: Result<String, DispatchError>)
    requires
        map.wf(),
    ensures
        match r {
            Ok(c) => map@.contains_key(alias@) && c@ == map@[alias@],
            Err(e) => e == DispatchError::UnknownAlias && !map@.contains_key(alias@),
        },
{
    match map.get(alias) {
        Some(c) => Ok(c.clone()),
        None => Err(DispatchError::UnknownAlias),
    }
}

/// What the caller asked for.
#[derive(Debug)]
pub enum Request {
    /// Print the command line of the alias.
    Print(String),
    /// Run the command line of the alias.
    Run(String),
}

/// What to do for a request.
#[derive(Debug)]
pub enum Action {
    /// Write this command line to standard output.
    Print(String),
    /// Start this program, inheriting the standard streams, and wait for it.
    Execute(Invocation),
}

/// Decides a request against the merged mapping. Printing never runs
/// anything; running looks the alias up and splits its command line.
pub fn dispatch(map: &AliasMap, request: &Request) -> (r: Result<Action, DispatchError>)
    requires
        map.wf(),
    ensures
        match request {
            Request::Print(a) => match r {
                Ok(Action::Print(c)) => map@.contains_key(a@) && c@ == map@[a@],
                Ok(Action::Execute(_)) => false,
                Err(e) => e == DispatchError::UnknownAlias && !map@.contains_key(a@),
            },
            Request::Run(a) => if map@.contains_key(a@) {
                match r {
                    Ok(Action::Execute(inv)) => planned_as(Ok(inv), invocation_of(shell_words(map@[a@]))),
                    Ok(Action::Print(_)) => false,
                    Err(e) => planned_as(Err(e), invocation_of(shell_words(map@[a@]))),
                }
            } else {
                r matches Err(DispatchError::UnknownAlias)
            },
        },
{
    match request {
        Request::Print(alias) => match print_command(map, alias) {
            Ok(c) => Ok(Action::Print(c)),
            Err(e) => Err(e),
        },
        Request::Run(alias) => match map.get(alias) {
            None => Err(DispatchError::UnknownAlias),
            Some(line) => match command_invocation(line.as_str()) {
                Ok(inv) => Ok(Action::Execute(inv)),
                Err(e) => Err(e),
            },
        },
    }
}

/// The aliases that can be run as subcommands: every defined alias but the
/// one named like the built-in print subcommand, which always takes
/// precedence. Each name comes once.
pub fn subcommand_names(map: &AliasMap) -> (r: Vec<String>)
    requires
        map.wf(),
    ensures
        forall|i: int, j: int| 0 <= i < j < r@.len() ==> r@[i]@ != r@[j]@,
        forall|i: int| 0 <= i < r@.len() ==> r@[i]@ != PRINT_COMMAND@ && map@.contains_key(#[trigger] r@[i]@),
        forall|k: Seq<char>| #[trigger] map@.contains_key(k) && k != PRINT_COMMAND@ ==> exists|i: int|
            0 <= i < r@.len() && r@[i]@ == k,
{
    let entries = map.entries();
    let ghost s = pairs_view(entries@);
    proof {
        crate::alias_map::lemma_map_of(s);
    }
    let builtin = PRINT_COMMAND.to_owned();
    let mut names: Vec<String> = Vec::new();
    // where each name was taken from, and where each taken entry went
    let ghost mut origin: Seq<int> = Seq::empty();
    let ghost mut slot: Seq<int> = Seq::empty();
    let mut i: usize = 0;
    while i < entries.len()
        invariant
            i <= entries@.len(),
            s == pairs_view(entries@),
            keys_unique(s),
            builtin@ == PRINT_COMMAND@,
            origin.len() == names@.len(),
            slot.len() == i,
            forall|a: int| 0 <= a < names@.len() ==> 0 <= #[trigger] origin[a] < i && s[origin[a]].0 == names@[a]@
                && names@[a]@ != PRINT_COMMAND@,
            forall|a: int, b: int| 0 <= a < b < names@.len() ==> origin[a] < origin[b],
            forall|j: int| 0 <= j < i && s[j].0 != PRINT_COMMAND@ ==> 0 <= #[trigger] slot[j] < names@.len()
                && names@[slot[j]]@ == s[j].0,
        decreases entries@.len() - i,
    {
        if entries[i].0 != builtin {
            let name = entries[i].0.clone();
            let ghost prev = names@;
            names.push(name);
            assert(names@ == prev.push(name));
            proof {
                slot = slot.push(prev.len() as int);
                origin = origin.push(i as int);
            }
        } else {
            proof {
                slot = slot.push(0);
            }
        }
        i = i + 1;
    }
    assert forall|a: int, b: int| 0 <= a < b < names@.len() implies names@[a]@ != names@[b]@ by {
        assert(origin[a] < origin[b]);
    }
    assert forall|a: int| 0 <= a < names@.len() implies names@[a]@ != PRINT_COMMAND@ && map@.contains_key(
        #[trigger] names@[a]@) by {
        assert(0 <= origin[a] < s.len() && s[origin[a]].0 == names@[a]@);
    }
    assert forall|k: Seq<char>| #[trigger] map@.contains_key(k) && k != PRINT_COMMAND@ implies exists|a: int|
        0 <= a < names@.len() && names@[a]@ == k by {
        let j = choose|j: int| 0 <= j < s.len() && s[j].0 == k;
        assert(names@[slot[j]]@ == k);
    }
    names
}

} // verus!
