//! The client's command line: a command, then groups of inputs, each opened
//! by `:` (strings) or `::` (files holding one input per line).
use vstd::prelude::*;
use crate::redirection::RedirectionSource;

verus! {

/// Where the client's inputs come from.
#[derive(Debug, PartialEq)]
pub enum ArgsSource {
    /// Groups given on the command line.
    Cli(Vec<ArgUnit>),
    /// Standard input, redirected from this file.
    RedirFile(String),
    /// Standard input, redirected from a pipe.
    RedirPipe,
}

/// One group of inputs on the command line.
#[derive(Debug, PartialEq)]
pub enum ArgUnit {
    /// Inputs given as they are (after `:`).
    Strings(Vec<String>),
    /// Files whose lines are the inputs (after `::`).
    Files(Vec<String>),
}

/// Why the command line was refused.
#[derive(Debug, PartialEq)]
pub enum ArgumentError {
    /// No command was given.
    NoCommand,
    /// No inputs were given.
    NoInputs,
    /// The inputs do not start with `:` or `::`; the argument found instead.
    Invalid(String),
}

/// What the parser reads next.
#[derive(Copy, Clone, Debug, PartialEq, Eq, Structural)]
pub enum Action {
    ParseStrings,
    ParseFiles,
    Stop,
}

/// The parsed command line.
#[derive(Debug, PartialEq)]
pub struct Arguments {
    pub command: String,
    pub args: ArgsSource,
}

/// The characters of a list of strings.
pub open spec fn strings_view(v: Seq<String>) -> Seq<Seq<char>> {
    v.map_values(|s: String| s@)
}

/// A group of inputs: whether it holds strings (else files), and its items.
pub open spec fn unit_view(u: ArgUnit) -> (bool, Seq<Seq<char>>) {
    match u {
        ArgUnit::Strings(v) => (true, strings_view(v@)),
        ArgUnit::Files(v) => (false, strings_view(v@)),
    }
}

/// The groups that `items` make, the first being of strings or not as
/// `strings` says and holding `cur` already: each `:` or `::` closes the
/// current group and opens a group of strings or of files.
pub open spec fn groups(items: Seq<Seq<char>>, strings: bool, cur: Seq<Seq<char>>) -> Seq<
    (bool, Seq<Seq<char>>),
>
    decreases items.len(),
{
    if items.len() == 0 {
        seq![(strings, cur)]
    } else if items[0] == ":"@ {
        seq![(strings, cur)] + groups(items.drop_first(), true, seq![])
    } else if items[0] == "::"@ {
        seq![(strings, cur)] + groups(items.drop_first(), false, seq![])
    } else {
        groups(items.drop_first(), strings, cur.push(items[0]))
    }
}

/// Whether `a` is `:` (strings), `::` (files), or neither.
fn marker(a: &str) -> (r: Option<bool>)
    ensures
        r == Some(true) <==> a@ == ":"@,
        r == Some(false) <==> a@ == "::"@,
{
    proof {
        reveal_strlit(":");
        reveal_strlit("::");
    }
    let n = a.unicode_len();
    if n == 1 && a.get_char(0) == ':' {
        assert(a@ =~= ":"@);
        Some(true)
    } else if n == 2 && a.get_char(0) == ':' && a.get_char(1) == ':' {
        assert(a@ =~= "::"@);
        Some(false)
    } else {
        assert(a@ != ":"@ && a@ != "::"@) by {
            if a@ == ":"@ {
                assert(a@[0] == ':');
            }
            if a@ == "::"@ {
                assert(a@[0] == ':' && a@[1] == ':');
            }
        }
        None
    }
}

/// A group of strings or of files.
fn unit(strings: bool, items: Vec<String>) -> (r: ArgUnit)
    ensures
        unit_view(r) == (strings, strings_view(items@)),
{
    if strings {
        ArgUnit::Strings(items)
    } else {
        ArgUnit::Files(items)
    }
}

impl Arguments {
    /// Parses the command line `args`, the program's name left out. Where
    /// standard input is redirected, that is where the inputs come from, and
    /// the rest of the line after the command is not read.
    pub fn new(args: Vec<String>, redirect: Option<RedirectionSource>) -> (r: Result<Arguments, ArgumentError>)
        ensures
            args@.len() == 0 ==> r == Err::<Arguments, ArgumentError>(ArgumentError::NoCommand),
            args@.len() > 0 && redirect is None && args@.len() == 1 ==> r == Err::<Arguments, ArgumentError>(
                ArgumentError::NoInputs,
            ),
            args@.len() > 1 && redirect is None && args@[1]@ != ":"@ && args@[1]@ != "::"@ ==> (
            r matches Err(ArgumentError::Invalid(a)) && a@ == args@[1]@),
            r matches Ok(a) ==> args@.len() > 0 && a.command@ == args@[0]@ && match redirect {
                Some(RedirectionSource::Pipe) => a.args == ArgsSource::RedirPipe,
                Some(RedirectionSource::File(p)) => a.args matches ArgsSource::RedirFile(q) && q@ == p@,
                None => a.args matches ArgsSource::Cli(units) && units@.map_values(
                    |u: ArgUnit| unit_view(u),
                ) == groups(
                    strings_view(args@).subrange(2, args@.len() as int),
                    args@[1]@ == ":"@,
                    seq![],
                ),
            },
            args@.len() > 0 && (redirect is Some || (args@.len() > 1 && (args@[1]@ == ":"@
                || args@[1]@ == "::"@))) ==> r is Ok,
    {
        let n = args.len();
        if n == 0 {
            return Err(ArgumentError::NoCommand);
        }
        let command = args[0].clone();
        match redirect {
            Some(RedirectionSource::Pipe) => {
                return Ok(Arguments { command, args: ArgsSource::RedirPipe });
            },
            Some(RedirectionSource::File(path)) => {
                return Ok(Arguments { command, args: ArgsSource::RedirFile(path) });
            },
            None => {},
        }
        if n == 1 {
            return Err(ArgumentError::NoInputs);
        }
        let mut strings = match marker(args[1].as_str()) {
            Some(s) => s,
            None => return Err(ArgumentError::Invalid(args[1].clone())),
        };
        let ghost items = strings_view(args@).subrange(2, n as int);
        let mut store: Vec<ArgUnit> = Vec::new();
        let mut cur: Vec<String> = Vec::new();
        let mut action = if strings {
            Action::ParseStrings
        } else {
            Action::ParseFiles
        };
        let mut i: usize = 2;
        assert(items.skip(0) == items);
        assert(strings_view(cur@) =~= seq![]);
        assert(store@.map_values(|u: ArgUnit| unit_view(u)) =~= seq![]);
        while action != Action::Stop
            invariant
                n == args@.len(),
                2 <= i <= n,
                items == strings_view(args@).subrange(2, n as int),
                action == Action::Stop ==> i == n,
                groups(items, args@[1]@ == ":"@, seq![]) == store@.map_values(|u: ArgUnit| unit_view(u))
                    + if action == Action::Stop {
                    seq![]
                } else {
                    groups(items.skip(i - 2), strings, strings_view(cur@))
                },
            decreases n - i + (if action == Action::Stop {
                0int
            } else {
                1int
            }),
        {
            let ghost before = store@.map_values(|u: ArgUnit| unit_view(u));
            let ghost rest = items.skip(i - 2);
            let ghost cv = strings_view(cur@);
            if i == n {
                let mut done: Vec<String> = Vec::new();
                std::mem::swap(&mut done, &mut cur);
                store.push(unit(strings, done));
                action = Action::Stop;
                assert(rest.len() == 0);
                assert(store@.map_values(|u: ArgUnit| unit_view(u)) =~= before.push((strings, cv)));
                assert(before + seq![(strings, cv)] =~= before.push((strings, cv)));
            } else {
                let a = args[i].clone();
                assert(rest[0] == a@);
                assert(rest.drop_first() == items.skip(i - 1));
                match marker(a.as_str()) {
                    Some(s) => {
                        let mut done: Vec<String> = Vec::new();
                        std::mem::swap(&mut done, &mut cur);
                        store.push(unit(strings, done));
                        assert(store@.map_values(|u: ArgUnit| unit_view(u)) =~= before.push(
                            (strings, cv),
                        ));
                        assert(strings_view(cur@) =~= seq![]);
                        strings = s;
                        action = if s {
                            Action::ParseStrings
                        } else {
                            Action::ParseFiles
                        };
                    },
                    None => {
                        cur.push(a);
                        assert(strings_view(cur@) =~= cv.push(a@));
                    },
                }
                i = i + 1;
            }
        }
        Ok(Arguments { command, args: ArgsSource::Cli(store) })
    }

    /// The command template.
    pub fn get_command(&self) -> (r: &str)
        ensures
            r@ == self.command@,
    {
        self.command.as_str()
    }
}

} // verus!
