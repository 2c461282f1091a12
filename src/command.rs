//! The command mapper: turns a decoded request into a verb and its arguments.

use vstd::prelude::*;

use crate::parser::{RESPOutput, RespValue};

verus! {

/// The verbs this server answers.
#[derive(Debug, PartialEq, Eq, Structural, Clone, Copy)]
pub enum Command {
    PING,
    ECHO,
    GET,
    SET,
}

pub uninterp spec fn lower_of(s: Seq<char>) -> Seq<char>;

/// Relies on `str::to_lowercase`: the lowercase form of a text depends on
/// its characters alone.
#[verifier::external_body]
pub(crate) fn lowercase(s: &str) -> (r: String)
    ensures
        r@ == lower_of(s@),
{
    s.to_lowercase()
}

/// The verb that an already lowercased word names, if any.
pub open spec fn command_of_lowered(word: Seq<char>) -> Option<Command> {
    if word == "ping"@ {
        Some(Command::PING)
    } else if word == "echo"@ {
        Some(Command::ECHO)
    } else if word == "get"@ {
        Some(Command::GET)
    } else if word == "set"@ {
        Some(Command::SET)
    } else {
        None
    }
}

/// The verb that a word names, whatever its letter case.
pub open spec fn command_of(word: Seq<char>) -> Option<Command> {
    command_of_lowered(lower_of(word))
}

impl Command {
    /// The verb that an already lowercased word names, if any.
    pub fn from_lowercase(word: &str) -> (r: Option<Command>)
        ensures
            r == command_of_lowered(word@),
    {
        let word = String::from_str(word);
        if word == String::from_str("ping") {
            Some(Command::PING)
        } else if word == String::from_str("echo") {
            Some(Command::ECHO)
        } else if word == String::from_str("get") {
            Some(Command::GET)
        } else if word == String::from_str("set") {
            Some(Command::SET)
        } else {
            None
        }
    }

    /// The verb that `str` names, compared without regard to letter case.
    pub fn from(str: &str) -> (r: Option<Command>)
        ensures
            r == command_of(str@),
    {
        let lowered = lowercase(str);
        Self::from_lowercase(lowered.as_str())
    }
}

/// A request: its verb, if it named a known one, and its arguments in order.
#[derive(Debug, PartialEq)]
pub struct ParsedCommand {
    pub command: Option<Command>,
    pub args: Vec<String>,
}

/// The mathematical form of a request.
pub struct CommandModel {
    pub command: Option<Command>,
    pub args: Seq<Seq<char>>,
}

pub open spec fn texts_of(args: Seq<String>) -> Seq<Seq<char>> {
    args.map_values(|a: String| a@)
}

impl View for ParsedCommand {
    type V = CommandModel;

    open spec fn view(&self) -> CommandModel {
        CommandModel { command: self.command, args: texts_of(self.args@) }
    }
}

impl ParsedCommand {
    pub fn new() -> (r: ParsedCommand)
        ensures
            r.command is None,
            r.args@.len() == 0,
    {
        ParsedCommand { command: None, args: Vec::new() }
    }

    pub fn command(&self) -> (r: &Option<Command>)
        ensures
            *r == self.command,
    {
        &self.command
    }

    pub fn args(&self) -> (r: &Vec<String>)
        ensures
            *r == self.args,
    {
        &self.args
    }

    pub fn set_command(&mut self, command: Option<Command>)
        ensures
            final(self).command == command,
            final(self).args == old(self).args,
    {
        self.command = command;
    }

    pub fn set_args(&mut self, args: Vec<String>)
        ensures
            final(self).command == old(self).command,
            final(self).args == args,
    {
        self.args = args;
    }

    pub fn append_arg(&mut self, arg: String)
        ensures
            final(self).command == old(self).command,
            final(self).args@ == old(self).args@.push(arg),
    {
        self.args.push(arg);
    }
}

/// The payloads of the bulk strings among `items`, in order; other values are skipped.
pub open spec fn bulk_texts(items: Seq<RespValue>) -> Seq<Seq<char>>
    decreases items.len(),
{
    if items.len() == 0 {
        Seq::empty()
    } else {
        let earlier = bulk_texts(items.drop_last());
        match items.last() {
            RespValue::BulkString(s) => earlier.push(s),
            _ => earlier,
        }
    }
}

/// The request that a decoded value stands for: an array whose first item is
/// a bulk string naming the verb, followed by bulk-string arguments.
pub open spec fn request_of(v: RespValue) -> CommandModel {
    match v {
        RespValue::Array(items) => if items.len() == 0 {
            CommandModel { command: None, args: Seq::empty() }
        } else {
            CommandModel {
                command: match items[0] {
                    RespValue::BulkString(verb) => command_of(verb),
                    _ => None,
                },
                args: bulk_texts(items.drop_first()),
            }
        },
        _ => CommandModel { command: None, args: Seq::empty() },
    }
}

/// Maps a decoded request to its verb and arguments.
pub fn resp_output_to_parsed_command(resp_output: &RESPOutput) -> (r: ParsedCommand)
    ensures
        r@ == request_of(resp_output@),
{
    let mut parsed_command = ParsedCommand::new();
    match resp_output {
        RESPOutput::Array(arr) => {
            if arr.len() == 0 {
                assert(texts_of(parsed_command.args@) =~= Seq::<Seq<char>>::empty());
                return parsed_command;
            }
            let ghost forms = resp_output@->Array_0;
            proof {
                crate::response_helper::lemma_views_of(arr@);
            }
            match &arr[0] {
                RESPOutput::BulkString(verb) => {
                    parsed_command.set_command(Command::from(verb.as_str()));
                },
                _ => {},
            }
            let mut i: usize = 1;
            assert(forms.drop_first().subrange(0, 0) =~= Seq::<RespValue>::empty());
            assert(texts_of(parsed_command.args@) =~= Seq::<Seq<char>>::empty());
            while i < arr.len()
                invariant
                    1 <= i <= arr@.len(),
                    forms.len() == arr@.len(),
                    forall|j: int| 0 <= j < arr@.len() ==> #[trigger] forms[j] == arr@[j]@,
                    texts_of(parsed_command.args@) == bulk_texts(
                        forms.drop_first().subrange(0, i - 1),
                    ),
                    parsed_command.command == request_of(resp_output@).command,
                decreases arr@.len() - i,
            {
                let ghost before = parsed_command.args@;
                let ghost seen = forms.drop_first().subrange(0, i as int);
                assert(seen.drop_last() =~= forms.drop_first().subrange(0, i - 1));
                assert(seen.last() == forms[i as int]);
                match &arr[i] {
                    RESPOutput::BulkString(arg) => {
                        parsed_command.append_arg(arg.clone());
                        assert(texts_of(parsed_command.args@) =~= texts_of(before).push(arg@));
                    },
                    _ => {},
                }
                i = i + 1;
            }
            assert(forms.drop_first().subrange(0, i - 1) =~= forms.drop_first());
        },
        _ => {
            assert(texts_of(parsed_command.args@) =~= Seq::<Seq<char>>::empty());
        },
    }
    parsed_command
}

} // verus!
