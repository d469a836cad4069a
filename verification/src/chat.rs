//! The interactive session's input rule: what one line typed at the prompt
//! means.  The session loop itself — prompting, sending, printing — stays
//! with the caller; this module only decides.
use vstd::prelude::*;

use crate::text::str_eq;
use crate::text::trim_spec;
use crate::text::trimmed;

verus! {

/// What one line of operator input asks for.
#[derive(Clone, Copy, PartialEq, Eq, Structural, Debug)]
pub enum ChatCommand {
    /// `/exit` or `/quit`: leave the session.
    Exit,
    /// `/help`: list the commands.
    Help,
    /// `/status`: report the data-channel state.
    Status,
    /// `/clear`: clear the screen.
    Clear,
    /// `/history`: show the message history.
    History,
    /// Any other `/`-led word.
    Unknown,
    /// A blank line: nothing to do.
    Empty,
    /// Anything else: a message to send.
    Message,
}

/// The meaning of one already-trimmed input line.
pub open spec fn classify_spec(line: Seq<char>) -> ChatCommand {
    if line == "/exit"@ || line == "/quit"@ {
        ChatCommand::Exit
    } else if line == "/help"@ {
        ChatCommand::Help
    } else if line == "/status"@ {
        ChatCommand::Status
    } else if line == "/clear"@ {
        ChatCommand::Clear
    } else if line == "/history"@ {
        ChatCommand::History
    } else if line.len() > 0 && line[0] == '/' {
        ChatCommand::Unknown
    } else if line.len() == 0 {
        ChatCommand::Empty
    } else {
        ChatCommand::Message
    }
}

/// Classify one raw input line, surrounding whitespace ignored.
pub fn classify_input(line: &str) -> (c: ChatCommand)
    ensures
        c == classify_spec(trim_spec(line@)),
{
    let t = trimmed(line);
    let t = t.as_str();
    if str_eq(t, "/exit") || str_eq(t, "/quit") {
        ChatCommand::Exit
    } else if str_eq(t, "/help") {
        ChatCommand::Help
    } else if str_eq(t, "/status") {
        ChatCommand::Status
    } else if str_eq(t, "/clear") {
        ChatCommand::Clear
    } else if str_eq(t, "/history") {
        ChatCommand::History
    } else {
        let n = t.unicode_len();
        if n > 0 && t.get_char(0) == '/' {
            ChatCommand::Unknown
        } else if n == 0 {
            ChatCommand::Empty
        } else {
            ChatCommand::Message
        }
    }
}

} // verus!
