//! The one decision the interactive client makes: which channel a typed
//! line goes to. A `"U "` prefix sends the rest over the unreliable per-peer
//! channel, an `"M "` prefix sends the rest to the multicast group, the
//! exact line `"!quit"` ends the session, and anything else goes over the
//! reliable channel with a terminating newline. Reading the lines and
//! sending the payloads is I/O and happens outside this crate.

use vstd::prelude::*;
use vstd::string::StrSliceExecFns;
use vstd::string::StringExecFns;

verus! {

/// Where one typed line goes, with the exact payload to send there.
pub enum ClientCommand {
    /// Send the payload over the unreliable per-peer channel.
    Unreliable(String),
    /// Send the payload to the multicast group.
    Group(String),
    /// End the session.
    Quit,
    /// Write the payload to the reliable channel.
    Reliable(String),
}

/// Mathematical model of a classified line.
pub enum CommandView {
    Unreliable(Seq<char>),
    Group(Seq<char>),
    Quit,
    Reliable(Seq<char>),
}

impl View for ClientCommand {
    type V = CommandView;

    open spec fn view(&self) -> CommandView {
        match self {
            ClientCommand::Unreliable(m) => CommandView::Unreliable(m@),
            ClientCommand::Group(m) => CommandView::Group(m@),
            ClientCommand::Quit => CommandView::Quit,
            ClientCommand::Reliable(m) => CommandView::Reliable(m@),
        }
    }
}

pub open spec fn quit_word() -> Seq<char> {
    seq!['!', 'q', 'u', 'i', 't']
}

/// How one typed line is classified, and the payload the channel gets.
pub open spec fn parse_command(s: Seq<char>) -> CommandView {
    if s.len() >= 2 && s[0] == 'U' && s[1] == ' ' {
        CommandView::Unreliable(s.skip(2))
    } else if s.len() >= 2 && s[0] == 'M' && s[1] == ' ' {
        CommandView::Group(s.skip(2))
    } else if s == quit_word() {
        CommandView::Quit
    } else {
        CommandView::Reliable(s + seq!['\n'])
    }
}

/// Classifies one typed line and carves out the payload to send.
pub fn classify_input(line: &str) -> (c: ClientCommand)
    ensures
        c@ == parse_command(line@),
{
    let n = line.unicode_len();
    if n >= 2 && line.get_char(0) == 'U' && line.get_char(1) == ' ' {
        let rest = line.substring_char(2, n);
        proof {
            assert(rest@ =~= line@.skip(2));
        }
        ClientCommand::Unreliable(rest.to_owned())
    } else if n >= 2 && line.get_char(0) == 'M' && line.get_char(1) == ' ' {
        let rest = line.substring_char(2, n);
        proof {
            assert(rest@ =~= line@.skip(2));
        }
        ClientCommand::Group(rest.to_owned())
    } else if n == 5 && line.get_char(0) == '!' && line.get_char(1) == 'q' && line.get_char(2)
        == 'u' && line.get_char(3) == 'i' && line.get_char(4) == 't' {
        proof {
            assert(line@ =~= quit_word());
        }
        ClientCommand::Quit
    } else {
        let mut payload = line.to_owned();
        payload.append("\n");
        proof {
            reveal_strlit("\n");
            assert("\n"@ =~= seq!['\n']);
            if line@ == quit_word() {
                assert(line@.len() == 5);
                assert(line@[0] == '!');
                assert(false);
            }
        }
        ClientCommand::Reliable(payload)
    }
}

} // verus!
