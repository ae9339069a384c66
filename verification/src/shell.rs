//! What the shell at either end does with lines and output.

use vstd::prelude::*;
use vstd::slice::slice_to_vec;
use vstd::string::StringExecFns;
use vstd::utf8::*;

use crate::text;

verus! {

/// Which outputs of a command are still open.
#[derive(Clone, Copy, Debug, PartialEq, Eq, Structural)]
pub struct CommandOutput {
    pub stdout_open: bool,
    pub stderr_open: bool,
}

/// One of the outputs of a command.
#[derive(Clone, Copy, Debug, PartialEq, Eq, Structural)]
pub enum OutputStream {
    Stdout,
    Stderr,
}

impl CommandOutput {
    /// Both outputs are open at first.
    pub fn new() -> (out: Self)
        ensures
            out == (CommandOutput { stdout_open: true, stderr_open: true }),
    {
        CommandOutput { stdout_open: true, stderr_open: true }
    }

    /// Return whether there may be more output.
    pub fn is_open(&self) -> (r: bool)
        ensures
            r == (self.stdout_open || self.stderr_open),
    {
        self.stdout_open || self.stderr_open
    }

    /// Take note that `n` bytes were read from an output, and return whether to send them on. An
    /// output from which nothing can be read is closed.
    pub fn read(&mut self, stream: OutputStream, n: usize) -> (send: bool)
        ensures
            send == (n > 0),
            n > 0 ==> *final(self) == *old(self),
            n == 0 && stream == OutputStream::Stdout ==> *final(self) == (CommandOutput {
                stdout_open: false,
                stderr_open: old(self).stderr_open,
            }),
            n == 0 && stream == OutputStream::Stderr ==> *final(self) == (CommandOutput {
                stdout_open: old(self).stdout_open,
                stderr_open: false,
            }),
    {
        if n > 0 {
            return true;
        }
        match stream {
            OutputStream::Stdout => {
                self.stdout_open = false;
            },
            OutputStream::Stderr => {
                self.stderr_open = false;
            },
        }
        false
    }
}

/// The last line that is sent for a command: its exit code, or, if it has none, how the system
/// describes its end.
pub open spec fn exit_status_text(code: Option<i32>, description: Seq<char>) -> Seq<char> {
    match code {
        Some(code) => ">>> Exit status "@ + text::signed_decimal(code as int) + "\n"@,
        None => ">>> Exit status "@ + "unknown ("@ + description + ")"@ + "\n"@,
    }
}

/// The last line for a command that exited tells its code in decimal, with a minus sign where it
/// is negative; for one that did not, it tells how the system describes its end.
pub proof fn law_exit_status_line(code: i32, description: Seq<char>)
    ensures
        code >= 0 ==> exit_status_text(Some(code), description) == ">>> Exit status "@
            + text::decimal(code as nat) + "\n"@,
        code < 0 ==> exit_status_text(Some(code), description) == ">>> Exit status -"@
            + text::decimal((-code) as nat) + "\n"@,
        exit_status_text(None, description) == ">>> Exit status unknown ("@ + description
            + ")\n"@,
{
    reveal_strlit(">>> Exit status ");
    reveal_strlit(">>> Exit status -");
    reveal_strlit(">>> Exit status unknown (");
    reveal_strlit("unknown (");
    reveal_strlit(")");
    reveal_strlit("\n");
    reveal_strlit(")\n");
    assert(">>> Exit status "@ + seq!['-'] =~= ">>> Exit status -"@);
    assert(exit_status_text(Some(code), description) =~= if code < 0 {
        (">>> Exit status "@ + seq!['-']) + text::decimal((-code) as nat) + "\n"@
    } else {
        ">>> Exit status "@ + text::decimal(code as nat) + "\n"@
    });
    assert(">>> Exit status "@ + "unknown ("@ =~= ">>> Exit status unknown ("@);
    assert(")"@ + "\n"@ =~= ")\n"@);
    assert(exit_status_text(None, description) =~= (">>> Exit status "@ + "unknown ("@)
        + description + (")"@ + "\n"@));
}

/// Return the last line to send for a command.
pub fn exit_status_line(code: Option<i32>, description: &str) -> (out: String)
    ensures
        out@ == exit_status_text(code, description@),
{
    let mut out = String::from_str(">>> Exit status ");
    match code {
        Some(code) => {
            text::push_signed_decimal(&mut out, code);
        },
        None => {
            out.append("unknown (");
            out.append(description);
            out.append(")");
        },
    }
    out.append("\n");
    out
}

/// What the client's end of the shell does next.
#[derive(Debug)]
pub enum ConsoleAction {
    /// Send the bytes to the server.
    Send(Vec<u8>),
    /// Nothing more will be typed: shut down the sending direction.
    Shutdown,
}

/// The client's end of the shell.
#[derive(Clone, Copy, Debug, PartialEq, Eq, Structural)]
pub struct Console {
    /// Whether more may be typed.
    pub stdin_open: bool,
}

impl Console {
    /// Something may be typed at first.
    pub fn new() -> (console: Self)
        ensures
            console.stdin_open,
    {
        Console { stdin_open: true }
    }

    /// Take note of a line that was typed, or that nothing more will be typed.
    pub fn typed(&mut self, line: Option<&str>) -> (action: ConsoleAction)
        ensures
            match line {
                Some(line) => {
                    &&& final(self).stdin_open == old(self).stdin_open
                    &&& action matches ConsoleAction::Send(data) && data@ == encode_utf8(
                        line@,
                    ).push(10)
                },
                None => !final(self).stdin_open && action is Shutdown,
            },
    {
        match line {
            Some(line) => {
                let mut data = slice_to_vec(line.as_bytes());
                data.push(10);
                ConsoleAction::Send(data)
            },
            None => {
                self.stdin_open = false;
                ConsoleAction::Shutdown
            },
        }
    }

    /// Take note that `n` bytes came from the server, and return whether to go on: the server has
    /// closed the connection if there are none.
    pub fn received(&self, n: usize) -> (go_on: bool)
        ensures
            go_on == (n > 0),
    {
        n > 0
    }
}

} // verus!
