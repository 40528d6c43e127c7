//! The client side: reading the user's commands, composing what is sent to
//! the server, and reading the server's answer to the credentials.
use vstd::prelude::*;
use vstd::utf8::*;
use crate::server::sys_commands::received_command;
use crate::server::user::{accept_reply, refuse_reply, reply_for};
use crate::text::{
    decode_utf8_strict, drop_two_last, find_char, index_of_char, join, lemma_index_of_char,
    lemma_index_of_char_unique, same_text, substring, trim, trimmed,
};

verus! {

/// A user of the server, known by name and password.
pub struct User {
    username: String,
    password: String,
}

/// Why authentication failed.
#[derive(Debug, PartialEq, Eq, Structural, Clone, Copy)]
pub enum AuthError {
    /// Sending the credentials failed.
    SendFailed,
    /// The server closed the connection without answering.
    NoResponse,
    /// Reading the server's answer failed.
    ReadFailed,
    /// The server refused the credentials.
    Denied,
    /// The server answered something other than acceptance or refusal.
    Unexpected,
}

impl AuthError {
    /// The message that reports this error to the user.
    pub fn message(&self) -> (r: &'static str)
        ensures
            match self {
                AuthError::SendFailed => r@ == "Unable to send credentials to server."@,
                AuthError::NoResponse => r@ == "Unable to read server response."@,
                AuthError::ReadFailed => r@ == "Unable to read server response"@,
                AuthError::Denied => r@ == "Authentication denied, try again."@,
                AuthError::Unexpected => r@ == "Unexpected server response."@,
            },
    {
        match self {
            AuthError::SendFailed => "Unable to send credentials to server.",
            AuthError::NoResponse => "Unable to read server response.",
            AuthError::ReadFailed => "Unable to read server response",
            AuthError::Denied => "Authentication denied, try again.",
            AuthError::Unexpected => "Unexpected server response.",
        }
    }
}

/// The outcome of authentication, given whether the credentials were sent
/// and the server's answer: the bytes read, or `None` where reading failed.
/// A failed send fails whatever comes back; then "1" accepts and "0" refuses.
pub open spec fn auth_outcome(sent: bool, reply: Option<Seq<u8>>) -> Result<(), AuthError> {
    if !sent {
        Err(AuthError::SendFailed)
    } else {
        match reply {
            None => Err(AuthError::ReadFailed),
            Some(b) => if b.len() == 0 {
                Err(AuthError::NoResponse)
            } else if b == refuse_reply() {
                Err(AuthError::Denied)
            } else if b == accept_reply() {
                Ok(())
            } else {
                Err(AuthError::Unexpected)
            },
        }
    }
}

/// What the client does with a command the user typed.
#[derive(Debug, PartialEq, Eq, Structural, Clone, Copy)]
pub enum ClientAction {
    /// Send it; no output comes back.
    Send,
    /// Send it and show the output that comes back.
    SendAndFetch,
    /// Receive a file from the server.
    Upload,
    /// Nothing.
    Ignore,
}

/// What the client does with command `cmd`, `has_arg` telling whether an
/// argument came with it.
pub open spec fn client_action(cmd: Seq<char>, has_arg: bool) -> ClientAction {
    if cmd == "cd"@ {
        if has_arg {
            ClientAction::SendAndFetch
        } else {
            ClientAction::Send
        }
    } else if cmd == "dir"@ {
        ClientAction::SendAndFetch
    } else if cmd == "mkdir"@ || cmd == "rmdir"@ || cmd == "echo."@ || cmd == "del "@ {
        ClientAction::Send
    } else if cmd == "upload"@ {
        ClientAction::Upload
    } else {
        ClientAction::Ignore
    }
}

/// The command and the optional argument in a line the user typed: the
/// line is trimmed and split at spaces; the first piece is the command and
/// the second, where there is one, the argument.
pub open spec fn input_parts(line: Seq<char>) -> (Seq<char>, Option<Seq<char>>) {
    let t = trimmed(line);
    let i = index_of_char(t, ' ');
    if i < t.len() {
        let rest = t.skip(i + 1int);
        (t.take(i as int), Some(rest.take(index_of_char(rest, ' ') as int)))
    } else {
        (t, None)
    }
}

/// The view of a command and its optional argument.
pub open spec fn command_view(c: (String, Option<String>)) -> (Seq<char>, Option<Seq<char>>) {
    (
        c.0@,
        match c.1 {
            Some(a) => Some(a@),
            None => None,
        },
    )
}

/// What the client sends for a command: its name, then a space and its
/// trimmed argument where it has one, then a line break.
pub open spec fn command_message(cmd: Seq<char>, arg: Option<Seq<char>>) -> Seq<char> {
    match arg {
        Some(a) => cmd + " "@ + trimmed(a) + "\r\n"@,
        None => cmd + "\r\n"@,
    }
}

impl User {
    /// The user's name.
    pub closed spec fn name(&self) -> Seq<char> {
        self.username@
    }

    /// The user's password.
    pub closed spec fn secret(&self) -> Seq<char> {
        self.password@
    }

    /// Creates a user.
    pub fn new(username: String, password: String) -> (r: Self)
        ensures
            r.name() == username@,
            r.secret() == password@,
    {
        User { username, password }
    }

    /// What the client sends to authenticate: the name, a space and the
    /// password.
    pub fn credentials(&self) -> (r: String)
        ensures
            r@ == self.name() + " "@ + self.secret(),
    {
        let c = join(self.username.as_str(), " ");
        join(c.as_str(), self.password.as_str())
    }

    /// Decides how authentication ended: `sent` tells whether sending the
    /// credentials succeeded, and `reply` holds the bytes of the server's
    /// answer, or `None` where reading failed. A failed send fails first;
    /// then "1" accepts, "0" refuses, and no bytes mean the server closed
    /// the connection.
    pub fn auth_me(&self, sent: bool, reply: Option<&[u8]>) -> (r: Result<(), AuthError>)
        ensures
            r == auth_outcome(
                sent,
                match reply {
                    Some(b) => Some(b@),
                    None => None,
                },
            ),
    {
        if !sent {
            return Err(AuthError::SendFailed);
        }
        match reply {
            None => Err(AuthError::ReadFailed),
            Some(b) => {
                if b.len() == 0 {
                    Err(AuthError::NoResponse)
                } else if b.len() == 1 && b[0] == 0x30u8 {
                    proof {
                        assert(b@ =~= refuse_reply());
                    }
                    Err(AuthError::Denied)
                } else if b.len() == 1 && b[0] == 0x31u8 {
                    proof {
                        assert(b@ =~= accept_reply());
                    }
                    Ok(())
                } else {
                    proof {
                        if b@ == refuse_reply() {
                            assert(b@[0] == 0x30u8);
                        }
                        if b@ == accept_reply() {
                            assert(b@[0] == 0x31u8);
                        }
                    }
                    Err(AuthError::Unexpected)
                }
            },
        }
    }

    /// What the client does with a command: see `client_action`.
    pub fn command_action(&self, command: &(String, Option<String>)) -> (r: ClientAction)
        ensures
            r == client_action(command.0@, command.1 is Some),
    {
        let c = command.0.as_str();
        if same_text(c, "cd") {
            if command.1.is_some() {
                ClientAction::SendAndFetch
            } else {
                ClientAction::Send
            }
        } else if same_text(c, "dir") {
            ClientAction::SendAndFetch
        } else if same_text(c, "mkdir") || same_text(c, "rmdir") || same_text(c, "echo.")
            || same_text(c, "del ") {
            ClientAction::Send
        } else if same_text(c, "upload") {
            ClientAction::Upload
        } else {
            ClientAction::Ignore
        }
    }

    /// The message that sends a command to the server.
    pub fn send_command(&self, commands: (String, Option<String>)) -> (r: String)
        ensures
            r@ == command_message(command_view(commands).0, command_view(commands).1),
    {
        match commands.1 {
            Some(a) => {
                let t = trim(a.as_str());
                let m = join(commands.0.as_str(), " ");
                let m = join(m.as_str(), t.as_str());
                join(m.as_str(), "\r\n")
            },
            None => join(commands.0.as_str(), "\r\n"),
        }
    }

    /// The command output that the server sent, as text: `None` where the
    /// bytes are not UTF-8.
    pub fn fetch_output(&self, received: &[u8]) -> (r: Option<String>)
        ensures
            r is Some <==> valid_utf8(received@),
            r matches Some(s) ==> s@ == decode_utf8(received@),
    {
        decode_utf8_strict(received)
    }
}

/// Cuts a line the user typed into a command and an optional argument.
pub fn get_input(line: &str) -> (r: (String, Option<String>))
    ensures
        command_view(r) == input_parts(line@),
{
    let t = trim(line);
    let n = t.unicode_len();
    let i = find_char(t.as_str(), ' ');
    if i < n {
        let rest = substring(t.as_str(), i + 1, n);
        let j = find_char(rest.as_str(), ' ');
        proof {
            crate::text::lemma_index_of_char(rest@, ' ');
            assert(rest@ =~= t@.skip(i + 1int));
        }
        (substring(t.as_str(), 0, i), Some(substring(rest.as_str(), 0, j)))
    } else {
        (t, None)
    }
}

/// The client reads the server's answer as the server meant it: where the
/// credentials were sent and the answer `user::auth_reply(result)` came
/// back, the client is authenticated exactly when the server accepted.
pub proof fn lemma_auth_reply_decides(result: Result<(), ()>)
    ensures
        auth_outcome(true, Some(reply_for(result))) is Ok <==> result is Ok,
        result is Err ==> auth_outcome(true, Some(reply_for(result))) == Err::<(), AuthError>(
            AuthError::Denied,
        ),
{
    assert(accept_reply()[0] != refuse_reply()[0]);
}

/// A command line comes apart at its first space, so the command that
/// `get_input` gives holds no space.
pub proof fn lemma_input_command_has_no_space(line: Seq<char>)
    ensures
        !input_parts(line).0.contains(' '),
{
    let t = trimmed(line);
    lemma_index_of_char(t, ' ');
    let i = index_of_char(t, ' ');
    if i < t.len() {
        assert forall|k: int| 0 <= k < i implies t.take(i as int)[k] != ' ' by {}
    }
}

/// What the server reads back of what the client wrote: the packet that
/// `send_command` makes of a command without spaces, received whole, gives
/// the server the same command, and as argument the trimmed argument, or "0"
/// where there was none.
pub proof fn lemma_command_round_trip(cmd: Seq<char>, arg: Option<Seq<char>>)
    requires
        !cmd.contains(' '),
    ensures
        received_command(Some(encode_utf8(command_message(cmd, arg)))) == (
            cmd,
            match arg {
                Some(a) => trimmed(a),
                None => "0"@,
            },
        ),
{
    broadcast use encode_utf8_valid_utf8, encode_utf8_decode_utf8;

    reveal_strlit(" ");
    reveal_strlit("\r\n");
    let m = command_message(cmd, arg);
    assert(decode_utf8(encode_utf8(m)) == m);
    assert forall|j: int| 0 <= j < cmd.len() implies cmd[j] != ' ' by {
        if cmd[j] == ' ' {
            assert(cmd.contains(' '));
        }
    }
    match arg {
        Some(a) => {
            let p = cmd + " "@ + trimmed(a);
            assert(drop_two_last(m) =~= p);
            assert forall|j: int| 0 <= j < cmd.len() implies p[j] != ' ' by {
                assert(p[j] == cmd[j]);
            }
            lemma_index_of_char_unique(p, ' ', cmd.len() as int);
            assert(p.take(cmd.len() as int) =~= cmd);
            assert(p.skip(cmd.len() + 1int) =~= trimmed(a));
        },
        None => {
            assert(drop_two_last(m) =~= cmd);
            lemma_index_of_char_unique(cmd, ' ', cmd.len() as int);
        },
    }
}

/// A line the user types reaches the server as the command `get_input`
/// found in it, with the trimmed argument, or "0" where there was none.
pub proof fn lemma_typed_command_round_trip(line: Seq<char>)
    ensures
        received_command(
            Some(encode_utf8(command_message(input_parts(line).0, input_parts(line).1))),
        ) == (
            input_parts(line).0,
            match input_parts(line).1 {
                Some(a) => trimmed(a),
                None => "0"@,
            },
        ),
{
    lemma_input_command_has_no_space(line);
    lemma_command_round_trip(input_parts(line).0, input_parts(line).1);
}

/// The argument `get_input` finds is a whole piece of the line: the trimmed
/// line starts with the command, a space and the argument, and what follows
/// is empty or starts with a space. Without an argument, the trimmed line is
/// the command. Neither holds a space.
pub proof fn lemma_input_argument_is_whole_piece(line: Seq<char>)
    ensures
        ({
            let t = trimmed(line);
            let c = input_parts(line).0;
            &&& !c.contains(' ')
            &&& match input_parts(line).1 {
                Some(a) => {
                    let n = c.len() + 1 + a.len();
                    &&& n <= t.len()
                    &&& t.take(n as int) == c + " "@ + a
                    &&& (n == t.len() || t[n as int] == ' ')
                    &&& !a.contains(' ')
                },
                None => t == c,
            }
        }),
{
    reveal_strlit(" ");
    lemma_input_command_has_no_space(line);
    let t = trimmed(line);
    lemma_index_of_char(t, ' ');
    let i = index_of_char(t, ' ');
    if i < t.len() {
        let rest = t.skip(i + 1int);
        lemma_index_of_char(rest, ' ');
        let j = index_of_char(rest, ' ');
        let a = rest.take(j as int);
        let n = i + 1 + j;
        assert(t.take(n as int) =~= t.take(i as int) + " "@ + a);
        if n < t.len() {
            assert(t[n as int] == rest[j as int]);
        }
        assert forall|k: int| 0 <= k < a.len() implies a[k] != ' ' by {}
    }
}

/// Only "cd" depends on whether an argument came with the command.
pub proof fn lemma_action_ignores_argument(cmd: Seq<char>)
    requires
        cmd != "cd"@,
    ensures
        client_action(cmd, true) == client_action(cmd, false),
{
}

/// "dir" always sends the command and shows the listing that comes back,
/// with or without an argument.
pub proof fn lemma_dir_fetches(has_arg: bool)
    ensures
        client_action("dir"@, has_arg) == ClientAction::SendAndFetch,
{
    reveal_strlit("cd");
    reveal_strlit("dir");
    assert("cd"@.len() != "dir"@.len());
}

/// The client is authenticated exactly when the credentials were sent and
/// the server answered "1"; a failed send fails whatever came back.
pub proof fn lemma_auth_only_on_accept(sent: bool, reply: Option<Seq<u8>>)
    ensures
        auth_outcome(sent, reply) is Ok <==> sent && reply == Some(accept_reply()),
        !sent ==> auth_outcome(sent, reply) == Err::<(), AuthError>(AuthError::SendFailed),
{
    assert(accept_reply()[0] != refuse_reply()[0]);
    if sent && reply == Some(accept_reply()) {
        assert(accept_reply() != refuse_reply());
    }
}

/// "cd" shows what comes back only where it has an argument.
pub proof fn lemma_cd_fetches_with_argument(has_arg: bool)
    ensures
        client_action("cd"@, has_arg) == if has_arg {
            ClientAction::SendAndFetch
        } else {
            ClientAction::Send
        },
{
}

} // verus!
