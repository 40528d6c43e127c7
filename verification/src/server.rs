//! The server side: its state and the dispatch of received commands.
pub mod sys_commands;
pub mod user;

use vstd::prelude::*;
use crate::text::{byte_len, join, same_text};
use sys_commands::{cd, cd_result, cd_result_dir, cd_step, CdOutcome, CdStep, RecvdCommand};

verus! {

/// What the server state holds between commands.
pub struct FtpServer {
    read_only: bool,
    cwd: String,
    root_dir: String,
    credentials: String,
}

/// What the server has to do after a command, on views.
pub enum ServerStep {
    /// Nothing more.
    Nothing,
    /// Send this text to the client.
    Reply(Seq<char>),
    /// Run this shell command and pass its outcome to `finish_cd`.
    RunShell(Seq<char>),
    /// Send the client the file at this path.
    Download(Seq<char>),
    /// Receive from the client into a new file at this path.
    Upload(Seq<char>),
}

/// What the server has to do after a command.
#[derive(Debug, Clone, PartialEq, Eq)]
pub enum ServerAction {
    /// Nothing more.
    Nothing,
    /// Send this text to the client.
    Reply(String),
    /// Run this shell command and pass its outcome to `finish_cd`.
    RunShell(String),
    /// Send the client the file at this path.
    Download(String),
    /// Receive from the client into a new file at this path.
    Upload(String),
}

impl View for ServerAction {
    type V = ServerStep;

    open spec fn view(&self) -> ServerStep {
        match self {
            ServerAction::Nothing => ServerStep::Nothing,
            ServerAction::Reply(t) => ServerStep::Reply(t@),
            ServerAction::RunShell(c) => ServerStep::RunShell(c@),
            ServerAction::Download(p) => ServerStep::Download(p@),
            ServerAction::Upload(p) => ServerStep::Upload(p@),
        }
    }
}

/// What a command does: the step that follows and the working directory
/// after it, given the working directory and root before it.
pub open spec fn command_step(
    root: Seq<char>,
    cwd: Seq<char>,
    command: Seq<char>,
    argument: Seq<char>,
) -> (ServerStep, Seq<char>) {
    if command == "cd"@ {
        match cd_step(root, cwd, Some(argument)) {
            CdStep::Reply(t) => (ServerStep::Reply(t), cwd),
            CdStep::Done(Some(n)) => (ServerStep::Nothing, n),
            CdStep::Done(None) => (ServerStep::Nothing, cwd),
            CdStep::Shell(c) => (ServerStep::RunShell(c), cwd),
        }
    } else if command == "download"@ {
        (ServerStep::Download(cwd + "/"@ + argument), cwd)
    } else if command == "upload"@ {
        (ServerStep::Upload(cwd), cwd)
    } else {
        (ServerStep::Nothing, cwd)
    }
}

/// What the server answers with a command's result: the result, or "Done"
/// where it is empty.
pub open spec fn result_text(result: Seq<char>) -> Seq<char> {
    if result.len() == 0 {
        "Done"@
    } else {
        result
    }
}

impl FtpServer {
    /// Whether clients may only read.
    pub closed spec fn is_read_only(&self) -> bool {
        self.read_only
    }

    /// The current working directory.
    pub closed spec fn cwd_view(&self) -> Seq<char> {
        self.cwd@
    }

    /// The directory above which clients cannot go.
    pub closed spec fn root_view(&self) -> Seq<char> {
        self.root_dir@
    }

    /// The path of the credentials file.
    pub closed spec fn credentials_view(&self) -> Seq<char> {
        self.credentials@
    }

    /// A server state: read-only, with root "C:/", and an empty working
    /// directory and credentials path.
    pub fn new() -> (r: Self)
        ensures
            r.is_read_only(),
            r.cwd_view() == Seq::<char>::empty(),
            r.root_view() == "C:/"@,
            r.credentials_view() == Seq::<char>::empty(),
    {
        FtpServer {
            read_only: true,
            cwd: String::new(),
            root_dir: "C:/".to_owned(),
            credentials: String::new(),
        }
    }

    /// Sets the path of the credentials file.
    pub fn set_credentials(&mut self, path: String)
        ensures
            final(self).credentials_view() == path@,
            final(self).cwd_view() == old(self).cwd_view(),
            final(self).root_view() == old(self).root_view(),
            final(self).is_read_only() == old(self).is_read_only(),
    {
        self.credentials = path;
    }

    /// Sets the root directory.
    pub fn set_root_dir(&mut self, path: String)
        ensures
            final(self).root_view() == path@,
            final(self).cwd_view() == old(self).cwd_view(),
            final(self).credentials_view() == old(self).credentials_view(),
            final(self).is_read_only() == old(self).is_read_only(),
    {
        self.root_dir = path;
    }

    /// Sets the current working directory.
    pub fn set_cwd(&mut self, path: String)
        ensures
            final(self).cwd_view() == path@,
            final(self).root_view() == old(self).root_view(),
            final(self).credentials_view() == old(self).credentials_view(),
            final(self).is_read_only() == old(self).is_read_only(),
    {
        self.cwd = path;
    }

    /// Carries out a received command as far as no I/O is needed, and says
    /// what is left to do: "cd" moves the working directory (or asks for a
    /// shell command), "download" sends the file named by the argument in
    /// the working directory, "upload" receives into the working directory's
    /// path; any other command does nothing.
    pub fn handle_command(&mut self, command: &RecvdCommand) -> (r: ServerAction)
        ensures
            (r@, final(self).cwd_view()) == command_step(
                old(self).root_view(),
                old(self).cwd_view(),
                command.command@,
                command.argument@,
            ),
            final(self).root_view() == old(self).root_view(),
            final(self).credentials_view() == old(self).credentials_view(),
            final(self).is_read_only() == old(self).is_read_only(),
    {
        let name = command.command.as_str();
        if same_text(name, "cd") {
            match cd(&self.root_dir, self.cwd.clone(), Some(command.argument.clone())) {
                CdOutcome::Reply(t) => ServerAction::Reply(t),
                CdOutcome::Done(Some(n)) => {
                    self.cwd = n;
                    ServerAction::Nothing
                },
                CdOutcome::Done(None) => ServerAction::Nothing,
                CdOutcome::Shell(c) => ServerAction::RunShell(c),
            }
        } else if same_text(name, "download") {
            let path = join(self.cwd.as_str(), "/");
            let path = join(path.as_str(), command.argument.as_str());
            ServerAction::Download(path)
        } else if same_text(name, "upload") {
            ServerAction::Upload(self.cwd.clone())
        } else {
            ServerAction::Nothing
        }
    }

    /// Finishes a "cd" that went through the shell: `success` tells whether
    /// the command succeeded and `stdout` is what it printed. Where it
    /// succeeded, its output is the new working directory.
    pub fn finish_cd(&mut self, success: bool, stdout: &[u8])
        ensures
            final(self).cwd_view() == match cd_result_dir(success, stdout@) {
                Some(n) => n,
                None => old(self).cwd_view(),
            },
            final(self).root_view() == old(self).root_view(),
            final(self).credentials_view() == old(self).credentials_view(),
            final(self).is_read_only() == old(self).is_read_only(),
    {
        match cd_result(success, stdout) {
            Some(n) => {
                self.cwd = n;
            },
            None => {},
        }
    }

    /// The text that reports a command's result to the client.
    pub fn send_cmd_result(result: String) -> (r: String)
        ensures
            r@ == result_text(result@),
    {
        if result.unicode_len() == 0 {
            "Done".to_owned()
        } else {
            result
        }
    }

    /// Accepts the connected client: this server lets every client in,
    /// reading nothing from it. The caller then answers with
    /// `user::auth_reply(Ok(()))`, the reply "1".
    pub fn auth_usr(&self) -> (r: Result<(), ()>)
        ensures
            r is Ok,
    {
        Ok(())
    }

    /// The path of the credentials file.
    pub fn credentials(&self) -> (r: &String)
        ensures
            r@ == self.credentials_view(),
    {
        &self.credentials
    }

    /// The current working directory.
    pub fn cwd(&self) -> (r: &String)
        ensures
            r@ == self.cwd_view(),
    {
        &self.cwd
    }

    /// The root directory.
    pub fn root_dir(&self) -> (r: &String)
        ensures
            r@ == self.root_view(),
    {
        &self.root_dir
    }
}

/// "cd .." never takes the working directory above the root: after it the
/// working directory is at least as long (in bytes) as the root.
pub proof fn lemma_cd_up_stays_within_root(root: Seq<char>, cwd: Seq<char>)
    ensures
        byte_len(command_step(root, cwd, "cd"@, ".."@).1) >= byte_len(root),
        command_step(root, cwd, "cd"@, ".."@).0 == ServerStep::Nothing,
{
    sys_commands::lemma_parent_within_root(root, cwd);
}

/// "cd /." always leads back to the root.
pub proof fn lemma_cd_home_is_root(root: Seq<char>, cwd: Seq<char>)
    ensures
        command_step(root, cwd, "cd"@, "/."@) == (ServerStep::Nothing, root),
{
    reveal_strlit("..");
    reveal_strlit("/.");
    assert("/."@[0] != ".."@[0]);
}

/// "cd 0" is refused and leaves the working directory as it was.
pub proof fn lemma_cd_zero_keeps_cwd(root: Seq<char>, cwd: Seq<char>)
    ensures
        command_step(root, cwd, "cd"@, "0"@) == (ServerStep::Nothing, cwd),
{
    reveal_strlit("..");
    reveal_strlit("/.");
    reveal_strlit("0");
    assert("0"@.len() != ".."@.len());
    assert("0"@.len() != "/."@.len());
}

/// "cd .." through `handle_command` goes up exactly one level: the new
/// working directory is the root, or the old one cut just before its last
/// '/', or, where the old one holds no '/', empty.
pub proof fn lemma_cd_up_one_level(root: Seq<char>, cwd: Seq<char>)
    ensures
        ({
            let up = command_step(root, cwd, "cd"@, ".."@).1;
            ||| up == root
            ||| exists|p: int|
                0 <= p < cwd.len() && #[trigger] cwd[p] == '/' && (forall|q: int|
                    p < q < cwd.len() ==> cwd[q] != '/') && up == cwd.take(p)
            ||| (up.len() == 0 && forall|q: int| 0 <= q < cwd.len() ==> cwd[q] != '/')
        }),
{
    sys_commands::lemma_parent_one_level(root, cwd);
}

/// "download" names the argument inside the working directory, whatever the
/// working directory holds: the path is the working directory, then '/',
/// then the argument; the working directory stays.
pub proof fn lemma_download_in_cwd(root: Seq<char>, cwd: Seq<char>, arg: Seq<char>)
    ensures
        command_step(root, cwd, "download"@, arg).1 == cwd,
        command_step(root, cwd, "download"@, arg).0 matches ServerStep::Download(p) && p.len()
            == cwd.len() + 1 + arg.len() && p.take(cwd.len() as int) == cwd && p[cwd.len() as int]
            == '/' && p.skip(cwd.len() + 1int) == arg,
{
    reveal_strlit("cd");
    reveal_strlit("download");
    reveal_strlit("/");
    assert("cd"@.len() != "download"@.len());
    let p = cwd + "/"@ + arg;
    assert(p.take(cwd.len() as int) =~= cwd);
    assert(p.skip(cwd.len() + 1int) =~= arg);
}

/// "upload" receives into the working directory's path, which stays.
pub proof fn lemma_upload_to_cwd(root: Seq<char>, cwd: Seq<char>, arg: Seq<char>)
    ensures
        command_step(root, cwd, "upload"@, arg) == (ServerStep::Upload(cwd), cwd),
{
    reveal_strlit("cd");
    reveal_strlit("download");
    reveal_strlit("upload");
    assert("cd"@.len() != "upload"@.len());
    assert("download"@.len() != "upload"@.len());
}

/// Only "cd" moves the working directory.
pub proof fn lemma_only_cd_moves(root: Seq<char>, cwd: Seq<char>, command: Seq<char>, arg: Seq<char>)
    requires
        command != "cd"@,
    ensures
        command_step(root, cwd, command, arg).1 == cwd,
{
}

/// Commands other than "cd", "download" and "upload" ask for nothing.
pub proof fn lemma_other_commands_do_nothing(
    root: Seq<char>,
    cwd: Seq<char>,
    command: Seq<char>,
    arg: Seq<char>,
)
    requires
        command != "cd"@,
        command != "download"@,
        command != "upload"@,
    ensures
        command_step(root, cwd, command, arg) == (ServerStep::Nothing, cwd),
{
}

} // verus!
