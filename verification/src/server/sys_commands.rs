//! What the server computes for the shell-like commands it serves: the
//! parsing of a received command, directory navigation, directory listings
//! and the chunking of file transfers.
use vstd::prelude::*;
use vstd::utf8::*;
use crate::text::{
    byte_len,    decode_utf8_lossy, decode_utf8_strict, drop_two_last, find_char, find_last_char,
    chars_of, index_of_char, lemma_index_of_char, join, lemma_index_of_char_unique, last_index_of_char, lemma_last_index_of_char, lemma_last_index_of_char_bound, same_text, substring, utf8_lossy, without_two_last,
};

verus! {

/// Separates two shell commands so that the second runs after the first.
pub const COMMAND_SEPARATOR: &'static str = "&&";

/// Size of the buffers in which data crosses the connection.
pub const BUF_LENGTH: usize = 1400;

/// A command received from a client: its name, its argument and its output.
#[derive(Debug, Clone, PartialEq, Eq)]
pub struct RecvdCommand {
    pub command: String,
    pub argument: String,
    pub output: Option<String>,
}

impl RecvdCommand {
    /// Makes a command from its parts.
    pub fn new(command: String, argument: String, output: Option<String>) -> (r: Self)
        ensures
            r.command == command,
            r.argument == argument,
            r.output == output,
    {
        RecvdCommand { command, argument, output }
    }
}

/// A payload split at its first space into command and argument; where it
/// holds no space, the whole payload is the command and the argument is "0".
pub open spec fn split_at_space(p: Seq<char>) -> (Seq<char>, Seq<char>) {
    let i = index_of_char(p, ' ');
    if i < p.len() {
        (p.take(i as int), p.skip(i + 1 as int))
    } else {
        (p, "0"@)
    }
}

/// The command and argument that a received packet carries: `None` stands
/// for a failed read. The packet's last two characters end it and are
/// dropped; a failed read or bytes that are not UTF-8 give "0" and "0".
pub open spec fn received_command(received: Option<Seq<u8>>) -> (Seq<char>, Seq<char>) {
    match received {
        Some(b) => if valid_utf8(b) {
            split_at_space(drop_two_last(decode_utf8(b)))
        } else {
            ("0"@, "0"@)
        },
        None => ("0"@, "0"@),
    }
}

/// Turns a packet from a client into a command: `received` holds the bytes
/// read, or `None` where reading failed.
///
/// Gives (command, argument, None) where the payload holds a space; (command,
/// "0", None) where it holds none; ("0", "0", None) where reading failed or
/// the bytes are not UTF-8.
pub fn capture_command(received: Option<&[u8]>) -> (r: RecvdCommand)
    ensures
        (r.command@, r.argument@) == received_command(
            match received {
                Some(b) => Some(b@),
                None => None,
            },
        ),
        r.output is None,
{
    let parsed = match received {
        Some(bytes) => match decode_utf8_strict(bytes) {
            Some(s) => s,
            None => {
                return RecvdCommand::new("0".to_owned(), "0".to_owned(), None);
            },
        },
        None => {
            return RecvdCommand::new("0".to_owned(), "0".to_owned(), None);
        },
    };
    let parsed = without_two_last(parsed.as_str());
    let n = parsed.unicode_len();
    let i = find_char(parsed.as_str(), ' ');
    if i < n {
        let command = substring(parsed.as_str(), 0, i);
        let argument = substring(parsed.as_str(), i + 1, n);
        RecvdCommand::new(command, argument, None)
    } else {
        RecvdCommand::new(parsed, "0".to_owned(), None)
    }
}

/// The view of an optional string.
pub open spec fn opt_text(o: Option<String>) -> Option<Seq<char>> {
    match o {
        Some(s) => Some(s@),
        None => None,
    }
}

/// The directory above `cwd`: `cwd` up to its last '/', or the root where
/// that would be shorter (in bytes, as `str::len` counts) than the root.
pub open spec fn parent_dir(root: Seq<char>, cwd: Seq<char>) -> Seq<char> {
    let up = cwd.take(last_index_of_char(cwd, '/') as int);
    if byte_len(up) < byte_len(root) {
        root
    } else {
        up
    }
}

/// The shell command that enters `arg` below `cwd` and prints where it
/// ended up.
pub open spec fn cd_shell_command(cwd: Seq<char>, arg: Seq<char>) -> Seq<char> {
    "cd "@ + cwd + "\\"@ + arg + COMMAND_SEPARATOR@ + " cd"@
}

/// What a `cd` request leads to, on views.
pub enum CdStep {
    /// Send this text (the working directory) back; the directory stays.
    Reply(Seq<char>),
    /// The new working directory, or `None` where it stays.
    Done(Option<Seq<char>>),
    /// Run this shell command; its output names the new directory.
    Shell(Seq<char>),
}

/// What `cd` does, for each argument: none, "..", "/.", "0" or a directory.
pub open spec fn cd_step(root: Seq<char>, cwd: Seq<char>, arg: Option<Seq<char>>) -> CdStep {
    match arg {
        None => CdStep::Reply(cwd),
        Some(a) => if a == ".."@ {
            CdStep::Done(Some(parent_dir(root, cwd)))
        } else if a == "/."@ {
            CdStep::Done(Some(root))
        } else if a == "0"@ {
            CdStep::Done(None)
        } else {
            CdStep::Shell(cd_shell_command(cwd, a))
        },
    }
}

/// What a `cd` request leads to.
#[derive(Debug, Clone, PartialEq, Eq)]
pub enum CdOutcome {
    /// Send this text (the working directory) to the client; the directory
    /// stays.
    Reply(String),
    /// The new working directory, or `None` where it stays.
    Done(Option<String>),
    /// Run this shell command and pass its outcome to `cd_result`.
    Shell(String),
}

impl View for CdOutcome {
    type V = CdStep;

    open spec fn view(&self) -> CdStep {
        match self {
            CdOutcome::Reply(t) => CdStep::Reply(t@),
            CdOutcome::Done(o) => CdStep::Done(opt_text(*o)),
            CdOutcome::Shell(c) => CdStep::Shell(c@),
        }
    }
}

/// Acts on the current working directory in the manner of cmd's `cd`.
///
/// No argument: the working directory is sent back and stays. ".." goes to
/// the directory above, never above `root_dir`. "/." goes back to
/// `root_dir`. "0" is an invalid argument: the directory stays. Anything
/// else is entered through the shell (see `cd_result`).
pub fn cd(root_dir: &String, cwd: String, arg: Option<String>) -> (r: CdOutcome)
    ensures
        r@ == cd_step(root_dir@, cwd@, opt_text(arg)),
{
    match arg {
        None => {
            CdOutcome::Reply(cwd)
        },
        Some(a) => {
            if same_text(a.as_str(), "..") {
                let k = find_last_char(cwd.as_str(), '/');
                proof {
                    lemma_last_index_of_char_bound(cwd@, '/');
                }
                let up = substring(cwd.as_str(), 0, k);
                if up.as_str().len() < root_dir.as_str().len() {
                    CdOutcome::Done(Some(root_dir.clone()))
                } else {
                    CdOutcome::Done(Some(up))
                }
            } else if same_text(a.as_str(), "/.") {
                CdOutcome::Done(Some(root_dir.clone()))
            } else if same_text(a.as_str(), "0") {
                CdOutcome::Done(None)
            } else {
                let c = join("cd ", cwd.as_str());
                let c = join(c.as_str(), "\\");
                let c = join(c.as_str(), a.as_str());
                let c = join(c.as_str(), COMMAND_SEPARATOR);
                let c = join(c.as_str(), " cd");
                CdOutcome::Shell(c)
            }
        },
    }
}

/// The new working directory that a shell `cd` reports: its output, less
/// the line break that ends it, where the command succeeded.
pub open spec fn cd_result_dir(success: bool, stdout: Seq<u8>) -> Option<Seq<char>> {
    if success {
        Some(drop_two_last(utf8_lossy(stdout)))
    } else {
        None
    }
}

/// Finishes a `cd` that went through the shell: `success` tells whether the
/// command succeeded and `stdout` is what it printed.
pub fn cd_result(success: bool, stdout: &[u8]) -> (r: Option<String>)
    ensures
        opt_text(r) == cd_result_dir(success, stdout@),
{
    if success {
        let out = decode_utf8_lossy(stdout);
        Some(without_two_last(out.as_str()))
    } else {
        None
    }
}

/// The shell command that lists the names in directory `path`, one a line.
pub open spec fn dir_shell_command(path: Seq<char>) -> Seq<char> {
    "cd "@ + path + COMMAND_SEPARATOR@ + "dir /b"@
}

/// Returns the shell command that lists the names in directory `path`.
pub fn dir_command(path: &str) -> (r: String)
    ensures
        r@ == dir_shell_command(path@),
{
    let c = join("cd ", path);
    let c = join(c.as_str(), COMMAND_SEPARATOR);
    join(c.as_str(), "dir /b")
}

/// The views of a sequence of strings.
pub open spec fn texts(v: Seq<String>) -> Seq<Seq<char>> {
    v.map_values(|x: String| x@)
}

/// The names in a listing: the text before each carriage return, where
/// each carriage return and the character after it end a line.
pub open spec fn dir_entries(s: Seq<char>) -> Seq<Seq<char>>
    decreases s.len(),
{
    let i = index_of_char(s, '\r');
    if i < s.len() {
        let next: int = if i + 2 <= s.len() {
            i + 2int
        } else {
            s.len() as int
        };
        seq![s.take(i as int)] + dir_entries(s.skip(next))
    } else {
        seq![]
    }
}

/// A listing that splits into lines: no carriage return follows another
/// directly, and every carriage return that another follows later is
/// followed by an ASCII character.
pub open spec fn listing_ok(s: Seq<char>) -> bool {
    forall|j: int, k: int|
        0 <= j < k < s.len() && #[trigger] s[j] == '\r' && #[trigger] s[k] == '\r' ==> k != j + 1
            && (s[j + 1] as u32) < 0x80
}

/// Decides `listing_ok`.
pub fn check_listing(listing: &str) -> (b: bool)
    ensures
        b == listing_ok(listing@),
{
    let cs = chars_of(listing);
    let n = cs.len();
    let ghost s = listing@;
    let mut tainted = false;
    let mut k: usize = 0;
    while k < n
        invariant
            k <= n,
            n == s.len(),
            cs@ == s,
            s == listing@,
            forall|j: int, m: int|
                0 <= j < m < k && #[trigger] s[j] == '\r' && #[trigger] s[m] == '\r' ==> m != j
                    + 1 && (s[j + 1] as u32) < 0x80,
            tainted == exists|j: int|
                0 <= j && j + 1 < k && #[trigger] s[j] == '\r' && (s[j + 1] as u32) >= 0x80,
        decreases n - k,
    {
        if cs[k] == '\r' {
            if k > 0 && cs[k - 1] == '\r' {
                proof {
                    let j = k - 1;
                    assert(s[j] == '\r' && s[k as int] == '\r' && k as int == j + 1);
                    assert(!listing_ok(s));
                }
                return false;
            }
            if tainted {
                let ghost j = choose|j: int|
                    0 <= j && j + 1 < k && #[trigger] s[j] == '\r' && (s[j + 1] as u32) >= 0x80;
                assert(s[j] == '\r' && s[k as int] == '\r' && (s[j + 1] as u32) >= 0x80);
                assert(!listing_ok(s));
                return false;
            }
        }
        let next_tainted = tainted || (k > 0 && cs[k - 1] == '\r' && (cs[k] as u32) >= 0x80);
        proof {
            if k > 0 && s[k - 1] == '\r' && (s[k as int] as u32) >= 0x80 {
                assert(s[k - 1] == '\r');
            }
        }
        tainted = next_tainted;
        k = k + 1;
    }
    true
}

/// Splits a directory listing into its names.
pub fn dir_listing(listing: &str) -> (r: Vec<String>)
    requires
        listing_ok(listing@),
    ensures
        texts(r@) == dir_entries(listing@),
{
    let cs = chars_of(listing);
    let n = cs.len();
    let ghost s = listing@;
    let mut out: Vec<String> = Vec::new();
    let mut start: usize = 0;
    proof {
        assert(s.skip(0) =~= s);
        assert(texts(out@) =~= Seq::<Seq<char>>::empty());
        assert(texts(out@) + dir_entries(s.skip(0)) =~= dir_entries(s));
    }
    while start < n
        invariant
            start <= n,
            n == s.len(),
            cs@ == s,
            s == listing@,
            texts(out@) + dir_entries(s.skip(start as int)) == dir_entries(s),
        decreases n - start,
    {
        let mut i: usize = start;
        while i < n && cs[i] != '\r'
            invariant
                start <= i <= n,
                n == s.len(),
                cs@ == s,
                forall|j: int| start <= j < i ==> s[j] != '\r',
            decreases n - i,
        {
            i = i + 1;
        }
        let ghost t = s.skip(start as int);
        proof {
            assert forall|j: int| 0 <= j < i - start implies t[j] != '\r' by {
                assert(t[j] == s[start + j]);
            }
            lemma_index_of_char_unique(t, '\r', i - start);
        }
        if i == n {
            proof {
                assert(dir_entries(t) =~= Seq::<Seq<char>>::empty());
                assert(s.skip(n as int) =~= Seq::<char>::empty());
                assert(texts(out@) + dir_entries(s.skip(n as int)) =~= texts(out@) + dir_entries(
                    t,
                ));
            }
            start = n;
        } else {
            let entry = substring(listing, start, i);
            let next: usize = if n - i >= 2 {
                i + 2
            } else {
                n
            };
            proof {
                let tn: int = if i - start + 2 <= t.len() {
                    i - start + 2
                } else {
                    t.len() as int
                };
                assert(t.take(i - start) =~= entry@);
                assert(t.skip(tn) =~= s.skip(next as int));
                assert(dir_entries(t) == seq![t.take(i - start)] + dir_entries(t.skip(tn)));
            }
            let ghost before = out@;
            out.push(entry);
            proof {
                assert(texts(out@) =~= texts(before) + seq![entry@]);
                assert(texts(out@) + dir_entries(s.skip(next as int)) =~= texts(before) + (seq![
                    entry@,
                ] + dir_entries(s.skip(next as int))));
            }
            start = next;
        }
    }
    proof {
        assert(s.skip(n as int) =~= Seq::<char>::empty());
        assert(dir_entries(s.skip(n as int)) =~= Seq::<Seq<char>>::empty());
        assert(texts(out@) + dir_entries(s.skip(n as int)) =~= texts(out@));
    }
    out
}

/// Lists a directory from what the listing command did: `success` tells
/// whether it succeeded and `stdout` is what it printed.
///
/// Gives the names where the command succeeded; `None` where it failed, and
/// also where the listing does not split into lines (`listing_ok`).
pub fn dir(success: bool, stdout: &[u8]) -> (r: Option<Vec<String>>)
    ensures
        match r {
            Some(v) => success && listing_ok(utf8_lossy(stdout@)) && texts(v@) == dir_entries(
                utf8_lossy(stdout@),
            ),
            None => !success || !listing_ok(utf8_lossy(stdout@)),
        },
{
    if !success {
        return None;
    }
    let listing = decode_utf8_lossy(stdout);
    if check_listing(listing.as_str()) {
        Some(dir_listing(listing.as_str()))
    } else {
        None
    }
}

/// The length of the next chunk of a transfer that has `left` bytes to go.
pub open spec fn chunk_len(left: nat) -> nat {
    if left < BUF_LENGTH {
        left
    } else {
        BUF_LENGTH as nat
    }
}

/// The (offset, length) chunks in which the last `left` bytes of a file of
/// `size` bytes are sent, in order.
pub open spec fn chunks_from(size: nat, left: nat) -> Seq<(nat, nat)>
    decreases left,
{
    if left == 0 {
        seq![]
    } else {
        seq![((size - left) as nat, chunk_len(left))] + chunks_from(
            size,
            (left - chunk_len(left)) as nat,
        )
    }
}

/// The chunks of a transfer cover what is left of the file exactly and in
/// order: each starts where the one before ended, the first at the first
/// unsent byte and the last ending at the end of the file; each holds at most
/// `BUF_LENGTH` bytes, and all but the last exactly that many.
pub proof fn lemma_chunks_cover(size: nat, left: nat)
    requires
        left <= size,
    ensures
        left == 0 <==> chunks_from(size, left).len() == 0,
        forall|k: int|
            0 <= k < chunks_from(size, left).len() ==> (#[trigger] chunks_from(size, left)[k]).0
                == size - left + k * BUF_LENGTH,
        forall|k: int|
            0 <= k < chunks_from(size, left).len() ==> 0 < (#[trigger] chunks_from(
                size,
                left,
            )[k]).1 <= BUF_LENGTH,
        forall|k: int|
            0 <= k < chunks_from(size, left).len() - 1 ==> (#[trigger] chunks_from(
                size,
                left,
            )[k]).1 == BUF_LENGTH,
        left > 0 ==> chunks_from(size, left).last().0 + chunks_from(size, left).last().1 == size,
    decreases left,
{
    if left > 0 {
        let l = chunk_len(left);
        let rest = (left - l) as nat;
        lemma_chunks_cover(size, rest);
        let c = chunks_from(size, left);
        let tail = chunks_from(size, rest);
        assert(c == seq![((size - left) as nat, l)] + tail);
        assert forall|k: int| 0 <= k < c.len() implies (#[trigger] c[k]).0 == size - left + k
            * BUF_LENGTH by {
            if k > 0 {
                assert(c[k] == tail[k - 1]);
                assert(rest > 0);
                assert(l == BUF_LENGTH);
            }
        }
        assert forall|k: int| 0 <= k < c.len() implies 0 < (#[trigger] c[k]).1 <= BUF_LENGTH by {
            if k > 0 {
                assert(c[k] == tail[k - 1]);
            }
        }
        assert forall|k: int| 0 <= k < c.len() - 1 implies (#[trigger] c[k]).1 == BUF_LENGTH by {
            if k > 0 {
                assert(c[k] == tail[k - 1]);
            } else {
                assert(tail.len() > 0);
                assert(rest > 0);
            }
        }
        if rest > 0 {
            assert(c.last() == tail.last());
        }
    }
}

/// A part of a file to send: `len` bytes from byte `offset`.
#[derive(Debug, Clone, Copy, PartialEq, Eq, Structural)]
pub struct FileChunk {
    pub offset: u64,
    pub len: usize,
}

/// Sends a file of a given size chunk by chunk: it says which part of the
/// file to send next, and how far the transfer has come.
pub struct FileSender {
    filesize: u64,
    left: u64,
}

impl FileSender {
    #[verifier::type_invariant]
    spec fn inv(self) -> bool {
        self.left <= self.filesize
    }

    /// The size of the file.
    pub closed spec fn size(&self) -> nat {
        self.filesize as nat
    }

    /// The number of bytes not yet handed out.
    pub closed spec fn remaining(&self) -> nat {
        self.left as nat
    }

    /// Starts the transfer of a file of `filesize` bytes.
    pub fn new(filesize: u64) -> (r: Self)
        ensures
            r.size() == filesize,
            r.remaining() == filesize,
    {
        FileSender { filesize, left: filesize }
    }

    /// The size of the file.
    pub fn filesize(&self) -> (r: u64)
        ensures
            r == self.size(),
            self.remaining() <= self.size(),
    {
        proof {
            use_type_invariant(self);
        }
        self.filesize
    }

    /// The number of bytes not yet handed out.
    pub fn bytes_left(&self) -> (r: u64)
        ensures
            r == self.remaining(),
            self.remaining() <= self.size(),
    {
        proof {
            use_type_invariant(self);
        }
        self.left
    }

    /// The next part of the file to send, or `None` once all of it was
    /// handed out: at most `BUF_LENGTH` bytes from the first unsent byte.
    pub fn next_chunk(&mut self) -> (r: Option<FileChunk>)
        ensures
            final(self).size() == old(self).size(),
            final(self).remaining() <= final(self).size(),
            match r {
                Some(c) => {
                    &&& old(self).remaining() > 0
                    &&& c.offset == old(self).size() - old(self).remaining()
                    &&& c.len == chunk_len(old(self).remaining())
                    &&& final(self).remaining() == old(self).remaining() - c.len
                    &&& chunks_from(old(self).size(), old(self).remaining()) == seq![
                        (c.offset as nat, c.len as nat),
                    ] + chunks_from(final(self).size(), final(self).remaining())
                },
                None => {
                    &&& old(self).remaining() == 0
                    &&& final(self).remaining() == 0
                    &&& chunks_from(old(self).size(), old(self).remaining()) == Seq::<
                        (nat, nat),
                    >::empty()
                },
            },
    {
        proof {
            use_type_invariant(&*self);
        }
        if self.left == 0 {
            return None;
        }
        let len: u64 = if self.left < BUF_LENGTH as u64 {
            self.left
        } else {
            BUF_LENGTH as u64
        };
        let offset = self.filesize - self.left;
        self.left = self.left - len;
        Some(FileChunk { offset, len: len as usize })
    }

    /// The share of the file handed out so far, in whole percent.
    pub fn progress(&self) -> (r: u64)
        requires
            self.size() > 0,
        ensures
            r == (self.size() - self.remaining()) * 100 / (self.size() as int),
            r <= 100,
    {
        proof {
            use_type_invariant(self);
        }
        let sent: u128 = (self.filesize - self.left) as u128;
        let total: u128 = self.filesize as u128;
        proof {
            let si: int = sent as int;
            let ti: int = total as int;
            assert(si * 100 / ti <= 100) by (nonlinear_arith)
                requires
                    0 <= si <= ti,
                    ti > 0,
            {
                assert(si * 100 <= ti * 100);
            }
        }
        ((sent * 100) / total) as u64
    }
}

/// What to do with the outcome of one read of an incoming file.
#[derive(Debug, Clone, Copy, PartialEq, Eq, Structural)]
pub enum ReceiveAction {
    /// Write this many bytes of the buffer to the file and read again.
    Write(usize),
    /// The transfer is over.
    Stop,
}

/// Decides on the outcome of a read of an incoming file: `read` holds the
/// number of bytes read, or `None` where reading failed. A failed read or
/// one of no bytes ends the transfer.
pub fn receive_action(read: Option<usize>) -> (r: ReceiveAction)
    ensures
        match read {
            Some(n) => if n == 0 {
                r is Stop
            } else {
                r == ReceiveAction::Write(n)
            },
            None => r is Stop,
        },
{
    match read {
        Some(0) => ReceiveAction::Stop,
        Some(n) => ReceiveAction::Write(n),
        None => ReceiveAction::Stop,
    }
}

/// Going up never leaves the root: the directory above `cwd` is the root
/// itself or a prefix of `cwd` at least as long (in bytes) as the root.
pub proof fn lemma_parent_within_root(root: Seq<char>, cwd: Seq<char>)
    ensures
        byte_len(parent_dir(root, cwd)) >= byte_len(root),
        parent_dir(root, cwd) == root || cwd.take(
            parent_dir(root, cwd).len() as int,
        ) == parent_dir(root, cwd),
{
    lemma_last_index_of_char_bound(cwd, '/');
    let up = cwd.take(last_index_of_char(cwd, '/') as int);
    if byte_len(up) >= byte_len(root) {
        assert(cwd.take(up.len() as int) =~= up);
    }
}

/// A payload that holds a space comes apart into a command with no space
/// and an argument, which rejoined by a space give the payload back.
pub proof fn lemma_split_at_space_rejoins(p: Seq<char>)
    requires
        p.contains(' '),
    ensures
        split_at_space(p).0 + " "@ + split_at_space(p).1 == p,
        !split_at_space(p).0.contains(' '),
{
    reveal_strlit(" ");
    lemma_index_of_char(p, ' ');
    let i = index_of_char(p, ' ');
    let j = choose|j: int| 0 <= j < p.len() && p[j] == ' ';
    assert(i < p.len());
    assert(p.take(i as int) + " "@ + p.skip(i + 1int) =~= p);
    assert forall|k: int| 0 <= k < i implies p.take(i as int)[k] != ' ' by {}
}

/// No name in a listing holds a carriage return.
pub proof fn lemma_dir_entries_one_line(s: Seq<char>)
    ensures
        forall|k: int| 0 <= k < dir_entries(s).len() ==> !(#[trigger] dir_entries(s)[k]).contains(
            '\r',
        ),
    decreases s.len(),
{
    let i = index_of_char(s, '\r');
    lemma_index_of_char(s, '\r');
    if i < s.len() {
        let next: int = if i + 2 <= s.len() {
            i + 2int
        } else {
            s.len() as int
        };
        lemma_dir_entries_one_line(s.skip(next));
        let e = dir_entries(s);
        assert(e == seq![s.take(i as int)] + dir_entries(s.skip(next)));
        assert forall|k: int| 0 <= k < e.len() implies !(#[trigger] e[k]).contains('\r') by {
            if k == 0 {
                assert forall|m: int| 0 <= m < e[0].len() implies e[0][m] != '\r' by {
                    assert(e[0][m] == s[m]);
                }
            } else {
                assert(e[k] == dir_entries(s.skip(next))[k - 1]);
            }
        }
    }
}

/// "cd .." goes up exactly one level: the result is the root, or `cwd` cut
/// just before its last '/' (so that the result, a '/' and one component
/// without '/' give `cwd` back), or, where `cwd` holds no '/', empty.
pub proof fn lemma_parent_one_level(root: Seq<char>, cwd: Seq<char>)
    ensures
        ({
            let up = parent_dir(root, cwd);
            ||| up == root
            ||| exists|p: int|
                0 <= p < cwd.len() && #[trigger] cwd[p] == '/' && (forall|q: int|
                    p < q < cwd.len() ==> cwd[q] != '/') && up == cwd.take(p)
            ||| (up.len() == 0 && forall|q: int| 0 <= q < cwd.len() ==> cwd[q] != '/')
        }),
{
    lemma_last_index_of_char(cwd, '/');
    let k = last_index_of_char(cwd, '/') as int;
    if parent_dir(root, cwd) != root {
        if 0 <= k < cwd.len() && cwd[k] == '/' && forall|q: int| k < q < cwd.len() ==> cwd[q]
            != '/' {
            assert(cwd[k] == '/');
        } else {
            assert(cwd.take(0) =~= Seq::<char>::empty());
        }
    }
}

/// A listing in which each name is followed by "\r\n".
pub open spec fn crlf_listing(names: Seq<Seq<char>>) -> Seq<char>
    decreases names.len(),
{
    if names.len() == 0 {
        seq![]
    } else {
        names[0] + "\r\n"@ + crlf_listing(names.drop_first())
    }
}

/// In a listing of names each followed by "\r\n", every carriage return is
/// followed by a line feed.
pub proof fn lemma_crlf_listing_breaks(names: Seq<Seq<char>>)
    requires
        forall|k: int| 0 <= k < names.len() ==> !(#[trigger] names[k]).contains('\r'),
    ensures
        forall|j: int|
            0 <= j < crlf_listing(names).len() && #[trigger] crlf_listing(names)[j] == '\r' ==> j
                + 1 < crlf_listing(names).len() && crlf_listing(names)[j + 1] == '\n',
    decreases names.len(),
{
    reveal_strlit("\r\n");
    if names.len() > 0 {
        let n0 = names[0];
        let rest = names.drop_first();
        assert forall|k: int| 0 <= k < rest.len() implies !(#[trigger] rest[k]).contains('\r') by {
            assert(rest[k] == names[k + 1]);
        }
        lemma_crlf_listing_breaks(rest);
        let s = crlf_listing(names);
        let t = crlf_listing(rest);
        assert(s == n0 + "\r\n"@ + t);
        assert forall|j: int| 0 <= j < s.len() && #[trigger] s[j] == '\r' implies j + 1 < s.len()
            && s[j + 1] == '\n' by {
            if j < n0.len() {
                assert(s[j] == n0[j]);
                assert(n0.contains('\r'));
            } else if j == n0.len() {
            } else if j == n0.len() + 1 {
            } else {
                assert(s[j] == t[j - n0.len() - 2]);
                assert(s[j + 1] == t[j - n0.len() - 1]);
            }
        }
    }
}

/// Every listing of names each followed by "\r\n" splits into lines.
pub proof fn lemma_crlf_listing_ok(names: Seq<Seq<char>>)
    requires
        forall|k: int| 0 <= k < names.len() ==> !(#[trigger] names[k]).contains('\r'),
    ensures
        listing_ok(crlf_listing(names)),
{
    lemma_crlf_listing_breaks(names);
    let s = crlf_listing(names);
    assert forall|j: int, k: int|
        0 <= j < k < s.len() && #[trigger] s[j] == '\r' && #[trigger] s[k] == '\r' implies k != j
        + 1 && (s[j + 1] as u32) < 0x80 by {
        assert(s[j + 1] == '\n');
    }
}

/// Every line of a listing is a name, in order: the names of a listing in
/// which each name is followed by "\r\n" are exactly those names.
pub proof fn lemma_dir_entries_of_crlf_listing(names: Seq<Seq<char>>)
    requires
        forall|k: int| 0 <= k < names.len() ==> !(#[trigger] names[k]).contains('\r'),
    ensures
        dir_entries(crlf_listing(names)) == names,
    decreases names.len(),
{
    reveal_strlit("\r\n");
    if names.len() == 0 {
        assert(dir_entries(crlf_listing(names)) =~= names);
    } else {
        let n0 = names[0];
        let rest = names.drop_first();
        assert forall|k: int| 0 <= k < rest.len() implies !(#[trigger] rest[k]).contains('\r') by {
            assert(rest[k] == names[k + 1]);
        }
        lemma_dir_entries_of_crlf_listing(rest);
        let s = crlf_listing(names);
        let t = crlf_listing(rest);
        assert(s == n0 + "\r\n"@ + t);
        assert(!names[0].contains('\r'));
        assert forall|j: int| 0 <= j < n0.len() implies s[j] != '\r' by {
            assert(s[j] == n0[j]);
            if n0[j] == '\r' {
                assert(n0.contains('\r'));
            }
        }
        assert(s[n0.len() as int] == '\r');
        lemma_index_of_char_unique(s, '\r', n0.len() as int);
        assert(s.take(n0.len() as int) =~= n0);
        assert(s.skip(n0.len() + 2int) =~= t);
        assert(dir_entries(s) == seq![n0] + dir_entries(t));
        assert(seq![n0] + rest =~= names);
    }
}

/// A payload without a space is the command itself, with the argument "0".
pub proof fn lemma_split_without_space(p: Seq<char>)
    requires
        !p.contains(' '),
    ensures
        split_at_space(p) == (p, "0"@),
{
    lemma_index_of_char(p, ' ');
    let i = index_of_char(p, ' ');
    if i < p.len() {
        assert(p.contains(' '));
    }
}

/// A failed read, and bytes that are not UTF-8, give the command "0" with
/// the argument "0".
pub proof fn lemma_capture_failures(b: Seq<u8>)
    ensures
        received_command(None) == ("0"@, "0"@),
        !valid_utf8(b) ==> received_command(Some(b)) == ("0"@, "0"@),
{
}

/// The directory a shell `cd` reports is its output without the last two
/// characters: a prefix of the output, two characters shorter (empty where
/// the output is shorter than that); a failed command reports none.
pub proof fn lemma_cd_result_trims_line_break(success: bool, stdout: Seq<u8>)
    ensures
        !success ==> cd_result_dir(success, stdout) is None,
        success ==> (cd_result_dir(success, stdout) matches Some(d) && {
            let out = utf8_lossy(stdout);
            &&& out.len() >= 2 ==> d.len() == out.len() - 2 && d == out.take(d.len() as int)
            &&& out.len() < 2 ==> d.len() == 0
        }),
{
}

} // verus!
