//! How the server checks a client's credentials and answers them.
use vstd::prelude::*;
use vstd::utf8::*;
use crate::server::sys_commands::texts;
use crate::text::{decode_utf8_strict, join, same_text};

verus! {

/// The reply by which the server accepts a client's credentials: "1".
pub open spec fn accept_reply() -> Seq<u8> {
    seq![0x31u8]
}

/// The reply by which the server refuses a client's credentials: "0".
pub open spec fn refuse_reply() -> Seq<u8> {
    seq![0x30u8]
}

/// The reply to an authentication with the given outcome.
pub open spec fn reply_for(result: Result<(), ()>) -> Seq<u8> {
    if result is Ok {
        accept_reply()
    } else {
        refuse_reply()
    }
}

/// Returns the bytes that tell a client how its authentication ended: "1"
/// where it was accepted, "0" where it was refused.
pub fn auth_reply(result: Result<(), ()>) -> (r: Vec<u8>)
    ensures
        r@ == reply_for(result),
{
    let mut r: Vec<u8> = Vec::new();
    if result.is_ok() {
        r.push(0x31u8);
    } else {
        r.push(0x30u8);
    }
    r
}

/// Whether the credentials file, given as its lines, holds an entry for this
/// login and password: a line that is the login followed by the password.
pub open spec fn registered(login: Seq<char>, password: Seq<char>, entries: Seq<Seq<char>>) -> bool {
    exists|k: int| 0 <= k < entries.len() && #[trigger] entries[k] == login + password
}

/// Checks a login and password against the lines of the credentials file:
/// `Ok` exactly when a line is the login followed by the password.
pub fn authenticate(login: &str, password: &str, entries: &Vec<String>) -> (r: Result<(), ()>)
    ensures
        r is Ok <==> registered(login@, password@, texts(entries@)),
{
    let credentials = join(login, password);
    let n = entries.len();
    let mut k: usize = 0;
    while k < n
        invariant
            k <= n,
            n == entries@.len(),
            credentials@ == login@ + password@,
            forall|j: int| 0 <= j < k ==> entries@[j]@ != login@ + password@,
        decreases n - k,
    {
        if same_text(entries[k].as_str(), credentials.as_str()) {
            proof {
                assert(texts(entries@)[k as int] == login@ + password@);
            }
            return Ok(());
        }
        k = k + 1;
    }
    proof {
        assert forall|j: int| 0 <= j < texts(entries@).len() implies #[trigger] texts(
            entries@,
        )[j] != login@ + password@ by {
            assert(texts(entries@)[j] == entries@[j]@);
        }
    }
    Err(())
}

/// What one read of a credential gives: `None` where the read failed, gave
/// no bytes, or gave bytes that are not UTF-8.
pub open spec fn credential_text(read: Option<Seq<u8>>) -> Option<Seq<char>> {
    match read {
        Some(b) => if b.len() > 0 && valid_utf8(b) {
            Some(decode_utf8(b))
        } else {
            None
        },
        None => None,
    }
}

/// The view of the bytes of one read, `None` where it failed.
pub open spec fn read_view(read: Option<&[u8]>) -> Option<Seq<u8>> {
    match read {
        Some(b) => Some(b@),
        None => None,
    }
}

fn read_credential(read: Option<&[u8]>) -> (r: Option<String>)
    ensures
        match r {
            Some(s) => credential_text(read_view(read)) == Some(s@),
            None => credential_text(read_view(read)) is None,
        },
{
    match read {
        Some(b) => {
            if b.len() == 0 {
                None
            } else {
                decode_utf8_strict(b)
            }
        },
        None => None,
    }
}

/// Authenticates a user who sent the login and the password in two reads
/// (`None` for a failed read) against the lines of the credentials file.
///
/// `Ok` exactly when both reads gave text and a line is the login followed
/// by the password; a failed or empty read, or one that is not UTF-8, gives
/// `Err`.
pub fn auth_usr(login: Option<&[u8]>, password: Option<&[u8]>, entries: &Vec<String>) -> (r: Result<
    (),
    (),
>)
    ensures
        r is Ok <==> match (credential_text(read_view(login)), credential_text(read_view(password))) {
            (Some(l), Some(p)) => registered(l, p, texts(entries@)),
            _ => false,
        },
{
    let l = match read_credential(login) {
        Some(l) => l,
        None => return Err(()),
    };
    let p = match read_credential(password) {
        Some(p) => p,
        None => return Err(()),
    };
    authenticate(l.as_str(), p.as_str(), entries)
}

/// Only registered credentials are accepted: the check passes exactly when
/// the login followed by the password is one of the lines.
pub proof fn lemma_registered_is_listed(login: Seq<char>, password: Seq<char>, entries: Seq<Seq<char>>)
    ensures
        registered(login, password, entries) <==> entries.contains(login + password),
{
    if entries.contains(login + password) {
        let k = choose|k: int| 0 <= k < entries.len() && entries[k] == login + password;
        assert(entries[k] == login + password);
    }
}

/// The server's reply for an authentication is "1" exactly when it
/// accepted, and "0" otherwise; the two replies differ.
pub proof fn lemma_reply_for(result: Result<(), ()>)
    ensures
        reply_for(result).len() == 1,
        reply_for(result) == accept_reply() <==> result is Ok,
        reply_for(result) == refuse_reply() <==> result is Err,
{
    assert(accept_reply()[0] != refuse_reply()[0]);
}

} // verus!
