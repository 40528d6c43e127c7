use ftp::client::{get_input, AuthError, ClientAction, User};
use ftp::server::sys_commands::capture_command;
use ftp::server::user::auth_reply;

fn user() -> User {
    User::new("alice".to_string(), "secret".to_string())
}

#[test]
fn get_input_command_and_argument() {
    assert_eq!(get_input("cd docs\n"), ("cd".to_string(), Some("docs".to_string())));
}

#[test]
fn get_input_trims_the_line() {
    assert_eq!(get_input("  \tdir \r\n"), ("dir".to_string(), None));
}

#[test]
fn get_input_takes_only_the_second_piece() {
    assert_eq!(get_input("mkdir a b"), ("mkdir".to_string(), Some("a".to_string())));
}

#[test]
fn get_input_double_space_gives_empty_argument() {
    assert_eq!(get_input("cd  docs"), ("cd".to_string(), Some(String::new())));
}

#[test]
fn get_input_empty_line() {
    assert_eq!(get_input("   "), (String::new(), None));
}

#[test]
fn get_input_unicode_whitespace_is_trimmed() {
    assert_eq!(get_input("\u{3000}dir\u{00A0}"), ("dir".to_string(), None));
}

#[test]
fn credentials_join_name_and_password() {
    assert_eq!(user().credentials(), "alice secret");
}

#[test]
fn auth_me_accepts_one() {
    assert_eq!(user().auth_me(true, Some(b"1")), Ok(()));
}

#[test]
fn auth_me_refuses_zero() {
    assert_eq!(user().auth_me(true, Some(b"0")), Err(AuthError::Denied));
}

#[test]
fn auth_me_no_bytes() {
    assert_eq!(user().auth_me(true, Some(b"")), Err(AuthError::NoResponse));
}

#[test]
fn auth_me_read_failure() {
    assert_eq!(user().auth_me(true, None), Err(AuthError::ReadFailed));
}

#[test]
fn auth_me_unexpected_reply() {
    assert_eq!(user().auth_me(true, Some(b"10")), Err(AuthError::Unexpected));
    assert_eq!(user().auth_me(true, Some(b"2")), Err(AuthError::Unexpected));
}

#[test]
fn auth_me_failed_send_fails_first() {
    assert_eq!(user().auth_me(false, Some(b"1")), Err(AuthError::SendFailed));
    assert_eq!(user().auth_me(false, None), Err(AuthError::SendFailed));
}

#[test]
fn server_reply_decides_client_outcome() {
    let accept = auth_reply(Ok(()));
    assert_eq!(accept, b"1".to_vec());
    assert_eq!(user().auth_me(true, Some(accept.as_slice())), Ok(()));
    let refuse = auth_reply(Err(()));
    assert_eq!(refuse, b"0".to_vec());
    assert_eq!(user().auth_me(true, Some(refuse.as_slice())), Err(AuthError::Denied));
}

#[test]
fn auth_error_messages() {
    assert_eq!(AuthError::SendFailed.message(), "Unable to send credentials to server.");
    assert_eq!(AuthError::NoResponse.message(), "Unable to read server response.");
    assert_eq!(AuthError::ReadFailed.message(), "Unable to read server response");
    assert_eq!(AuthError::Denied.message(), "Authentication denied, try again.");
    assert_eq!(AuthError::Unexpected.message(), "Unexpected server response.");
}

#[test]
fn command_actions() {
    let u = user();
    let act = |c: &str, a: Option<&str>| u.command_action(&(c.to_string(), a.map(|s| s.to_string())));
    assert_eq!(act("cd", None), ClientAction::Send);
    assert_eq!(act("cd", Some("x")), ClientAction::SendAndFetch);
    assert_eq!(act("dir", None), ClientAction::SendAndFetch);
    assert_eq!(act("mkdir", Some("x")), ClientAction::Send);
    assert_eq!(act("rmdir", Some("x")), ClientAction::Send);
    assert_eq!(act("echo.", Some("x")), ClientAction::Send);
    assert_eq!(act("del ", Some("x")), ClientAction::Send);
    assert_eq!(act("del", Some("x")), ClientAction::Ignore);
    assert_eq!(act("download", Some("x")), ClientAction::Ignore);
    assert_eq!(act("upload", Some("x")), ClientAction::Upload);
    assert_eq!(act("quit", None), ClientAction::Ignore);
}

#[test]
fn send_command_appends_trimmed_argument() {
    let u = user();
    assert_eq!(u.send_command(("cd".to_string(), Some("  docs \n".to_string()))), "cd docs\r\n");
    assert_eq!(u.send_command(("dir".to_string(), None)), "dir\r\n");
}

#[test]
fn fetch_output_decodes_utf8() {
    let u = user();
    assert_eq!(u.fetch_output("zażółć".as_bytes()), Some("zażółć".to_string()));
    assert_eq!(u.fetch_output(&[0x66, 0xff, 0x66]), None);
}

#[test]
fn typed_command_reaches_server() {
    let u = user();
    let packet = u.send_command(get_input("cd  my docs \n"));
    let r = capture_command(Some(packet.as_bytes()));
    assert_eq!((r.command.as_str(), r.argument.as_str()), ("cd", ""));
    let packet = u.send_command(("mkdir".to_string(), Some(" new dir ".to_string())));
    let r = capture_command(Some(packet.as_bytes()));
    assert_eq!((r.command.as_str(), r.argument.as_str()), ("mkdir", "new dir"));
    let packet = u.send_command(get_input("dir"));
    let r = capture_command(Some(packet.as_bytes()));
    assert_eq!((r.command.as_str(), r.argument.as_str()), ("dir", "0"));
}
