use ftp::server::sys_commands::{
    capture_command, cd, cd_result, check_listing, dir, dir_command, receive_action, CdOutcome,
    FileChunk, FileSender, ReceiveAction, RecvdCommand, BUF_LENGTH, COMMAND_SEPARATOR,
};

fn parts(r: &RecvdCommand) -> (&str, &str) {
    (r.command.as_str(), r.argument.as_str())
}

#[test]
fn constants() {
    assert_eq!(COMMAND_SEPARATOR, "&&");
    assert_eq!(BUF_LENGTH, 1400);
}

#[test]
fn recvd_command_new_keeps_parts() {
    let r = RecvdCommand::new("cd".to_string(), "x".to_string(), Some("out".to_string()));
    assert_eq!(r.command, "cd");
    assert_eq!(r.argument, "x");
    assert_eq!(r.output, Some("out".to_string()));
}

#[test]
fn capture_command_splits_at_first_space() {
    let r = capture_command(Some(b"cd docs\r\n"));
    assert_eq!(parts(&r), ("cd", "docs"));
    assert_eq!(r.output, None);
    assert_eq!(parts(&capture_command(Some(b"echo. a b.txt\r\n"))), ("echo.", "a b.txt"));
}

#[test]
fn capture_command_without_argument() {
    assert_eq!(parts(&capture_command(Some(b"dir\r\n"))), ("dir", "0"));
    assert_eq!(parts(&capture_command(Some(b""))), ("", "0"));
}

#[test]
fn capture_command_errors() {
    assert_eq!(parts(&capture_command(None)), ("0", "0"));
    assert_eq!(parts(&capture_command(Some(&[0x63, 0x64, 0xff, 0x0d, 0x0a]))), ("0", "0"));
}

#[test]
fn capture_command_unicode() {
    assert_eq!(parts(&capture_command(Some("ćd żółw\r\n".as_bytes()))), ("ćd", "żółw"));
}

#[test]
fn cd_without_argument_replies_cwd() {
    let root = "C:/".to_string();
    assert_eq!(cd(&root, "C:/a".to_string(), None), CdOutcome::Reply("C:/a".to_string()));
}

#[test]
fn cd_up() {
    let root = "C:/".to_string();
    assert_eq!(
        cd(&root, "C:/a/b".to_string(), Some("..".to_string())),
        CdOutcome::Done(Some("C:/a".to_string()))
    );
    assert_eq!(
        cd(&root, "C:/a".to_string(), Some("..".to_string())),
        CdOutcome::Done(Some("C:/".to_string()))
    );
    assert_eq!(
        cd(&root, "nowhere".to_string(), Some("..".to_string())),
        CdOutcome::Done(Some("C:/".to_string()))
    );
}

#[test]
fn cd_home_zero_and_shell() {
    let root = "C:/".to_string();
    assert_eq!(cd(&root, "C:/a".to_string(), Some("/.".to_string())), CdOutcome::Done(Some(root.clone())));
    assert_eq!(cd(&root, "C:/a".to_string(), Some("0".to_string())), CdOutcome::Done(None));
    assert_eq!(
        cd(&root, "C:/a".to_string(), Some("b c".to_string())),
        CdOutcome::Shell("cd C:/a\\b c&& cd".to_string())
    );
}

#[test]
fn cd_result_drops_line_break() {
    assert_eq!(cd_result(true, b"C:\\a\\b\r\n"), Some("C:\\a\\b".to_string()));
    assert_eq!(cd_result(true, b"x"), Some(String::new()));
    assert_eq!(cd_result(false, b"C:\\a\r\n"), None);
}

#[test]
fn cd_result_replaces_invalid_bytes() {
    assert_eq!(cd_result(true, &[0x61, 0xff, 0x62, 0x0d, 0x0a]), Some("a\u{FFFD}b".to_string()));
}

#[test]
fn dir_command_text() {
    assert_eq!(dir_command("C:/data"), "cd C:/data&&dir /b");
}

#[test]
fn dir_lists_names() {
    assert_eq!(
        dir(true, b"a.txt\r\nnotes\r\n"),
        Some(vec!["a.txt".to_string(), "notes".to_string()])
    );
    assert_eq!(dir(true, b""), Some(vec![]));
    assert_eq!(dir(true, b"no line break"), Some(vec![]));
    assert_eq!(dir(true, "zó\r\n\r\n".as_bytes()), Some(vec!["zó".to_string(), String::new()]));
}

#[test]
fn dir_failures() {
    assert_eq!(dir(false, b"a\r\n"), None);
    assert_eq!(dir(true, b"a\r\rb\r\n"), None);
    assert_eq!(dir(true, "a\r\u{e9}b\r\n".as_bytes()), None);
}

#[test]
fn listing_checks() {
    assert!(check_listing("a\r\nb\r\n"));
    assert!(check_listing("a\r\u{e9}"));
    assert!(!check_listing("a\r\r"));
    assert!(!check_listing("a\r\u{e9}\r\n"));
}

#[test]
fn file_sender_chunks_cover_file() {
    let mut s = FileSender::new(3000);
    assert_eq!(s.filesize(), 3000);
    assert_eq!(s.next_chunk(), Some(FileChunk { offset: 0, len: 1400 }));
    assert_eq!(s.bytes_left(), 1600);
    assert_eq!(s.progress(), 46);
    assert_eq!(s.next_chunk(), Some(FileChunk { offset: 1400, len: 1400 }));
    assert_eq!(s.progress(), 93);
    assert_eq!(s.next_chunk(), Some(FileChunk { offset: 2800, len: 200 }));
    assert_eq!(s.progress(), 100);
    assert_eq!(s.next_chunk(), None);
    assert_eq!(s.bytes_left(), 0);
}

#[test]
fn file_sender_exact_buffer() {
    let mut s = FileSender::new(1400);
    assert_eq!(s.next_chunk(), Some(FileChunk { offset: 0, len: 1400 }));
    assert_eq!(s.next_chunk(), None);
}

#[test]
fn file_sender_empty_file() {
    let mut s = FileSender::new(0);
    assert_eq!(s.next_chunk(), None);
}

#[test]
fn file_sender_large_progress() {
    let mut s = FileSender::new(u64::MAX);
    s.next_chunk();
    assert_eq!(s.progress(), 0);
}

#[test]
fn receive_actions() {
    assert_eq!(receive_action(Some(0)), ReceiveAction::Stop);
    assert_eq!(receive_action(Some(12)), ReceiveAction::Write(12));
    assert_eq!(receive_action(None), ReceiveAction::Stop);
}
