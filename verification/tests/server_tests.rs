use ftp::server::sys_commands::RecvdCommand;
use ftp::server::user::{auth_usr, authenticate};
use ftp::server::{FtpServer, ServerAction};

fn command(c: &str, a: &str) -> RecvdCommand {
    RecvdCommand::new(c.to_string(), a.to_string(), None)
}

#[test]
fn new_server_state() {
    let s = FtpServer::new();
    assert_eq!(s.cwd(), "");
    assert_eq!(s.root_dir(), "C:/");
}

#[test]
fn setters_update_state() {
    let mut s = FtpServer::new();
    s.set_root_dir("D:/share".to_string());
    s.set_cwd("D:/share/docs".to_string());
    s.set_credentials("D:/users.txt".to_string());
    assert_eq!(s.root_dir(), "D:/share");
    assert_eq!(s.cwd(), "D:/share/docs");
}

#[test]
fn download_names_file_in_cwd() {
    let mut s = FtpServer::new();
    s.set_cwd("C:/data".to_string());
    let a = s.handle_command(&command("download", "report.txt"));
    assert_eq!(a, ServerAction::Download("C:/data/report.txt".to_string()));
    assert_eq!(s.cwd(), "C:/data");
}

#[test]
fn upload_targets_cwd() {
    let mut s = FtpServer::new();
    s.set_cwd("C:/data".to_string());
    assert_eq!(s.handle_command(&command("upload", "x")), ServerAction::Upload("C:/data".to_string()));
}

#[test]
fn cd_up_moves_to_parent() {
    let mut s = FtpServer::new();
    s.set_cwd("C:/data/old".to_string());
    assert_eq!(s.handle_command(&command("cd", "..")), ServerAction::Nothing);
    assert_eq!(s.cwd(), "C:/data");
}

#[test]
fn cd_up_stops_at_root() {
    let mut s = FtpServer::new();
    s.set_cwd("C:/data".to_string());
    s.handle_command(&command("cd", ".."));
    assert_eq!(s.cwd(), "C:/");
    s.handle_command(&command("cd", ".."));
    assert_eq!(s.cwd(), "C:/");
}

#[test]
fn cd_home_and_zero() {
    let mut s = FtpServer::new();
    s.set_cwd("C:/data/x".to_string());
    s.handle_command(&command("cd", "0"));
    assert_eq!(s.cwd(), "C:/data/x");
    s.handle_command(&command("cd", "/."));
    assert_eq!(s.cwd(), "C:/");
}

#[test]
fn cd_into_directory_goes_through_shell() {
    let mut s = FtpServer::new();
    s.set_cwd("C:/data".to_string());
    let a = s.handle_command(&command("cd", "docs"));
    assert_eq!(a, ServerAction::RunShell("cd C:/data\\docs&& cd".to_string()));
    s.finish_cd(true, b"C:\\data\\docs\r\n");
    assert_eq!(s.cwd(), "C:\\data\\docs");
    s.finish_cd(false, b"error\r\n");
    assert_eq!(s.cwd(), "C:\\data\\docs");
}

#[test]
fn other_commands_do_nothing() {
    let mut s = FtpServer::new();
    assert_eq!(s.handle_command(&command("dir", "0")), ServerAction::Nothing);
    assert_eq!(s.handle_command(&command("mkdir", "x")), ServerAction::Nothing);
    assert_eq!(s.cwd(), "");
}

#[test]
fn command_results() {
    assert_eq!(FtpServer::send_cmd_result(String::new()), "Done");
    assert_eq!(FtpServer::send_cmd_result("ok".to_string()), "ok");
}

fn entries() -> Vec<String> {
    vec!["bobhunter2".to_string(), "alicesecret".to_string()]
}

#[test]
fn authenticate_registered_only() {
    assert_eq!(authenticate("alice", "secret", &entries()), Ok(()));
    assert_eq!(authenticate("bob", "hunter2", &entries()), Ok(()));
    assert_eq!(authenticate("alice", "hunter2", &entries()), Err(()));
    assert_eq!(authenticate("alice", "secret", &vec![]), Err(()));
}

#[test]
fn auth_usr_reads_login_and_password() {
    assert_eq!(auth_usr(Some(b"alice"), Some(b"secret"), &entries()), Ok(()));
    assert_eq!(auth_usr(Some(b"alice"), Some(b"wrong"), &entries()), Err(()));
    assert_eq!(auth_usr(None, Some(b"secret"), &entries()), Err(()));
    assert_eq!(auth_usr(Some(b"alice"), Some(b""), &entries()), Err(()));
    assert_eq!(auth_usr(Some(&[0x61, 0xff]), Some(b"secret"), &entries()), Err(()));
}

#[test]
fn server_accepts_every_client() {
    let mut s = FtpServer::new();
    assert_eq!(s.auth_usr(), Ok(()));
    s.set_credentials("C:/users.txt".to_string());
    assert_eq!(s.credentials(), "C:/users.txt");
    assert_eq!(s.auth_usr(), Ok(()));
}
