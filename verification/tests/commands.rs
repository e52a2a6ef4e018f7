use quick_drop::command::{Action, Purpose, ServerIp, Target, Verb};
use quick_drop::config::FtpConfig;
use quick_drop::handler::{directory_created, directory_removed, file_deleted, file_measured};
use quick_drop::journal::{Event, Work};
use quick_drop::protocol::{ends_session, next_turn, Turn, GREETING};
use quick_drop::session::{PathError, Session};

fn session() -> Session {
    let config = FtpConfig {
        port: 2121,
        username: "admin".to_string(),
        password: "secret".to_string(),
        root_dir: "/srv/ftp".to_string(),
    };
    Session::new(config, "/srv/ftp".to_string(), false)
}

fn logged_in() -> Session {
    let mut s = session();
    s.handle_command("USER", Some("admin"));
    s.handle_command("PASS", Some("secret"));
    assert!(s.authenticated);
    s
}

fn reply(text: &str) -> Action {
    Action::Reply(text.to_string())
}

#[test]
fn new_session_is_at_the_top() {
    let s = session();
    assert!(!s.authenticated);
    assert_eq!(s.username, None);
    assert_eq!(s.current_dir, "/");
    assert_eq!(s.root_dir, "/srv/ftp");
    assert!(!s.pasv_listener);
}

#[test]
fn login_with_the_right_password() {
    let mut s = session();
    assert_eq!(
        s.handle_command("USER", Some("admin")),
        reply("331 User admin OK. Password required\r\n")
    );
    assert_eq!(s.handle_command("PASS", Some("secret")), reply("230 User logged in\r\n"));
    assert!(s.authenticated);
    assert_eq!(s.username, Some("admin".to_string()));
}

#[test]
fn login_with_a_wrong_password_or_name() {
    let mut s = session();
    s.handle_command("USER", Some("admin"));
    assert_eq!(s.handle_command("PASS", Some("Secret")), reply("530 Login incorrect\r\n"));
    assert!(!s.authenticated);
    s.handle_command("USER", Some("root"));
    assert_eq!(s.handle_command("PASS", Some("secret")), reply("530 Login incorrect\r\n"));
    assert_eq!(s.handle_command("PASS", None), reply("530 Login incorrect\r\n"));
    assert!(!s.authenticated);
}

#[test]
fn password_before_name() {
    let mut s = session();
    assert_eq!(s.handle_command("PASS", Some("secret")), reply("503 Login with USER first\r\n"));
    assert!(!s.authenticated);
}

#[test]
fn user_without_a_name() {
    let mut s = session();
    assert_eq!(s.handle_command("USER", None), reply("331 User  OK. Password required\r\n"));
    assert_eq!(s.username, Some(String::new()));
}

#[test]
fn nothing_but_replies_before_login() {
    let refused = reply("530 Please login with USER and PASS\r\n");
    for cmd in [
        "PWD", "TYPE", "PASV", "LIST", "RETR", "STOR", "CWD", "CDUP", "MKD", "XMKD", "RMD", "XRMD",
        "DELE", "SIZE",
    ] {
        let mut s = session();
        assert_eq!(s.handle_command(cmd, Some("x")), refused);
        assert_eq!(s, session());
        assert!(Verb::parse(cmd).login_needed());
    }
}

#[test]
fn commands_that_need_no_login() {
    let mut s = session();
    assert_eq!(s.handle_command("SYST", None), reply("215 Windows_NT\r\n"));
    assert_eq!(s.handle_command("NOOP", None), reply("200 OK\r\n"));
    assert_eq!(s.handle_command("QUIT", None), reply("221 Goodbye\r\n"));
    assert_eq!(s.handle_command("FEAT", None), reply("502 Command not implemented\r\n"));
    assert_eq!(s.handle_command("user", Some("x")), reply("502 Command not implemented\r\n"));
    assert_eq!(s, session());
}

#[test]
fn pwd_and_type() {
    let mut s = logged_in();
    assert_eq!(s.handle_command("PWD", None), reply("257 \"/\" is current directory\r\n"));
    s.current_dir = "/a\\b".to_string();
    assert_eq!(s.handle_command("PWD", None), reply("257 \"/a/b\" is current directory\r\n"));
    assert_eq!(s.handle_command("TYPE", Some("A")), reply("200 Type set to I\r\n"));
}

#[test]
fn passive_mode_tells_address_and_port() {
    let mut s = logged_in();
    assert_eq!(s.handle_command("PASV", None), Action::OpenPassive);
    assert!(!s.pasv_listener);
    assert_eq!(
        s.passive_opened(ServerIp::V4(192, 168, 1, 10), 50021),
        "227 Entering Passive Mode (192,168,1,10,195,101)\r\n"
    );
    assert!(s.pasv_listener);
    assert_eq!(195 * 256 + 101, 50021);
    assert_eq!(
        s.passive_opened(ServerIp::V6, 255),
        "227 Entering Passive Mode (127,0,0,1,0,255)\r\n"
    );
}

#[test]
fn listing_needs_a_data_port_and_takes_it() {
    let mut s = logged_in();
    assert_eq!(s.handle_command("LIST", None), reply("425 Use PASV first\r\n"));
    s.passive_opened(ServerIp::V6, 1);
    assert_eq!(
        s.handle_command("LIST", None),
        Action::Resolve { purpose: Purpose::List, target: Target::Path("/".to_string()) }
    );
    assert!(!s.pasv_listener);
    assert_eq!(
        s.path_resolved(Purpose::List, Ok("/srv/ftp".to_string())),
        Action::SendListing {
            path: "/srv/ftp".to_string(),
            reply: "150 Opening data connection for directory list\r\n226 Transfer complete\r\n"
                .to_string(),
        }
    );
    assert_eq!(s.handle_command("LIST", None), reply("425 Use PASV first\r\n"));
}

#[test]
fn refused_listing_loses_the_data_port() {
    let mut s = logged_in();
    s.passive_opened(ServerIp::V6, 1);
    s.handle_command("LIST", Some("../.."));
    assert_eq!(
        s.path_resolved(Purpose::List, Err(PathError::OutsideRoot)),
        reply("550 Failed to access directory\r\n")
    );
    assert!(!s.pasv_listener);
}

#[test]
fn listing_ignores_options() {
    for (arg, target) in [
        (Some("-la"), Target::Path("/docs".to_string())),
        (Some(""), Target::Path("/docs".to_string())),
        (None, Target::Path("/docs".to_string())),
        (Some("/pub"), Target::Path("/pub".to_string())),
        (Some("pub"), Target::Joined { dir: "/docs".to_string(), path: "pub".to_string() }),
    ] {
        let mut s = logged_in();
        s.current_dir = "/docs".to_string();
        s.passive_opened(ServerIp::V6, 1);
        assert_eq!(
            s.handle_command("LIST", arg),
            Action::Resolve { purpose: Purpose::List, target }
        );
    }
}

#[test]
fn retrieve_and_store() {
    let mut s = logged_in();
    let name = "a.txt".to_string();
    assert_eq!(
        s.handle_command("RETR", Some("a.txt")),
        Action::Resolve {
            purpose: Purpose::Retrieve(name.clone()),
            target: Target::Joined { dir: "/".to_string(), path: name.clone() },
        }
    );
    let path = "/srv/ftp/a.txt".to_string();
    assert_eq!(
        s.path_resolved(Purpose::Retrieve(name.clone()), Ok(path.clone())),
        reply("425 Use PASV first\r\n")
    );
    s.passive_opened(ServerIp::V6, 1);
    assert_eq!(
        s.path_resolved(Purpose::Retrieve(name.clone()), Err(PathError::ParentMissing)),
        reply("550 File not accessible\r\n")
    );
    assert!(s.pasv_listener);
    let sent = "150 Opening data connection for a.txt\r\n226 Transfer complete\r\n".to_string();
    assert_eq!(
        s.path_resolved(Purpose::Retrieve(name.clone()), Ok(path.clone())),
        Action::SendFile { path: path.clone(), name: name.clone(), reply: sent.clone() }
    );
    assert!(!s.pasv_listener);
    s.passive_opened(ServerIp::V6, 1);
    assert_eq!(
        s.handle_command("STOR", Some("/a.txt")),
        Action::Resolve {
            purpose: Purpose::Store("/a.txt".to_string()),
            target: Target::Path("/a.txt".to_string()),
        }
    );
    assert_eq!(
        s.path_resolved(Purpose::Store(name.clone()), Err(PathError::Unresolved)),
        reply("550 File not accessible\r\n")
    );
    assert_eq!(
        s.path_resolved(Purpose::Store(name.clone()), Ok(path.clone())),
        Action::ReceiveFile { path, name: name.clone(), reply: sent }
    );
    assert_eq!(
        s.path_resolved(Purpose::Store(name), Ok("/srv/ftp/a.txt".to_string())),
        reply("425 Use PASV first\r\n")
    );
}

#[test]
fn change_directory() {
    let mut s = logged_in();
    assert_eq!(
        s.handle_command("CWD", None),
        Action::Resolve { purpose: Purpose::ChangeDir, target: Target::Path("/".to_string()) }
    );
    let path = "/srv/ftp/docs".to_string();
    assert_eq!(
        s.path_resolved(Purpose::ChangeDir, Ok(path.clone())),
        Action::CheckDir { path: path.clone() }
    );
    assert_eq!(
        s.path_resolved(Purpose::ChangeDir, Err(PathError::OutsideRoot)),
        reply("550 Directory not found\r\n")
    );
    assert_eq!(s.try_change_dir(&path, false), Some("550 Not a directory\r\n".to_string()));
    assert_eq!(s.current_dir, "/");
    assert_eq!(
        s.try_change_dir(&path, true),
        Some("250 Directory changed to /docs\r\n".to_string())
    );
    assert_eq!(s.current_dir, "/docs");
    assert_eq!(
        s.try_change_dir("/SRV/ftp", true),
        Some("250 Directory changed to /\r\n".to_string())
    );
    assert_eq!(s.current_dir, "/");
}

#[test]
fn change_directory_on_windows() {
    let mut s = logged_in();
    s.windows = true;
    s.root_dir = "D:\\share".to_string();
    assert_eq!(
        s.change_dir("d:\\Share\\docs\\new", true),
        "250 Directory changed to /docs/new\r\n"
    );
    assert_eq!(s.current_dir, "/docs/new");
    s.root_dir = "D:\\".to_string();
    assert_eq!(s.change_dir("D:\\docs", true), "250 Directory changed to /docs\r\n");
}

#[test]
fn directory_that_cannot_be_cut() {
    let mut s = logged_in();
    s.root_dir = "/srv/ab".to_string();
    assert_eq!(s.try_change_dir("/srv/a\u{e9}", true), None);
    assert_eq!(s.try_change_dir("/s", true), None);
    assert_eq!(s.current_dir, "/");
}

#[test]
fn going_up() {
    let mut s = logged_in();
    assert_eq!(s.handle_command("CDUP", None), reply("250 Directory changed to /\r\n"));
    s.current_dir = "/docs/new".to_string();
    assert_eq!(s.handle_command("CDUP", None), reply("250 Directory changed to /docs\r\n"));
    assert_eq!(s.current_dir, "/docs");
    assert_eq!(s.handle_command("CDUP", None), reply("250 Directory changed to /\r\n"));
    assert_eq!(s.current_dir, "/");
    s.current_dir = "/12:30".to_string();
    assert_eq!(s.handle_command("CDUP", None), reply("250 Directory changed to /\r\n"));
    s.current_dir = "/docs/12:30/".to_string();
    assert_eq!(s.handle_command("CDUP", None), reply("250 Directory changed to /docs\r\n"));
    s.current_dir = "/".to_string();
    assert_eq!(s.obey("CDUP", None, Some("")), reply("250 Directory changed to /\r\n"));
    assert_eq!(s.obey("CDUP", None, Some("\\a")), reply("250 Directory changed to /a\r\n"));
    assert_eq!(s.current_dir, "\\a");
}

#[test]
fn make_directory() {
    let mut s = logged_in();
    for cmd in ["MKD", "XMKD"] {
        assert_eq!(s.handle_command(cmd, None), reply("501 Missing directory name\r\n"));
        assert_eq!(s.handle_command(cmd, Some("")), reply("501 Missing directory name\r\n"));
        assert_eq!(
            s.handle_command(cmd, Some("new")),
            Action::Resolve {
                purpose: Purpose::MakeDir("new".to_string()),
                target: Target::Joined { dir: "/".to_string(), path: "new".to_string() },
            }
        );
    }
    let purpose = Purpose::MakeDir("new".to_string());
    assert_eq!(
        s.path_resolved(purpose, Ok("/srv/ftp/new".to_string())),
        Action::CreateDir { path: "/srv/ftp/new".to_string(), name: "new".to_string() }
    );
    assert_eq!(
        s.path_resolved(Purpose::MakeDir("new".to_string()), Err(PathError::ParentMissing)),
        reply("550 Failed to create directory\r\n")
    );
    assert_eq!(directory_created("new", Ok(())), "257 \"new\" directory created\r\n");
    assert_eq!(
        directory_created("new", Err("File exists".to_string())),
        "550 Failed to create directory: File exists\r\n"
    );
}

#[test]
fn remove_directory() {
    let mut s = logged_in();
    for cmd in ["RMD", "XRMD"] {
        assert_eq!(s.handle_command(cmd, None), reply("501 Missing directory name\r\n"));
        assert_eq!(
            s.handle_command(cmd, Some("/old")),
            Action::Resolve {
                purpose: Purpose::RemoveDir("/old".to_string()),
                target: Target::Path("/old".to_string()),
            }
        );
    }
    assert_eq!(
        s.path_resolved(Purpose::RemoveDir("/old".to_string()), Ok("/srv/ftp/old".to_string())),
        Action::RemoveDir { path: "/srv/ftp/old".to_string(), name: "/old".to_string() }
    );
    assert_eq!(
        s.path_resolved(Purpose::RemoveDir("/old".to_string()), Err(PathError::Unresolved)),
        reply("550 Failed to remove directory\r\n")
    );
    assert_eq!(directory_removed(Ok(())), "250 Directory removed\r\n");
    assert_eq!(
        directory_removed(Err("not empty".to_string())),
        "550 Failed to remove directory: not empty\r\n"
    );
}

#[test]
fn delete_file() {
    let mut s = logged_in();
    assert_eq!(s.handle_command("DELE", None), reply("501 Missing file name\r\n"));
    assert_eq!(
        s.handle_command("DELE", Some("a")),
        Action::Resolve {
            purpose: Purpose::Delete("a".to_string()),
            target: Target::Joined { dir: "/".to_string(), path: "a".to_string() },
        }
    );
    assert_eq!(
        s.path_resolved(Purpose::Delete("a".to_string()), Ok("/srv/ftp/a".to_string())),
        Action::DeleteFile { path: "/srv/ftp/a".to_string(), name: "a".to_string() }
    );
    assert_eq!(
        s.path_resolved(Purpose::Delete("a".to_string()), Err(PathError::OutsideRoot)),
        reply("550 File not accessible\r\n")
    );
    assert_eq!(file_deleted(Ok(())), "250 File deleted\r\n");
    assert_eq!(file_deleted(Err("no".to_string())), "550 Failed to delete file: no\r\n");
}

#[test]
fn size_of_file() {
    let mut s = logged_in();
    assert_eq!(s.handle_command("SIZE", Some("")), reply("501 Missing file name\r\n"));
    assert_eq!(
        s.handle_command("SIZE", Some("a")),
        Action::Resolve {
            purpose: Purpose::Size,
            target: Target::Joined { dir: "/".to_string(), path: "a".to_string() },
        }
    );
    assert_eq!(
        s.path_resolved(Purpose::Size, Ok("/srv/ftp/a".to_string())),
        Action::MeasureFile { path: "/srv/ftp/a".to_string() }
    );
    assert_eq!(
        s.path_resolved(Purpose::Size, Err(PathError::ParentMissing)),
        reply("550 File not found\r\n")
    );
    assert_eq!(file_measured(Some(0)), "213 0\r\n");
    assert_eq!(file_measured(Some(18446744073709551615)), "213 18446744073709551615\r\n");
    assert_eq!(file_measured(None), "550 File not found\r\n");
}

#[test]
fn settings_stay_whatever_is_sent() {
    let mut s = logged_in();
    let before = logged_in();
    for cmd in ["PWD", "CDUP", "RETR", "SIZE", "USER", "PASS", "CWD", "QUIT", "LIST"] {
        s.handle_command(cmd, Some("x"));
        assert_eq!(s.config, before.config);
        assert_eq!(s.root_dir, before.root_dir);
        assert!(s.authenticated);
        assert!(s.current_dir.starts_with('/'));
    }
}

#[test]
fn every_answer_has_the_form_of_a_reply() {
    for cmd in ["USER", "PASS", "SYST", "PWD", "TYPE", "CDUP", "QUIT", "NOOP", "FEAT", "LIST"] {
        for mut s in [session(), logged_in()] {
            match s.handle_command(cmd, Some("x")) {
                Action::Reply(r) => {
                    assert!(r.as_bytes()[..3].iter().all(|b| b.is_ascii_digit()));
                    assert_eq!(r.as_bytes()[3], b' ');
                    assert!(r.ends_with("\r\n"));
                }
                other => panic!("{:?}", other),
            }
        }
    }
}

/// What a client is sent that sends `lines` and neither lists nor moves files.
fn conversation(s: &mut Session, lines: &[&str]) -> String {
    let mut sent = GREETING.to_string();
    for line in lines {
        match next_turn(line.len(), line) {
            Turn::Closed => break,
            Turn::Blank => continue,
            Turn::Command(request) => {
                match s.handle_command(&request.cmd, request.arg.as_deref()) {
                    Action::Reply(reply) => sent.push_str(&reply),
                    Action::OpenPassive => sent.push_str(&s.passive_opened(ServerIp::V6, 258)),
                    other => panic!("{:?}", other),
                }
                if ends_session(&request.cmd) {
                    break;
                }
            }
        }
    }
    sent
}

#[test]
fn conversation_until_the_client_quits() {
    let mut s = session();
    let sent = conversation(
        &mut s,
        &[
            "user admin\r\n",
            "\r\n",
            "PWD\r\n",
            "pass secret\r\n",
            "PWD\r\n",
            "PASV\r\n",
            "quit\r\n",
            "NOOP\r\n",
        ],
    );
    assert_eq!(
        sent,
        "220 Local FTP Server Ready\r\n\
         331 User admin OK. Password required\r\n\
         530 Please login with USER and PASS\r\n\
         230 User logged in\r\n\
         257 \"/\" is current directory\r\n\
         227 Entering Passive Mode (127,0,0,1,1,2)\r\n\
         221 Goodbye\r\n"
    );
    assert!(s.authenticated);
}

#[test]
fn conversation_until_the_client_is_gone() {
    let mut s = session();
    let sent = conversation(&mut s, &["NOOP\r\n", " \r\n", "", "NOOP\r\n"]);
    assert_eq!(sent, "220 Local FTP Server Ready\r\n200 OK\r\n");
}

#[test]
fn logins_are_told() {
    let mut s = session();
    assert_eq!(s.login_event("PASS", Some("secret")), None);
    s.handle_command("USER", Some("admin"));
    assert_eq!(s.login_event("USER", Some("admin")), None);
    assert_eq!(s.login_event("PASS", Some("secret")), Some(Event::LoggedIn("admin".to_string())));
    assert_eq!(s.login_event("PASS", None), Some(Event::LoginFailed("admin".to_string())));
    s.handle_command("USER", Some("bob"));
    assert_eq!(s.login_event("PASS", Some("secret")), Some(Event::LoginFailed("bob".to_string())));
}

#[test]
fn lines_of_the_log() {
    let text = |t: &str| t.to_string();
    let peer = "10.0.0.2:4000";
    for (event, line) in [
        (Event::Connected, "[10.0.0.2:4000] 新しい接続"),
        (Event::Closed, "[10.0.0.2:4000] 接続が閉じられました"),
        (Event::Received(text("NOOP")), "[10.0.0.2:4000] コマンド: NOOP"),
        (Event::Ended, "[10.0.0.2:4000] セッション終了"),
        (Event::LoggedIn(text("admin")), "[10.0.0.2:4000] 認証成功: admin"),
        (Event::LoginFailed(text("bob")), "[10.0.0.2:4000] 認証失敗: bob"),
        (Work::MakeDir.outcome("a", &Ok(())), "[10.0.0.2:4000] ディレクトリ作成: a"),
        (
            Work::MakeDir.outcome("a", &Err(text("no"))),
            "[10.0.0.2:4000] ディレクトリ作成失敗: a - no",
        ),
        (Work::RemoveDir.outcome("a", &Ok(())), "[10.0.0.2:4000] ディレクトリ削除: a"),
        (
            Work::RemoveDir.outcome("a", &Err(text("no"))),
            "[10.0.0.2:4000] ディレクトリ削除失敗: a - no",
        ),
        (Work::DeleteFile.outcome("a", &Ok(())), "[10.0.0.2:4000] ファイル削除: a"),
        (
            Work::DeleteFile.outcome("a", &Err(text("no"))),
            "[10.0.0.2:4000] ファイル削除失敗: a - no",
        ),
        (Event::ListingSent, "LIST コマンド完了"),
        (Event::FileSent(text("a")), "ダウンロード完了: a"),
        (Event::FileStored(text("a")), "アップロード完了: a"),
        (Event::RootCreated(text("/r")), "ルートディレクトリを作成しました: /r"),
        (Event::RootFound(text("/r")), "正規化されたルートディレクトリ: /r"),
        (Event::Listening(text("0.0.0.0:2121")), "FTPサーバを起動しました: 0.0.0.0:2121"),
        (Event::ClientError(text("no")), "クライアント処理エラー: no"),
        (Event::AcceptError(text("no")), "接続受け入れエラー: no"),
    ] {
        assert_eq!(event.line(peer), line);
    }
}
