use quick_drop::config::{Config, FtpConfig};
use quick_drop::control::{FtpServerApp, MAX_PORT, MIN_PORT};
use quick_drop::listing::{list_line, time_text, Moment};
use quick_drop::protocol::{
    ends_session, listen_address, next_turn, parse_request, Request, Turn, GREETING,
    PASSIVE_ADDRESS,
};
use quick_drop::text::{push_aligned, push_decimal, trim, with_forward_slashes};

fn request(cmd: &str, arg: Option<&str>) -> Request {
    Request { cmd: cmd.to_string(), arg: arg.map(|a| a.to_string()) }
}

#[test]
fn greeting_and_addresses() {
    assert_eq!(GREETING, "220 Local FTP Server Ready\r\n");
    assert_eq!(PASSIVE_ADDRESS, "0.0.0.0:0");
    assert_eq!(listen_address(2121), "0.0.0.0:2121");
    assert_eq!(listen_address(0), "0.0.0.0:0");
}

#[test]
fn requests_are_trimmed_and_split() {
    assert_eq!(parse_request("USER bob\r\n"), Some(request("USER", Some("bob"))));
    assert_eq!(parse_request("  stor  my file.txt \r\n"), Some(request("STOR", Some("my file.txt"))));
    assert_eq!(parse_request("quit\n"), Some(request("QUIT", None)));
    assert_eq!(parse_request("LIST\t-la"), Some(request("LIST\t-LA", None)));
    assert_eq!(parse_request("\u{3000}noop\u{a0}"), Some(request("NOOP", None)));
    assert_eq!(parse_request("stra\u{df}e x"), Some(request("STRASSE", Some("x"))));
    assert_eq!(parse_request(" \r\n"), None);
}

#[test]
fn turns_of_a_connection() {
    assert_eq!(next_turn(0, ""), Turn::Closed);
    assert_eq!(next_turn(2, "\r\n"), Turn::Blank);
    assert_eq!(next_turn(6, "pwd \r\n"), Turn::Command(request("PWD", None)));
    assert_eq!(next_turn(9, "retr a B\n"), Turn::Command(request("RETR", Some("a B"))));
    assert!(ends_session("QUIT"));
    assert!(!ends_session("NOOP"));
}

#[test]
fn trimming() {
    assert_eq!(trim(" a b\t"), "a b");
    assert_eq!(trim(trim(" a b\t")), "a b");
    assert_eq!(trim("\u{85}\u{2003}"), "");
    assert_eq!(trim("\u{200b}x"), "\u{200b}x");
}

#[test]
fn white_space_is_that_of_unicode() {
    for c in '\0'..=char::MAX {
        assert_eq!(quick_drop::text::white_space(c), c.is_whitespace());
    }
}

#[test]
fn slashes() {
    assert_eq!(with_forward_slashes("a\\b/c\\"), "a/b/c/");
}

#[test]
fn numbers() {
    for n in [0, 9, 10, 255, 65535, u64::MAX] {
        let mut s = String::new();
        push_decimal(&mut s, n);
        assert_eq!(s, n.to_string());
        let mut t = "x".to_string();
        push_aligned(&mut t, n, 10);
        assert_eq!(t, format!("x{:>10}", n));
    }
}

#[test]
fn lines_of_a_listing() {
    assert_eq!(
        list_line(true, 4096, "Jan 01 00:00", "docs"),
        "drwxr-xr-x 1 owner group       4096 Jan 01 00:00 docs\r\n"
    );
    assert_eq!(
        list_line(false, 12345678901, "Feb 29 23:59", "a b.txt"),
        "-rwxr-xr-x 1 owner group 12345678901 Feb 29 23:59 a b.txt\r\n"
    );
}

#[test]
fn times_of_a_listing() {
    let shown = |unix_seconds, utc_offset| time_text(Some(Moment { unix_seconds, utc_offset }));
    assert_eq!(time_text(None), Some("Jan 01 00:00".to_string()));
    assert_eq!(shown(0, 0), Some("Jan 01 00:00".to_string()));
    assert_eq!(shown(0, -60), Some("Dec 31 23:59".to_string()));
    assert_eq!(shown(951782399, 0), Some("Feb 28 23:59".to_string()));
    assert_eq!(shown(951782400, 0), Some("Feb 29 00:00".to_string()));
    assert_eq!(shown(1700000000, 32400), Some("Nov 15 07:13".to_string()));
    assert_eq!(shown(0, 86400), None);
    assert_eq!(shown(i64::MAX, 0), None);
}

#[test]
fn times_reach_as_far_as_the_calendar() {
    let shown = |unix_seconds| time_text(Some(Moment { unix_seconds, utc_offset: 0 }));
    assert_eq!(shown(8210266876799), Some("Dec 31 23:59".to_string()));
    assert_eq!(shown(8210266876800), None);
    assert_eq!(shown(-8334601228800), Some("Jan 01 00:00".to_string()));
    assert_eq!(shown(-8334601228801), None);
}

#[test]
fn default_settings() {
    let c = Config::default();
    assert_eq!(c.port, 2121);
    assert_eq!(c.username, "admin");
    assert_eq!(c.password, "password");
    assert_eq!(c.root_dir, "./ftp_root");
    assert_eq!(Config::load(None), c);
}

#[test]
fn stored_settings_are_loaded() {
    let mut c = Config::default();
    c.port = 5000;
    assert_eq!(Config::load(Some(c.clone())), c);
}

#[test]
fn settings_for_a_client() {
    let c = Config::default().to_ftp_config();
    let expected = FtpConfig {
        port: 2121,
        username: "admin".to_string(),
        password: "password".to_string(),
        root_dir: "/srv/ftp".to_string(),
    };
    assert_eq!(c.for_client("/srv/ftp"), expected);
}

#[test]
fn start_and_stop() {
    let mut app: FtpServerApp<u32, &str> = FtpServerApp::new(Config::default());
    assert_eq!(app.stop_server(), None);
    assert!(app.logs.is_empty());
    assert_eq!(app.settings_to_start(), Some(Config::default().to_ftp_config()));
    assert_eq!(app.start_server(7, "lines"), None);
    assert!(app.server_running);
    assert_eq!(app.server_handle, Some(7));
    assert_eq!(app.log_receiver, Some("lines"));
    let rule = "=".repeat(40);
    let started: Vec<String> = vec![
        rule.clone(),
        "  QuickDrop を起動しています...".to_string(),
        rule.clone(),
        "ポート: 2121".to_string(),
        "ユーザー名: admin".to_string(),
        "ルートディレクトリ: ./ftp_root".to_string(),
        rule.clone(),
    ];
    assert_eq!(app.logs, started);
    assert_eq!(app.settings_to_start(), None);
    assert_eq!(app.start_server(8, "others"), Some((8, "others")));
    assert_eq!(app.server_handle, Some(7));
    assert_eq!(app.logs, started);
    app.log("hello".to_string());
    assert_eq!(app.stop_server(), Some(7));
    assert!(!app.server_running);
    assert_eq!(app.server_handle, None);
    assert_eq!(app.log_receiver, None);
    assert_eq!(app.logs.len(), 11);
    assert_eq!(app.logs[7], "hello");
    assert_eq!(app.logs[8], rule);
    assert_eq!(app.logs[9], "  QuickDrop を停止しました");
    assert_eq!(app.logs[10], rule);
}

#[test]
fn window_agrees_with_the_server() {
    let mut app: FtpServerApp<u32, u32> = FtpServerApp::new(Config::default());
    for step in [1, 0, 0, 1, 1, 2, 1, 0, 1] {
        let before = app.logs.clone();
        match step {
            0 => {
                app.stop_server();
            }
            1 => {
                app.start_server(1, 2);
            }
            _ => app.select_directory(Some("/srv".to_string())),
        }
        assert_eq!(app.server_running, app.server_handle.is_some());
        assert_eq!(app.server_running, app.log_receiver.is_some());
        assert_eq!(app.logs[..before.len()], before[..]);
    }
}

#[test]
fn picked_directory_becomes_the_root() {
    let mut app: FtpServerApp<(), ()> = FtpServerApp::new(Config::default());
    app.select_directory(None);
    assert_eq!(app.config.root_dir, "./ftp_root");
    app.select_directory(Some("/srv/ftp".to_string()));
    assert_eq!(app.config.root_dir, "/srv/ftp");
    assert_eq!((MIN_PORT, MAX_PORT), (1024, 65535));
}
