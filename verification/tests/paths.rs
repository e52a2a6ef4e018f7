use quick_drop::command::Target;
use quick_drop::config::FtpConfig;
use quick_drop::path::{
    answers_agree, is_within, normalize_path, plain_name, to_virtual_dir,
};
use quick_drop::session::{PathError, Search, Session, Sight};

fn session(root: &str, windows: bool) -> Session {
    let config = FtpConfig {
        port: 2121,
        username: "admin".to_string(),
        password: "secret".to_string(),
        root_dir: root.to_string(),
    };
    Session::new(config, root.to_string(), windows)
}

#[test]
fn verbatim_prefix_is_removed_on_windows_only() {
    assert_eq!(normalize_path("\\\\?\\D:\\share", true), "D:\\share");
    assert_eq!(normalize_path("\\\\?\\D:\\share", false), "\\\\?\\D:\\share");
    assert_eq!(normalize_path("D:\\share", true), "D:\\share");
    assert_eq!(normalize_path("\\\\?", true), "\\\\?");
    assert_eq!(normalize_path("\\\\?\\", true), "");
    assert_eq!(normalize_path("/srv/ftp", false), "/srv/ftp");
}

#[test]
fn within_the_root() {
    assert!(is_within("/srv/ftp", "/srv/ftp", false));
    assert!(is_within("/srv/ftp", "/srv/ftp/a/b", false));
    assert!(is_within("/", "/etc", false));
    assert!(is_within("D:\\", "D:\\docs", true));
    assert!(is_within("D:\\share", "D:\\share\\docs", true));
    assert!(!is_within("/srv/ftp", "/srv", false));
    assert!(!is_within("/srv/ftp", "/etc/passwd", false));
}

#[test]
fn letter_case_does_not_matter_within_the_root() {
    assert!(is_within("D:\\Share", "d:\\share\\x", true));
    assert!(is_within("D:\\\u{c4}", "d:\\\u{e4}\\x", true));
    assert!(!is_within("/srv/ftp", "/srv/FTP", false));
    assert!(!is_within("/srv/ftp", "/SRV/ftp/x", false));
}

#[test]
fn names_that_lead_up_are_outside() {
    for path in ["/srv/ftp/..", "/srv/ftp/../x", "/srv/ftp/a/../b", "/srv/ftp/a/.."] {
        assert!(!is_within("/srv/ftp", path, false));
        assert!(!is_within("/srv/ftp", path, true));
    }
    assert!(!is_within("D:\\share", "D:\\share\\a\\..\\..\\..\\x", true));
    assert!(is_within("/srv/ftp", "/srv/ftp/a\\..\\b", false));
    assert!(is_within("/srv/ftp", "/srv/ftp/..a/b../...", false));
    assert!(is_within("/srv/../ftp", "/srv/../ftp", false));
    let s = session("/srv/ftp", false);
    assert_eq!(s.confine("/srv/ftp/../x"), Err(PathError::OutsideRoot));
    assert_eq!(s.confine("/srv/ftp/x"), Ok("/srv/ftp/x".to_string()));
}

#[test]
fn plain_names() {
    assert!(plain_name("a", false));
    assert!(plain_name("...", false));
    assert!(plain_name("a\\b", false));
    assert!(!plain_name("a\\b", true));
    assert!(!plain_name("a/b", false));
    assert!(!plain_name(".", false));
    assert!(!plain_name("..", true));
    assert!(!plain_name("", false));
}

#[test]
fn answers_of_the_platform_agree() {
    let agree = |path, parent, name, windows| answers_agree(path, parent, name, windows);
    assert!(agree("D:\\share\\new", Some("D:\\share"), Some("new"), true));
    assert!(agree("D:\\share\\new\\", Some("D:\\share"), Some("new"), true));
    assert!(agree("D:\\share\\..", Some("D:\\share"), None, true));
    assert!(agree("D:\\", None, None, true));
    assert!(!agree("D:\\share\\new", Some(""), Some("D:\\share\\new"), true));
    assert!(!agree("D:\\share\\new", Some("D:\\"), Some("new"), true));
    assert!(!agree("D:\\share\\new", Some("D:\\share"), None, true));
    assert!(!agree("D:\\share\\new", None, None, true));
    assert!(!agree("/srv/a/b", Some("/srv"), Some("b"), false));
    assert!(!agree("/srv/a/b", Some("/srv/a"), Some("c"), false));
    assert!(agree("a\\b", Some(""), Some("a\\b"), false));
    assert!(!agree("a\\b", Some("a"), Some("b"), false));
    assert!(agree("\\\\host\\share\\x", Some("\\\\host\\share\\"), Some("x"), true));
}

#[test]
fn name_that_only_begins_like_the_root_is_outside() {
    assert!(!is_within("/srv/ftp", "/srv/ftp2", false));
    assert!(!is_within("/srv/ftp", "/srv/ftp-old/a", false));
    assert!(!is_within("/srv/ftp", "/srv/ftp\\a", false));
    assert!(is_within("/srv/ftp", "/srv/ftp\\a", true));
}

#[test]
fn virtual_directories() {
    assert_eq!(to_virtual_dir("/srv/ftp", "/srv/ftp"), Some("/".to_string()));
    assert_eq!(to_virtual_dir("/srv/ftp", "/SRV/FTP"), Some("/".to_string()));
    assert_eq!(to_virtual_dir("/srv/ftp", "/srv/ftp/a/b"), Some("/a/b".to_string()));
    assert_eq!(to_virtual_dir("/", "/a"), Some("/a".to_string()));
    assert_eq!(to_virtual_dir("D:\\share", "D:\\share\\a\\b"), Some("/a/b".to_string()));
    assert_eq!(to_virtual_dir("/srv/ab", "/srv/a\u{e9}"), None);
    assert_eq!(to_virtual_dir("/srv/ab", "/s"), None);
}

#[test]
fn entered_directory_is_found_again() {
    let s = session("/srv/ftp", false);
    let dir = to_virtual_dir(&s.root_dir, "/srv/ftp/a/b").unwrap();
    assert_eq!(s.get_real_path(&dir), Search::Look { path: "/srv/ftp/a/b".to_string() });
}

#[test]
fn entered_directory_below_a_drive() {
    let s = session("D:\\", true);
    let dir = to_virtual_dir(&s.root_dir, "D:\\docs\\new").unwrap();
    assert_eq!(dir, "/docs/new");
    match s.get_real_path(&dir) {
        Search::Look { path } => assert_eq!(path, "D:\\docs/new"),
        other => panic!("{:?}", other),
    }
    let s = session("D:\\share", true);
    assert_eq!(
        s.get_real_path("/docs\\new"),
        Search::Look { path: "D:\\share\\docs\\new".to_string() }
    );
    assert_eq!(s.get_real_path("/\\x"), Search::Look { path: "D:\\x".to_string() });
    assert_eq!(s.get_real_path("/C:\\x"), Search::Look { path: "C:\\x".to_string() });
    let s = session("\\\\host\\share", true);
    match s.get_real_path("/docs") {
        Search::Look { path } => {
            assert!(path.starts_with("\\\\host\\share"));
            assert!(path.ends_with("docs"));
            assert_eq!(path.len(), 17);
        }
        other => panic!("{:?}", other),
    }
}

#[test]
fn search_for_a_new_file_ends_in_its_directory() {
    let s = session("/srv/ftp", false);
    let path = match s.get_real_path("/docs/12:30.txt") {
        Search::Look { path } => path,
        other => panic!("{:?}", other),
    };
    let (parent, name) = match s.path_seen(&path, Sight::Missing) {
        Search::LookAbove { parent, name } => (parent, name),
        other => panic!("{:?}", other),
    };
    assert_eq!(parent, "/srv/ftp/docs");
    assert_eq!(
        s.parent_seen(name.as_deref(), Sight::Present(Some("/srv/ftp/docs".to_string()))),
        Ok("/srv/ftp/docs/12:30.txt".to_string())
    );
}

#[test]
fn virtual_path_of_a_target() {
    let target = Target::Joined { dir: "/docs".to_string(), path: "a.txt".to_string() };
    assert_eq!(target.virtual_path(false), "/docs/a.txt");
    let target = Target::Joined { dir: "/".to_string(), path: "a.txt".to_string() };
    assert_eq!(target.virtual_path(false), "/a.txt");
    let target = Target::Joined { dir: "/docs".to_string(), path: "12:30.txt".to_string() };
    assert_eq!(target.virtual_path(false), "/docs/12:30.txt");
    assert_eq!(Target::Path("/x".to_string()).virtual_path(false), "/x");
}

#[test]
fn virtual_path_on_either_platform() {
    for (dir, path, joined) in [
        ("/", "a", "/a"),
        ("/docs/", "a", "/docs/a"),
        ("", "a", "a"),
        ("/docs", "/a", "/a"),
    ] {
        let target = Target::Joined { dir: dir.to_string(), path: path.to_string() };
        assert_eq!(target.virtual_path(false), joined);
        assert_eq!(target.virtual_path(true), joined);
    }
    let target = Target::Joined { dir: "/docs".to_string(), path: "a".to_string() };
    assert_eq!(target.virtual_path(false), "/docs/a");
    assert_eq!(target.virtual_path(true), "/docs\\a");
    let target = Target::Joined { dir: "/docs".to_string(), path: "".to_string() };
    assert_eq!(target.virtual_path(false), "/docs/");
    let target = Target::Joined { dir: "/docs".to_string(), path: "C:\\a".to_string() };
    assert_eq!(target.virtual_path(false), "/docs/C:\\a");
}

#[test]
fn lower_case_goes_by_the_names() {
    let root = "/srv/\u{39f}\u{3a3}";
    let below = "/srv/\u{39f}\u{3a3}/\u{391}\u{3a3}";
    assert!(is_within(root, below, false));
    assert_eq!(to_virtual_dir(root, below), Some("/\u{391}\u{3a3}".to_string()));
    assert!(!is_within(root, "/srv/\u{39f}\u{3a3}\u{391}", false));
    assert!(is_within(root, below, true));
    assert_eq!(to_virtual_dir("/", "/\u{130}"), Some("/\u{130}".to_string()));
    for before in ["", "\u{39f}\u{3a3}", "x\u{3a3}\u{301}", "\u{130}", "a:\u{3a3}."] {
        for after in ["", "\u{391}\u{3a3}", "\u{3a3}", "\u{301}x"] {
            for slash in ["/", "\\"] {
                let whole = format!("{}{}{}", before, slash, after);
                let parts =
                    format!("{}{}{}", before.to_lowercase(), slash, after.to_lowercase());
                assert_eq!(whole.to_lowercase(), parts);
            }
        }
    }
}

#[test]
fn slash_is_the_root() {
    let s = session("/srv/ftp", false);
    assert_eq!(s.get_real_path("/"), Search::Done(Ok("/srv/ftp".to_string())));
    assert_eq!(s.get_real_path(""), Search::Done(Ok("/srv/ftp".to_string())));
}

#[test]
fn paths_are_looked_for_below_the_root() {
    let s = session("/srv/ftp", false);
    assert_eq!(s.get_real_path("/a"), Search::Look { path: "/srv/ftp/a".to_string() });
    assert_eq!(s.get_real_path("a/.."), Search::Look { path: "/srv/ftp/a/..".to_string() });
    assert_eq!(s.get_real_path("//etc"), Search::Look { path: "/etc".to_string() });
}

#[test]
fn slash_in_front_is_optional() {
    let s = session("/srv/ftp", false);
    for path in ["a", "a/b", "12:30.txt", "..", ""] {
        assert_eq!(s.get_real_path(&format!("/{}", path)), s.get_real_path(path));
    }
}

#[test]
fn existing_path_is_found_in_the_root_only() {
    let s = session("/srv/ftp", false);
    let found = s.path_seen("/srv/ftp/x", Sight::Present(Some("/srv/ftp/a".to_string())));
    assert_eq!(found, Search::Done(Ok("/srv/ftp/a".to_string())));
    let found = s.path_seen("/srv/ftp/..", Sight::Present(Some("/srv".to_string())));
    assert_eq!(found, Search::Done(Err(PathError::OutsideRoot)));
    let found = s.path_seen("/srv/ftp/x", Sight::Present(None));
    assert_eq!(found, Search::Done(Err(PathError::Unresolved)));
}

#[test]
fn canonical_paths_of_windows_are_normalized() {
    let s = session("D:\\share", true);
    let canonical = "\\\\?\\D:\\Share\\docs".to_string();
    assert_eq!(
        s.path_seen("D:\\share\\docs", Sight::Present(Some(canonical))),
        Search::Done(Ok("D:\\Share\\docs".to_string()))
    );
}

#[test]
fn missing_path_is_looked_for_in_its_parent() {
    let s = session("/srv/ftp", false);
    assert_eq!(
        s.path_seen("/srv/ftp/a/new.txt", Sight::Missing),
        Search::LookAbove {
            parent: "/srv/ftp/a".to_string(),
            name: Some("new.txt".to_string()),
        }
    );
    assert_eq!(
        s.path_seen("/srv/ftp/a/..", Sight::Missing),
        Search::LookAbove { parent: "/srv/ftp/a".to_string(), name: None }
    );
    assert_eq!(
        s.path_seen("/", Sight::Missing),
        Search::Done(Err(PathError::OutsideRoot))
    );
}

#[test]
fn missing_path_with_and_without_a_parent() {
    let s = session("/srv/ftp", false);
    assert_eq!(
        s.path_missing("x", Some("/p".to_string()), Some("n".to_string())),
        Search::Done(Err(PathError::Undivided))
    );
    let above = s.path_missing("/p/n", Some("/p".to_string()), Some("n".to_string()));
    assert_eq!(
        above,
        Search::LookAbove { parent: "/p".to_string(), name: Some("n".to_string()) }
    );
    assert_eq!(
        s.path_missing("/srv/ftp/a", None, None),
        Search::Done(Err(PathError::Undivided))
    );
    assert_eq!(
        s.path_missing("/", None, None),
        Search::Done(Err(PathError::OutsideRoot))
    );
    let top = session("/", false);
    assert_eq!(top.path_missing("/", None, None), Search::Done(Ok("/".to_string())));
}

#[test]
fn parents_and_names_of_many_paths() {
    let s = session("/srv/ftp", false);
    for (path, parent, name) in [
        ("/a", "/", "a"),
        ("/a/b", "/a", "b"),
        ("a/b", "a", "b"),
        ("/a/../b", "/a/..", "b"),
        ("D:\\share/new", "D:\\share", "new"),
        ("/a./b", "/a.", "b"),
        ("/a b/.c", "/a b", ".c"),
        ("/srv/ftp/new/", "/srv/ftp", "new"),
        ("/srv/ftp//new", "/srv/ftp", "new"),
        ("/srv/ftp/./new/.", "/srv/ftp", "new"),
        ("/./new", "/", "new"),
        ("new", "", "new"),
        ("12:30", "", "12:30"),
    ] {
        assert_eq!(
            s.path_seen(path, Sight::Missing),
            Search::LookAbove { parent: parent.to_string(), name: Some(name.to_string()) }
        );
    }
}

#[test]
fn parent_decides_on_a_missing_path() {
    let s = session("/srv/ftp", false);
    let parent = || Sight::Present(Some("/srv/ftp/a".to_string()));
    assert_eq!(s.parent_seen(Some("new"), parent()), Ok("/srv/ftp/a/new".to_string()));
    assert_eq!(s.parent_seen(None, parent()), Ok("/srv/ftp/a".to_string()));
    assert_eq!(s.parent_seen(Some("../../etc/passwd"), parent()), Err(PathError::Undivided));
    assert_eq!(s.parent_seen(Some(".."), parent()), Err(PathError::Undivided));
    assert_eq!(s.parent_seen(Some("new"), Sight::Missing), Err(PathError::ParentMissing));
    assert_eq!(s.parent_seen(Some("new"), Sight::Present(None)), Err(PathError::Unresolved));
    assert_eq!(
        s.parent_seen(Some("passwd"), Sight::Present(Some("/etc".to_string()))),
        Err(PathError::OutsideRoot)
    );
}
