//! What holds of the server as a whole.
use vstd::prelude::*;

use crate::command;
use crate::command::{ActionView, PurposeView, ServerIp, TargetView, Verb};
use crate::config::ConfigView;
use crate::control;
use crate::control::AppView;
use crate::path;
use crate::protocol;
use crate::session;
use crate::session::{PathError, SessionView};
use crate::text;

verus! {

/// Before the client has logged in, a command that needs a login gets the reply that asks for
/// it and changes nothing, and no other command does more than reply.
pub proof fn law_nothing_before_login(
    s: SessionView,
    cmd: Seq<char>,
    arg: Option<Seq<char>>,
    up: Option<Seq<char>>,
)
    requires
        !s.authenticated,
    ensures
        command::obeyed(s, cmd, arg, up).1 is Reply,
        command::needs_login(command::verb(cmd)) ==> command::obeyed(s, cmd, arg, up) == (
            s,
            ActionView::Reply(command::login_required()),
        ),
        command::obeyed(s, cmd, arg, up).0.current_dir == s.current_dir,
        command::obeyed(s, cmd, arg, up).0.pasv_listener == s.pasv_listener,
{
}

/// Only the password of the configured user logs a client in, and no command logs it out.
pub proof fn law_login_by_password_only(
    s: SessionView,
    cmd: Seq<char>,
    arg: Option<Seq<char>>,
    up: Option<Seq<char>>,
)
    ensures
        command::obeyed(s, cmd, arg, up).0.authenticated <==> s.authenticated || (command::verb(cmd)
            == Verb::Pass && command::credentials_match(s, command::or_empty(arg))),
{
}

/// The name and the password of the configured user, given one after the other, log a client in;
/// any other name or password given so is refused.
pub proof fn law_login(
    s: SessionView,
    name: Seq<char>,
    password: Seq<char>,
    up1: Option<Seq<char>>,
    up2: Option<Seq<char>>,
)
    ensures
        ({
            let s1 = command::obeyed(s, "USER"@, Some(name), up1).0;
            let (s2, reply) = command::obeyed(s1, "PASS"@, Some(password), up2);
            if name == s.config.username && password == s.config.password {
                &&& s2 == SessionView { authenticated: true, username: Some(name), ..s }
                &&& reply == ActionView::Reply("230 User logged in\r\n"@)
            } else {
                &&& s2 == SessionView { username: Some(name), ..s }
                &&& reply == ActionView::Reply("530 Login incorrect\r\n"@)
            }
        }),
{
    reveal_strlit("USER");
    reveal_strlit("PASS");
    assert("USER"@[0] != "PASS"@[0]);
}

/// A password given before a user name is answered by asking for the name, and changes nothing.
pub proof fn law_name_before_password(
    s: SessionView,
    arg: Option<Seq<char>>,
    up: Option<Seq<char>>,
)
    requires
        s.username is None,
    ensures
        command::obeyed(s, "PASS"@, arg, up) == (
            s,
            ActionView::Reply("503 Login with USER first\r\n"@),
        ),
{
    reveal_strlit("USER");
    reveal_strlit("PASS");
    assert("USER"@[0] != "PASS"@[0]);
}

/// The settings, the root directory and the platform of a session never change.
pub proof fn law_settings_stay(
    s: SessionView,
    cmd: Seq<char>,
    arg: Option<Seq<char>>,
    up: Option<Seq<char>>,
    purpose: PurposeView,
    found: Result<Seq<char>, PathError>,
    dir: Seq<char>,
    is_dir: bool,
)
    ensures
        same_settings(s, command::obeyed(s, cmd, arg, up).0),
        same_settings(s, command::resolved(s, purpose, found).0),
        same_settings(s, command::changed_dir(s, dir, is_dir).0),
{
}

/// Whether two states of a session agree in what is fixed when it begins.
pub open spec fn same_settings(a: SessionView, b: SessionView) -> bool {
    a.config == b.config && a.root_dir == b.root_dir && a.windows == b.windows
}

/// A virtual directory begins with a slash and has no backslash.
pub proof fn law_rooted_is_client_dir(s: Seq<char>)
    ensures
        session::is_client_dir(path::rooted(s)),
{
    let f = text::forward_slashes(s);
    assert(forall|i: int| 0 <= i < f.len() ==> #[trigger] f[i] != '\\');
}

/// The current directory begins with a slash and has no backslash, whatever the client does.
pub proof fn law_session_stays_well_formed(
    s: SessionView,
    cmd: Seq<char>,
    arg: Option<Seq<char>>,
    up: Option<Seq<char>>,
    purpose: PurposeView,
    found: Result<Seq<char>, PathError>,
    dir: Seq<char>,
    is_dir: bool,
)
    requires
        s.well_formed(),
        path::parent_of(s.current_dir, up),
        is_dir ==> path::virtual_dir(s.root_dir, dir) is Some,
    ensures
        command::obeyed(s, cmd, arg, up).0.well_formed(),
        command::resolved(s, purpose, found).0.well_formed(),
        command::changed_dir(s, dir, is_dir).0.well_formed(),
{
    if let Some(p) = up {
        if p.len() > 0 {
            assert(p[0] == s.current_dir[0]);
            if p.contains('\\') {
                let i = choose|i: int| 0 <= i < p.len() && p[i] == '\\';
                assert(s.current_dir[i] == '\\');
            }
        }
    }
    if is_dir {
        if let Some(rest) = path::after_root(s.root_dir, dir) {
            law_rooted_is_client_dir(rest);
        }
    }
}

/// What a client in a well-formed session is told to be its current directory is that directory.
pub proof fn law_shown_directory_is_current(
    s: SessionView,
    arg: Option<Seq<char>>,
    up: Option<Seq<char>>,
)
    requires
        s.authenticated,
        s.well_formed(),
    ensures
        command::obeyed(s, "PWD"@, arg, up) == (
            s,
            ActionView::Reply("257 \""@ + s.current_dir + "\" is current directory\r\n"@),
        ),
{
    lemma_verb_names();
    assert forall|i: int| 0 <= i < s.current_dir.len() implies #[trigger] text::forward_slashes(
        s.current_dir,
    )[i] == s.current_dir[i] by {
        assert(s.current_dir.contains(s.current_dir[i]));
    }
    assert(text::forward_slashes(s.current_dir) =~= s.current_dir);
}

pub proof fn lemma_verb_names()
    ensures
        command::verb("USER"@) == Verb::User,
        command::verb("PASS"@) == Verb::Pass,
        command::verb("SYST"@) == Verb::Syst,
        command::verb("PWD"@) == Verb::Pwd,
        command::verb("TYPE"@) == Verb::Type,
        command::verb("PASV"@) == Verb::Pasv,
        command::verb("LIST"@) == Verb::List,
        command::verb("RETR"@) == Verb::Retr,
        command::verb("STOR"@) == Verb::Stor,
        command::verb("CWD"@) == Verb::Cwd,
        command::verb("CDUP"@) == Verb::Cdup,
        command::verb("MKD"@) == Verb::Mkd,
        command::verb("XMKD"@) == Verb::Mkd,
        command::verb("RMD"@) == Verb::Rmd,
        command::verb("XRMD"@) == Verb::Rmd,
        command::verb("DELE"@) == Verb::Dele,
        command::verb("SIZE"@) == Verb::Size,
        command::verb("QUIT"@) == Verb::Quit,
        command::verb("NOOP"@) == Verb::Noop,
{
    reveal_strlit("USER");
    reveal_strlit("PASS");
    reveal_strlit("SYST");
    reveal_strlit("PWD");
    reveal_strlit("TYPE");
    reveal_strlit("PASV");
    reveal_strlit("LIST");
    reveal_strlit("RETR");
    reveal_strlit("STOR");
    reveal_strlit("CWD");
    reveal_strlit("CDUP");
    reveal_strlit("MKD");
    reveal_strlit("XMKD");
    reveal_strlit("RMD");
    reveal_strlit("XRMD");
    reveal_strlit("DELE");
    reveal_strlit("SIZE");
    reveal_strlit("QUIT");
    reveal_strlit("NOOP");
    assert("USER"@ =~= seq!['U', 'S', 'E', 'R']);
    assert("PASS"@ =~= seq!['P', 'A', 'S', 'S']);
    assert("SYST"@ =~= seq!['S', 'Y', 'S', 'T']);
    assert("PWD"@ =~= seq!['P', 'W', 'D']);
    assert("TYPE"@ =~= seq!['T', 'Y', 'P', 'E']);
    assert("PASV"@ =~= seq!['P', 'A', 'S', 'V']);
    assert("LIST"@ =~= seq!['L', 'I', 'S', 'T']);
    assert("RETR"@ =~= seq!['R', 'E', 'T', 'R']);
    assert("STOR"@ =~= seq!['S', 'T', 'O', 'R']);
    assert("CWD"@ =~= seq!['C', 'W', 'D']);
    assert("CDUP"@ =~= seq!['C', 'D', 'U', 'P']);
    assert("MKD"@ =~= seq!['M', 'K', 'D']);
    assert("XMKD"@ =~= seq!['X', 'M', 'K', 'D']);
    assert("RMD"@ =~= seq!['R', 'M', 'D']);
    assert("XRMD"@ =~= seq!['X', 'R', 'M', 'D']);
    assert("DELE"@ =~= seq!['D', 'E', 'L', 'E']);
    assert("SIZE"@ =~= seq!['S', 'I', 'Z', 'E']);
    assert("QUIT"@ =~= seq!['Q', 'U', 'I', 'T']);
    assert("NOOP"@ =~= seq!['N', 'O', 'O', 'P']);
}

/// A path that begins with one slash and has no backslash divides in the same way on every
/// platform.
pub proof fn law_client_paths_divide_alike(
    path: Seq<char>,
    dir: Seq<char>,
    gap: Seq<char>,
    name: Seq<char>,
    tail: Seq<char>,
)
    requires
        session::is_client_dir(path),
        !path::has_share(path),
        path::divides_on(path, dir, gap, name, tail, false),
    ensures
        path::divides_on(path, dir, gap, name, tail, true),
{
    let head = path.take(1);
    assert(path::root_len(path, false) == 1 && path::root_len(path, true) == 1);
    assert forall|i: int| 0 <= i < path.len() implies #[trigger] path[i] != '\\' by {
        assert(path.contains(path[i]));
    }
    let d = head.len() as int;
    let g = d + dir.len();
    let n = g + gap.len();
    let t = n + name.len();
    assert(forall|i: int| 0 <= i < dir.len() ==> #[trigger] dir[i] == path[d + i]);
    assert(forall|i: int| 0 <= i < gap.len() ==> #[trigger] gap[i] == path[g + i]);
    assert(forall|i: int| 0 <= i < name.len() ==> #[trigger] name[i] == path[n + i]);
    assert(forall|i: int| 0 <= i < tail.len() ==> #[trigger] tail[i] == path[t + i]);
}

/// Going up leads to the directory that holds the current one, and from the top nowhere else; it
/// never leads anywhere but to the beginning of the path.
pub proof fn law_going_up(
    s: SessionView,
    arg: Option<Seq<char>>,
    up: Option<Seq<char>>,
    dir: Seq<char>,
    gap: Seq<char>,
    name: Seq<char>,
    tail: Seq<char>,
)
    requires
        s.authenticated,
        s.well_formed(),
        path::parent_of(s.current_dir, up),
    ensures
        ({
            let above = command::obeyed(s, "CDUP"@, arg, up).0.current_dir;
            &&& s.current_dir == seq!['/'] ==> above == seq!['/']
            &&& path::divides_on(s.current_dir, dir, gap, name, tail, false) && !path::has_share(
                s.current_dir,
            ) ==> above == seq!['/'] + dir
            &&& above.is_prefix_of(s.current_dir)
            &&& above.len() == s.current_dir.len() ==> above == seq!['/']
        }),
{
    lemma_verb_names();
    let d = s.current_dir;
    assert(d.len() > 0 && d[0] == '/');
    assert(seq!['/'] =~= d.subrange(0, 1));
    if d.len() == 1 {
        assert(d =~= seq!['/']);
    }
    if path::divides_on(d, dir, gap, name, tail, false) && !path::has_share(d) {
        law_client_paths_divide_alike(d, dir, gap, name, tail);
        assert(d.take(1) =~= seq!['/']);
        assert(up == Some(d.take(1) + dir));
    }
}

/// A data port is used for one transfer: no transfer begins without an open port, every transfer
/// leaves none, and a command that finds none is answered by asking for one.
pub proof fn law_data_port_serves_once(
    s: SessionView,
    arg: Option<Seq<char>>,
    up: Option<Seq<char>>,
    name: Seq<char>,
    path: Seq<char>,
)
    requires
        s.authenticated,
    ensures
        !command::obeyed(s, "LIST"@, arg, up).0.pasv_listener,
        !command::resolved(s, PurposeView::Retrieve(name), Ok(path)).0.pasv_listener,
        !command::resolved(s, PurposeView::Store(name), Ok(path)).0.pasv_listener,
        if s.pasv_listener {
            &&& command::obeyed(s, "LIST"@, arg, up).1 is Resolve
            &&& command::resolved(s, PurposeView::Retrieve(name), Ok(path)).1 is SendFile
            &&& command::resolved(s, PurposeView::Store(name), Ok(path)).1 is ReceiveFile
        } else {
            let refused = (s, ActionView::Reply("425 Use PASV first\r\n"@));
            &&& command::obeyed(s, "LIST"@, arg, up) == refused
            &&& command::resolved(s, PurposeView::Retrieve(name), Ok(path)) == refused
            &&& command::resolved(s, PurposeView::Store(name), Ok(path)) == refused
        },
{
    lemma_verb_names();
}

/// An option in place of a directory is ignored: the current directory is listed.
pub proof fn law_list_options_are_ignored(
    s: SessionView,
    option: Seq<char>,
    up: Option<Seq<char>>,
)
    requires
        text::begins_with(option, '-'),
    ensures
        command::obeyed(s, "LIST"@, Some(option), up) == command::obeyed(s, "LIST"@, None, up),
        s.authenticated && s.pasv_listener ==> command::obeyed(s, "LIST"@, Some(option), up).1
            == (ActionView::Resolve {
            purpose: PurposeView::List,
            target: TargetView::Path(s.current_dir),
        }),
{
    lemma_verb_names();
}

/// A path that is refused changes nothing, and its reply says that the command failed.
pub proof fn law_refused_path_changes_nothing(s: SessionView, purpose: PurposeView, e: PathError)
    ensures
        command::resolved(s, purpose, Err(e)) == (s, ActionView::Reply(command::refusal(purpose))),
        command::refusal(purpose).take(4) == seq!['5', '5', '0', ' '],
{
    reveal_strlit("550 Failed to access directory\r\n");
    reveal_strlit("550 File not accessible\r\n");
    reveal_strlit("550 Directory not found\r\n");
    reveal_strlit("550 Failed to create directory\r\n");
    reveal_strlit("550 Failed to remove directory\r\n");
    reveal_strlit("550 File not found\r\n");
    assert(command::refusal(purpose).take(4) =~= seq!['5', '5', '0', ' ']);
}

/// The path that a step of a command works on in the file system, if it works on one.
pub open spec fn path_of(action: ActionView) -> Option<Seq<char>> {
    match action {
        ActionView::SendListing { path, .. } => Some(path),
        ActionView::SendFile { path, .. } => Some(path),
        ActionView::ReceiveFile { path, .. } => Some(path),
        ActionView::CheckDir { path } => Some(path),
        ActionView::CreateDir { path, .. } => Some(path),
        ActionView::RemoveDir { path, .. } => Some(path),
        ActionView::DeleteFile { path, .. } => Some(path),
        ActionView::MeasureFile { path } => Some(path),
        _ => None,
    }
}

/// A command works on no path but the one that the search for it has found, so that it stays in
/// the root directory as the search does: it goes through the names of the root directory, and no
/// name leads up to a parent directory.
pub proof fn law_commands_stay_in_root(
    s: SessionView,
    cmd: Seq<char>,
    arg: Option<Seq<char>>,
    up: Option<Seq<char>>,
    purpose: PurposeView,
    found: Result<String, PathError>,
)
    requires
        session::ends_in_root(s, session::SearchView::Done(session::path_view(found))),
    ensures
        path_of(command::obeyed(s, cmd, arg, up).1) is None,
        path_of(
            command::resolved(s, purpose, session::path_view(found)).1,
        ) matches Some(path) ==> session::path_view(found) == Ok::<Seq<char>, PathError>(path)
            && path::lies_within(s.root_dir, path, s.windows),
{
}

/// The names of a path, between the separators.
pub open spec fn names(path: Seq<char>, windows: bool) -> Seq<Seq<char>>
    decreases path.len(),
{
    if path.len() == 0 {
        seq![Seq::empty()]
    } else {
        let before = names(path.drop_last(), windows);
        if path::is_separator(path.last(), windows) {
            before.push(Seq::empty())
        } else {
            before.drop_last().push(before.last().push(path.last()))
        }
    }
}

/// The names on the way to a directory, whether or not its path ends in a separator.
pub open spec fn directory_names(dir: Seq<char>, windows: bool) -> Seq<Seq<char>> {
    if dir.len() > 0 && path::is_separator(dir.last(), windows) {
        names(dir.drop_last(), windows)
    } else {
        names(dir, windows)
    }
}

proof fn lemma_names_not_empty(path: Seq<char>, windows: bool)
    ensures
        names(path, windows).len() > 0,
    decreases path.len(),
{
    if path.len() > 0 {
        lemma_names_not_empty(path.drop_last(), windows);
    }
}

/// The names of two paths with a separator between them are those of the one and then of the other.
pub proof fn lemma_names_of_extension(a: Seq<char>, c: char, b: Seq<char>, windows: bool)
    requires
        path::is_separator(c, windows),
    ensures
        names(a.push(c) + b, windows) == names(a, windows) + names(b, windows),
    decreases b.len(),
{
    let whole = a.push(c) + b;
    if b.len() == 0 {
        assert(whole =~= a.push(c));
        assert(whole.drop_last() =~= a);
        assert(names(whole, windows) =~= names(a, windows) + names(b, windows));
    } else {
        lemma_names_of_extension(a, c, b.drop_last(), windows);
        lemma_names_not_empty(b.drop_last(), windows);
        assert(whole.drop_last() =~= a.push(c) + b.drop_last());
        assert(names(whole, windows) =~= names(a, windows) + names(b, windows));
    }
}

proof fn lemma_extension_is_below(root: Seq<char>, path: Seq<char>, windows: bool)
    requires
        root.len() > 0,
        path::extends(root, path, windows),
    ensures
        directory_names(root, windows).is_prefix_of(names(path, windows)),
{
    let n = root.len() as int;
    if path::is_separator(root.last(), windows) {
        let rest = path.skip(n);
        assert(path =~= root.drop_last().push(root.last()) + rest);
        lemma_names_of_extension(root.drop_last(), root.last(), rest, windows);
        assert(directory_names(root, windows) =~= names(path, windows).subrange(
            0,
            directory_names(root, windows).len() as int,
        ));
    } else if path.len() == n {
        assert(path =~= root);
        assert(names(root, windows) =~= names(path, windows).subrange(
            0,
            names(root, windows).len() as int,
        ));
    } else {
        let rest = path.skip(n + 1);
        assert(path =~= root.push(path[n]) + rest);
        lemma_names_of_extension(root, path[n], rest, windows);
        assert(names(root, windows) =~= names(path, windows).subrange(
            0,
            names(root, windows).len() as int,
        ));
    }
}

/// Whether the name number `k` of `path` stands between the indices `i` and `j`.
pub open spec fn name_stands(path: Seq<char>, k: int, i: int, j: int, windows: bool) -> bool {
    &&& 0 <= i <= j <= path.len()
    &&& names(path, windows)[k] == path.subrange(i, j)
    &&& i == 0 || path::is_separator(path[i - 1], windows)
    &&& if k == names(path, windows).len() - 1 {
        j == path.len()
    } else {
        j < path.len() && path::is_separator(path[j], windows)
    }
}

proof fn lemma_names_are_pieces(path: Seq<char>, k: int, windows: bool)
    requires
        0 <= k < names(path, windows).len(),
    ensures
        exists|i: int, j: int| name_stands(path, k, i, j, windows),
    decreases path.len(),
{
    let n = path.len() as int;
    if n == 0 {
        assert(names(path, windows)[k] =~= path.subrange(0, 0));
        assert(name_stands(path, k, 0, 0, windows));
    } else {
        let short = path.drop_last();
        let before = names(short, windows);
        lemma_names_not_empty(short, windows);
        let last = names(path, windows).len() - 1;
        if path::is_separator(path.last(), windows) && k == last {
            assert(names(path, windows)[k] =~= path.subrange(n, n));
            assert(name_stands(path, k, n, n, windows));
        } else {
            lemma_names_are_pieces(short, k, windows);
            let (i, j) = choose|i: int, j: int| name_stands(short, k, i, j, windows);
            if !path::is_separator(path.last(), windows) && k == last {
                assert(names(path, windows)[k] =~= path.subrange(i, n));
                assert(name_stands(path, k, i, n, windows));
            } else {
                assert(names(path, windows)[k] =~= path.subrange(i, j));
                assert(name_stands(path, k, i, j, windows));
            }
        }
    }
}

/// A path in which no parent directory is named has no name that leads up.
pub proof fn law_no_name_leads_up(path: Seq<char>, windows: bool)
    requires
        !path::climbs(path, windows),
    ensures
        !names(path, windows).contains(seq!['.', '.']),
{
    if names(path, windows).contains(seq!['.', '.']) {
        let k = choose|k: int|
            0 <= k < names(path, windows).len() && names(path, windows)[k] == seq!['.', '.'];
        lemma_names_are_pieces(path, k, windows);
        let (i, j) = choose|i: int, j: int| name_stands(path, k, i, j, windows);
        let piece = path.subrange(i, j);
        assert(piece.len() == 2);
        assert(piece[0] == path[i] && piece[1] == path[i + 1]);
        assert(path::climbs_at(path, i, windows));
    }
}

/// A path that lies within a directory goes through it and never leaves it: the names on the way
/// to the directory are the first names of the path, each of them whole, letter case aside on
/// Windows, and no name of the path leads up to a parent directory, unless the path is that of the
/// directory itself.
pub proof fn law_within_is_below(root: Seq<char>, path: Seq<char>, windows: bool)
    requires
        path::folded(root, windows).len() > 0,
        path::lies_within(root, path, windows),
    ensures
        directory_names(path::folded(root, windows), windows).is_prefix_of(
            names(path::folded(path, windows), windows),
        ),
        path == root || !names(path, windows).contains(seq!['.', '.']),
{
    let folded = path::folded(root, windows);
    if path == root {
        assert(folded =~= folded.subrange(0, folded.len() as int));
    } else {
        law_no_name_leads_up(path, windows);
    }
    lemma_extension_is_below(folded, path::folded(path, windows), windows);
}

/// Off Windows, a virtual directory stands for every directory within the root directory.
pub proof fn law_virtual_dirs_off_windows(root: Seq<char>, dir: Seq<char>)
    requires
        path::lies_within(root, dir, false),
    ensures
        path::virtual_dir(root, dir) is Some,
{
    if dir != root {
        let rest = dir.skip(root.len() as int);
        assert(dir =~= root + rest);
        law_rest_after_root(root, rest);
    }
}

/// What follows the path of the root directory in a longer path is what is left after it, so
/// that every path that begins with it has a virtual directory that stands for it.
pub proof fn law_rest_after_root(root: Seq<char>, rest: Seq<char>)
    ensures
        path::after_root(root, root + rest) == Some(rest),
        path::virtual_dir(root, root + rest) is Some,
{
    path::lemma_after_prefix(root, root, rest);
}

/// Asking for the root directory, by a slash or by nothing at all, leads to the root directory,
/// and a client that enters it is at the top.
pub proof fn law_slash_is_the_root(s: SessionView)
    ensures
        session::below_root(seq!['/']).len() == 0,
        session::below_root(Seq::empty()).len() == 0,
        command::changed_dir(s, s.root_dir, true).0.current_dir == seq!['/'],
{
}

/// The reply for a data port tells the address and the port: two replies are equal only if
/// both are.
pub proof fn law_passive_reply_tells_the_port(ip1: ServerIp, port1: u16, ip2: ServerIp, port2: u16)
    requires
        command::passive_reply(ip1, port1) == command::passive_reply(ip2, port2),
    ensures
        command::octets(ip1) == command::octets(ip2),
        port1 == port2,
{
    let head = "227 Entering Passive Mode ("@;
    let tail = ")\r\n"@;
    let x = command::passive_numbers(ip1, port1);
    let y = command::passive_numbers(ip2, port2);
    let a = text::comma_separated(x);
    let b = text::comma_separated(y);
    let r = head + a + tail;
    assert(r == head + b + tail);
    assert(a.len() == b.len());
    assert(a =~= r.subrange(head.len() as int, r.len() - tail.len()));
    assert(b =~= r.subrange(head.len() as int, r.len() - tail.len()));
    text::law_separated_numbers_read_back(x, y);
    assert(x[0] == y[0] && x[1] == y[1] && x[2] == y[2] && x[3] == y[3] && x[4] == y[4] && x[5]
        == y[5]);
}

/// The two last numbers of the reply for a data port are the high and the low byte of the port.
pub proof fn law_port_bytes(ip: ServerIp, port: u16)
    ensures
        command::passive_numbers(ip, port)[4] * 256 + command::passive_numbers(ip, port)[5] == port,
{
}

/// Whether `r` has the form of a reply: three digits, a space, some text, and the end of a line.
pub open spec fn is_reply(r: Seq<char>) -> bool {
    &&& r.len() >= 6
    &&& '1' <= r[0] <= '5'
    &&& '0' <= r[1] <= '9'
    &&& '0' <= r[2] <= '9'
    &&& r[3] == ' '
    &&& r[r.len() - 2] == '\r'
    &&& r[r.len() - 1] == '\n'
}

proof fn lemma_reply_ends(a: Seq<char>, b: Seq<char>, c: Seq<char>)
    requires
        a.len() >= 4,
        '1' <= a[0] <= '5',
        '0' <= a[1] <= '9',
        '0' <= a[2] <= '9',
        a[3] == ' ',
        c.len() >= 2,
        c[c.len() - 2] == '\r',
        c[c.len() - 1] == '\n',
    ensures
        is_reply(a + b + c),
{
    let r = a + b + c;
    assert(r[0] == a[0] && r[1] == a[1] && r[2] == a[2] && r[3] == a[3]);
    assert(r[r.len() - 2] == c[c.len() - 2]);
    assert(r[r.len() - 1] == c[c.len() - 1]);
}

/// The reply that ends a step, if it has one.
pub open spec fn reply_of(action: ActionView) -> Option<Seq<char>> {
    match action {
        ActionView::Reply(reply) => Some(reply),
        ActionView::SendListing { reply, .. } => Some(reply),
        ActionView::SendFile { reply, .. } => Some(reply),
        ActionView::ReceiveFile { reply, .. } => Some(reply),
        _ => None,
    }
}

/// Whatever a client sends, the answer has the form of a reply.
pub proof fn law_commands_are_answered_by_replies(
    s: SessionView,
    cmd: Seq<char>,
    arg: Option<Seq<char>>,
    up: Option<Seq<char>>,
)
    ensures
        reply_of(command::obeyed(s, cmd, arg, up).1) matches Some(r) ==> is_reply(r),
{
    reveal_strlit("530 Please login with USER and PASS\r\n");
    reveal_strlit("331 User ");
    reveal_strlit(" OK. Password required\r\n");
    reveal_strlit("503 Login with USER first\r\n");
    reveal_strlit("230 User logged in\r\n");
    reveal_strlit("530 Login incorrect\r\n");
    reveal_strlit("215 Windows_NT\r\n");
    reveal_strlit("257 \"");
    reveal_strlit("\" is current directory\r\n");
    reveal_strlit("200 Type set to I\r\n");
    reveal_strlit("425 Use PASV first\r\n");
    reveal_strlit("250 Directory changed to ");
    reveal_strlit("\r\n");
    reveal_strlit("501 Missing directory name\r\n");
    reveal_strlit("501 Missing file name\r\n");
    reveal_strlit("221 Goodbye\r\n");
    reveal_strlit("200 OK\r\n");
    reveal_strlit("502 Command not implemented\r\n");
    lemma_reply_ends("331 User "@, command::or_empty(arg), " OK. Password required\r\n"@);
    lemma_reply_ends(
        "257 \""@,
        text::forward_slashes(s.current_dir),
        "\" is current directory\r\n"@,
    );
    lemma_reply_ends(
        "250 Directory changed to "@,
        text::forward_slashes(command::dir_above(up)),
        "\r\n"@,
    );
}

/// What comes of the work that a command asked for is told in the form of a reply.
pub proof fn law_outcomes_are_told_by_replies(
    s: SessionView,
    purpose: PurposeView,
    found: Result<Seq<char>, PathError>,
    dir: Seq<char>,
    is_dir: bool,
    name: Seq<char>,
    error: Option<Seq<char>>,
    size: Option<u64>,
    ip: ServerIp,
    port: u16,
)
    ensures
        reply_of(command::resolved(s, purpose, found).1) matches Some(r) ==> is_reply(r),
        is_reply(command::changed_dir(s, dir, is_dir).1),
        is_reply(command::created_reply(name, error)),
        is_reply(command::removed_reply(error)),
        is_reply(command::deleted_reply(error)),
        is_reply(command::size_reply(size)),
        is_reply(command::passive_reply(ip, port)),
        is_reply(protocol::GREETING@),
{
    reveal_strlit("550 Failed to access directory\r\n");
    reveal_strlit("550 File not accessible\r\n");
    reveal_strlit("550 Directory not found\r\n");
    reveal_strlit("550 Failed to create directory\r\n");
    reveal_strlit("550 Failed to remove directory\r\n");
    reveal_strlit("550 File not found\r\n");
    reveal_strlit("150 Opening data connection for directory list\r\n226 Transfer complete\r\n");
    reveal_strlit("150 Opening data connection for ");
    reveal_strlit("\r\n226 Transfer complete\r\n");
    reveal_strlit("425 Use PASV first\r\n");
    reveal_strlit("250 Directory changed to ");
    reveal_strlit("\r\n");
    reveal_strlit("550 Not a directory\r\n");
    reveal_strlit("257 \"");
    reveal_strlit("\" directory created\r\n");
    reveal_strlit("550 Failed to create directory: ");
    reveal_strlit("250 Directory removed\r\n");
    reveal_strlit("550 Failed to remove directory: ");
    reveal_strlit("250 File deleted\r\n");
    reveal_strlit("550 Failed to delete file: ");
    reveal_strlit("213 ");
    reveal_strlit("227 Entering Passive Mode (");
    reveal_strlit(")\r\n");
    reveal_strlit("220 Local FTP Server Ready\r\n");
    match purpose {
        PurposeView::Retrieve(n) | PurposeView::Store(n) => {
            lemma_reply_ends(
                "150 Opening data connection for "@,
                n,
                "\r\n226 Transfer complete\r\n"@,
            );
        },
        _ => {},
    }
    if is_dir {
        lemma_reply_ends(
            "250 Directory changed to "@,
            path::virtual_dir(s.root_dir, dir)->0,
            "\r\n"@,
        );
    }
    lemma_reply_ends("257 \""@, name, "\" directory created\r\n"@);
    if let Some(e) = error {
        lemma_reply_ends("550 Failed to create directory: "@, e, "\r\n"@);
        lemma_reply_ends("550 Failed to remove directory: "@, e, "\r\n"@);
        lemma_reply_ends("550 Failed to delete file: "@, e, "\r\n"@);
    }
    if let Some(n) = size {
        lemma_reply_ends("213 "@, text::decimal(n as nat), "\r\n"@);
    }
    lemma_reply_ends(
        "227 Entering Passive Mode ("@,
        text::comma_separated(command::passive_numbers(ip, port)),
        ")\r\n"@,
    );
}

/// A request has a command, and an argument that is given is not empty.
pub proof fn law_arguments_are_not_empty(line: Seq<char>)
    requires
        text::trimmed(line).len() > 0,
    ensures
        text::first_word(text::trimmed(line)).len() > 0,
        protocol::request(line).arg matches Some(a) ==> a.len() > 0,
{
    lemma_trimmed_ends(line);
    let l = text::trimmed(line);
    l.index_of_first_ensures(' ');
    if let Some(rest) = text::after_first_word(l) {
        let i = l.index_of_first(' ')->0;
        assert(rest.len() > 0) by {
            if i == l.len() - 1 {
                assert(l.last() == ' ');
            }
        }
        assert(rest.last() == l.last());
        lemma_trimmed_keeps(rest);
    }
}

proof fn lemma_trimmed_ends(s: Seq<char>)
    ensures
        text::trimmed(s).len() > 0 ==> !text::is_white_space(text::trimmed(s)[0])
            && !text::is_white_space(text::trimmed(s).last()),
    decreases s.len(),
{
    if s.len() == 0 {
    } else if text::is_white_space(s[0]) {
        lemma_trimmed_ends(s.drop_first());
    } else if text::is_white_space(s.last()) {
        lemma_trimmed_ends(s.drop_last());
    }
}

proof fn lemma_trimmed_keeps(s: Seq<char>)
    requires
        s.len() > 0,
        !text::is_white_space(s.last()),
    ensures
        text::trimmed(s).len() > 0,
    decreases s.len(),
{
    if text::is_white_space(s[0]) {
        if s.len() > 1 {
            assert(s.drop_first().last() == s.last());
            lemma_trimmed_keeps(s.drop_first());
        }
    }
}

/// Trimming text that was trimmed before changes nothing.
pub proof fn law_trimming_twice(s: Seq<char>)
    ensures
        text::trimmed(text::trimmed(s)) == text::trimmed(s),
{
    lemma_trimmed_ends(s);
}

/// Starting a server that runs, and stopping one that does not, changes nothing; a server that
/// is started and stopped again is as before, and both only add to the log.
pub proof fn law_start_and_stop<H, R>(
    app: AppView<H, R>,
    handle1: H,
    receiver1: R,
    handle2: H,
    receiver2: R,
)
    ensures
        app.started(handle1, receiver1).server_running,
        !app.stopped().server_running,
        app.started(handle1, receiver1).started(handle2, receiver2) == app.started(
            handle1,
            receiver1,
        ),
        app.stopped().stopped() == app.stopped(),
        app.logs.is_prefix_of(app.started(handle1, receiver1).logs),
        app.logs.is_prefix_of(app.stopped().logs),
        !app.server_running && app.well_formed() ==> app.started(handle1, receiver1).stopped()
            == (AppView {
            logs: app.logs + control::start_lines(app.config) + control::stop_lines(),
            ..app
        }),
{
    assert(app.logs =~= app.started(handle1, receiver1).logs.subrange(0, app.logs.len() as int));
    assert(app.logs =~= app.stopped().logs.subrange(0, app.logs.len() as int));
}

/// One thing that happens to the window.
pub enum AppStep<H, R> {
    /// A line for the log arrives.
    Log(Seq<char>),
    /// The button that starts the server is pressed.
    Start { handle: H, log_receiver: R },
    /// The button that stops the server is pressed, or the window is closed.
    Stop,
    /// The user picks a directory, or none.
    Select(Option<Seq<char>>),
    /// The user edits the settings.
    Edit(ConfigView),
    /// The text about the program is shown or hidden.
    About(bool),
}

/// The window after one thing has happened to it.
pub open spec fn after_app_step<H, R>(app: AppView<H, R>, step: AppStep<H, R>) -> AppView<H, R> {
    match step {
        AppStep::Log(line) => app.logged(line),
        AppStep::Start { handle, log_receiver } => app.started(handle, log_receiver),
        AppStep::Stop => app.stopped(),
        AppStep::Select(picked) => app.selected(picked),
        AppStep::Edit(config) => AppView { config, ..app },
        AppStep::About(show_about) => AppView { show_about, ..app },
    }
}

/// The window after some things have happened to it.
pub open spec fn after_app_steps<H, R>(app: AppView<H, R>, steps: Seq<AppStep<H, R>>) -> AppView<
    H,
    R,
>
    decreases steps.len(),
{
    if steps.len() == 0 {
        app
    } else {
        after_app_step(after_app_steps(app, steps.drop_last()), steps.last())
    }
}

/// Whatever has happened to the window, it shows a server as running just when it has the handle
/// and the receiver of one, and no line has gone from the log since any earlier time.
pub proof fn law_every_window<H, R>(config: ConfigView, steps: Seq<AppStep<H, R>>, earlier: int)
    requires
        0 <= earlier <= steps.len(),
    ensures
        after_app_steps(AppView::<H, R>::initial(config), steps).well_formed(),
        after_app_steps(AppView::<H, R>::initial(config), steps.take(earlier)).logs.is_prefix_of(
            after_app_steps(AppView::<H, R>::initial(config), steps).logs,
        ),
    decreases steps.len(),
{
    let initial = AppView::<H, R>::initial(config);
    let then = after_app_steps(initial, steps.take(earlier)).logs;
    let now = after_app_steps(initial, steps).logs;
    if steps.len() > 0 {
        law_every_window(
            config,
            steps.drop_last(),
            if earlier < steps.len() {
                earlier
            } else {
                0
            },
        );
    }
    if earlier < steps.len() {
        assert(steps.drop_last().take(earlier) =~= steps.take(earlier));
        let before = after_app_steps(initial, steps.drop_last()).logs;
        assert(before =~= now.subrange(0, before.len() as int));
        assert(then =~= now.subrange(0, then.len() as int));
    } else {
        assert(steps.take(earlier) =~= steps);
        assert(then =~= now.subrange(0, then.len() as int));
    }
}

/// One step of a session.
pub enum StepView {
    /// A command; `up` is the parent of the current directory.
    Command { cmd: Seq<char>, arg: Option<Seq<char>>, up: Option<Seq<char>> },
    /// The path that a command names was looked for.
    Resolved { purpose: PurposeView, found: Result<Seq<char>, PathError> },
    /// A data port was opened.
    PassiveOpened,
    /// A directory was entered, or found not to be one.
    ChangedDir { dir: Seq<char>, is_dir: bool },
}

/// Whether `step` can be taken in the state `s`.
pub open spec fn can_take(s: SessionView, step: StepView) -> bool {
    match step {
        StepView::Command { up, .. } => path::parent_of(s.current_dir, up),
        StepView::ChangedDir { dir, is_dir } => is_dir ==> path::virtual_dir(
            s.root_dir,
            dir,
        ) is Some,
        _ => true,
    }
}

/// The state after one step.
pub open spec fn after_step(s: SessionView, step: StepView) -> SessionView {
    match step {
        StepView::Command { cmd, arg, up } => command::obeyed(s, cmd, arg, up).0,
        StepView::Resolved { purpose, found } => command::resolved(s, purpose, found).0,
        StepView::PassiveOpened => SessionView { pasv_listener: true, ..s },
        StepView::ChangedDir { dir, is_dir } => command::changed_dir(s, dir, is_dir).0,
    }
}

/// The state after some steps.
pub open spec fn after_steps(s: SessionView, steps: Seq<StepView>) -> SessionView
    decreases steps.len(),
{
    if steps.len() == 0 {
        s
    } else {
        after_step(after_steps(s, steps.drop_last()), steps.last())
    }
}

/// Whether some steps can be taken one after the other.
pub open spec fn can_take_all(s: SessionView, steps: Seq<StepView>) -> bool
    decreases steps.len(),
{
    steps.len() > 0 ==> can_take_all(s, steps.drop_last()) && can_take(
        after_steps(s, steps.drop_last()),
        steps.last(),
    )
}

/// Whether a step gives the user name `name`.
pub open spec fn gives_name(step: StepView, name: Seq<char>) -> bool {
    step matches StepView::Command { cmd, arg, .. } && command::verb(cmd) == Verb::User
        && command::or_empty(arg) == name
}

/// Whether a step gives the password `password`.
pub open spec fn gives_password(step: StepView, password: Seq<char>) -> bool {
    step matches StepView::Command { cmd, arg, .. } && command::verb(cmd) == Verb::Pass
        && command::or_empty(arg) == password
}

/// However a session went on from its beginning, it is well formed and has kept its settings,
/// and the client is logged in only after it gave the configured user name and, later on, the
/// configured password.
pub proof fn law_every_session(initial: SessionView, steps: Seq<StepView>)
    requires
        initial == SessionView::initial(initial.config, initial.root_dir, initial.windows),
        can_take_all(initial, steps),
    ensures
        after_steps(initial, steps).well_formed(),
        same_settings(initial, after_steps(initial, steps)),
        after_steps(initial, steps).username matches Some(name) ==> exists|i: int|
            0 <= i < steps.len() && #[trigger] gives_name(steps[i], name),
        after_steps(initial, steps).authenticated ==> exists|i: int, j: int|
            0 <= i < j < steps.len() && #[trigger] gives_name(steps[i], initial.config.username)
                && #[trigger] gives_password(steps[j], initial.config.password),
    decreases steps.len(),
{
    if steps.len() > 0 {
        let before = steps.drop_last();
        let s = after_steps(initial, before);
        let step = steps.last();
        let n = steps.len() - 1;
        law_every_session(initial, before);
        match step {
            StepView::Command { cmd, arg, up } => {
                law_session_stays_well_formed(
                    s,
                    cmd,
                    arg,
                    up,
                    PurposeView::List,
                    Err(PathError::Unresolved),
                    Seq::empty(),
                    false,
                );
                if command::verb(cmd) == Verb::User {
                    assert(gives_name(steps[n], command::or_empty(arg)));
                }
                if command::verb(cmd) == Verb::Pass && command::credentials_match(
                    s,
                    command::or_empty(arg),
                ) {
                    let i = choose|i: int|
                        0 <= i < before.len() && #[trigger] gives_name(
                            before[i],
                            s.config.username,
                        );
                    assert(gives_name(steps[i], initial.config.username));
                    assert(gives_password(steps[n], initial.config.password));
                }
            },
            StepView::ChangedDir { dir, is_dir } => {
                if is_dir {
                    if let Some(rest) = path::after_root(s.root_dir, dir) {
                        law_rooted_is_client_dir(rest);
                    }
                }
            },
            _ => {},
        }
        let t = after_steps(initial, steps);
        assert(t == after_step(s, step));
        assert(t.username == s.username || (t.username is Some && gives_name(
            steps[n],
            t.username->0,
        )));
        if t.username == s.username && s.username is Some {
            let name = s.username->0;
            let i = choose|i: int| 0 <= i < before.len() && #[trigger] gives_name(before[i], name);
            assert(gives_name(steps[i], name));
        }
        if s.authenticated {
            let (i, j) = choose|i: int, j: int|
                0 <= i < j < before.len() && #[trigger] gives_name(
                    before[i],
                    initial.config.username,
                ) && #[trigger] gives_password(before[j], initial.config.password);
            assert(gives_name(steps[i], initial.config.username));
            assert(gives_password(steps[j], initial.config.password));
        }
    }
}

} // verus!
