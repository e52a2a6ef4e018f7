//! What each command does, for every session and every argument.
use vstd::prelude::*;

use crate::command;
use crate::command::{ActionView, PurposeView, ServerIp, TargetView};
use crate::laws;
use crate::path;
use crate::session::{PathError, SessionView};
use crate::text;

verus! {

/// A name that a client gives is looked for in its current directory, whatever else the name holds;
/// only one whose first character is a slash is taken by itself. This goes for every command that
/// takes a name, and each looks for it to its own end and changes nothing before it is found.
pub proof fn law_names_start_from_the_current_directory(
    s: SessionView,
    name: Seq<char>,
    up: Option<Seq<char>>,
)
    requires
        s.authenticated,
        name.len() > 0,
    ensures
        ({
            let target = if name[0] == '/' {
                TargetView::Path(name)
            } else {
                TargetView::Joined { dir: s.current_dir, path: name }
            };
            let asked = |purpose: PurposeView| (s, ActionView::Resolve { purpose, target });
            &&& command::obeyed(s, "CWD"@, Some(name), up) == asked(PurposeView::ChangeDir)
            &&& command::obeyed(s, "RETR"@, Some(name), up) == asked(PurposeView::Retrieve(name))
            &&& command::obeyed(s, "STOR"@, Some(name), up) == asked(PurposeView::Store(name))
            &&& command::obeyed(s, "MKD"@, Some(name), up) == asked(PurposeView::MakeDir(name))
            &&& command::obeyed(s, "XMKD"@, Some(name), up) == asked(PurposeView::MakeDir(name))
            &&& command::obeyed(s, "RMD"@, Some(name), up) == asked(PurposeView::RemoveDir(name))
            &&& command::obeyed(s, "XRMD"@, Some(name), up) == asked(PurposeView::RemoveDir(name))
            &&& command::obeyed(s, "DELE"@, Some(name), up) == asked(PurposeView::Delete(name))
            &&& command::obeyed(s, "SIZE"@, Some(name), up) == asked(PurposeView::Size)
        }),
{
    laws::lemma_verb_names();
}

/// A listing shows the directory that is named, from the current one unless the name begins with a
/// slash; the current directory where no name is given, or an option. It takes the data port, and
/// without one it is refused.
pub proof fn law_listing(s: SessionView, arg: Option<Seq<char>>, up: Option<Seq<char>>)
    requires
        s.authenticated,
    ensures
        s.pasv_listener ==> command::obeyed(s, "LIST"@, arg, up) == (
            SessionView { pasv_listener: false, ..s },
            ActionView::Resolve {
                purpose: PurposeView::List,
                target: match arg {
                    Some(name) => if name.len() == 0 || name[0] == '-' {
                        TargetView::Path(s.current_dir)
                    } else if name[0] == '/' {
                        TargetView::Path(name)
                    } else {
                        TargetView::Joined { dir: s.current_dir, path: name }
                    },
                    None => TargetView::Path(s.current_dir),
                },
            },
        ),
        !s.pasv_listener ==> command::obeyed(s, "LIST"@, arg, up) == (
            s,
            ActionView::Reply("425 Use PASV first\r\n"@),
        ),
{
    laws::lemma_verb_names();
}

/// A command without a name: entering nothing leads to the top, sending and storing ask for the
/// current directory itself, and the others ask for a name. An empty name to enter is the current
/// directory.
pub proof fn law_missing_names(s: SessionView, up: Option<Seq<char>>)
    requires
        s.authenticated,
    ensures
        ({
            let nothing = Seq::<char>::empty();
            let here = TargetView::Joined { dir: s.current_dir, path: nothing };
            let asked = |purpose: PurposeView, target: TargetView|
                (s, ActionView::Resolve { purpose, target });
            let no_dir = (s, ActionView::Reply("501 Missing directory name\r\n"@));
            let no_file = (s, ActionView::Reply("501 Missing file name\r\n"@));
            &&& command::obeyed(s, "CWD"@, None, up) == asked(
                PurposeView::ChangeDir,
                TargetView::Path(seq!['/']),
            )
            &&& command::obeyed(s, "CWD"@, Some(nothing), up) == asked(PurposeView::ChangeDir, here)
            &&& command::obeyed(s, "RETR"@, None, up) == asked(PurposeView::Retrieve(nothing), here)
            &&& command::obeyed(s, "RETR"@, Some(nothing), up) == asked(
                PurposeView::Retrieve(nothing),
                here,
            )
            &&& command::obeyed(s, "STOR"@, None, up) == asked(PurposeView::Store(nothing), here)
            &&& command::obeyed(s, "STOR"@, Some(nothing), up) == asked(
                PurposeView::Store(nothing),
                here,
            )
            &&& command::obeyed(s, "MKD"@, None, up) == no_dir
            &&& command::obeyed(s, "MKD"@, Some(nothing), up) == no_dir
            &&& command::obeyed(s, "XMKD"@, None, up) == no_dir
            &&& command::obeyed(s, "XMKD"@, Some(nothing), up) == no_dir
            &&& command::obeyed(s, "RMD"@, None, up) == no_dir
            &&& command::obeyed(s, "RMD"@, Some(nothing), up) == no_dir
            &&& command::obeyed(s, "XRMD"@, None, up) == no_dir
            &&& command::obeyed(s, "XRMD"@, Some(nothing), up) == no_dir
            &&& command::obeyed(s, "DELE"@, None, up) == no_file
            &&& command::obeyed(s, "DELE"@, Some(nothing), up) == no_file
            &&& command::obeyed(s, "SIZE"@, None, up) == no_file
            &&& command::obeyed(s, "SIZE"@, Some(nothing), up) == no_file
        }),
{
    laws::lemma_verb_names();
}

/// Whether `cmd` is a command that is refused before the client has logged in.
pub open spec fn is_guarded(cmd: Seq<char>) -> bool {
    ||| cmd == "PWD"@
    ||| cmd == "TYPE"@
    ||| cmd == "PASV"@
    ||| cmd == "LIST"@
    ||| cmd == "RETR"@
    ||| cmd == "STOR"@
    ||| cmd == "CWD"@
    ||| cmd == "CDUP"@
    ||| cmd == "MKD"@
    ||| cmd == "XMKD"@
    ||| cmd == "RMD"@
    ||| cmd == "XRMD"@
    ||| cmd == "DELE"@
    ||| cmd == "SIZE"@
}

/// Whether `cmd` is a command that is obeyed before the client has logged in.
pub open spec fn is_free(cmd: Seq<char>) -> bool {
    cmd == "USER"@ || cmd == "PASS"@ || cmd == "SYST"@ || cmd == "QUIT"@ || cmd == "NOOP"@
}

/// Every command that works on files, directories or the data port is refused before the client
/// has logged in, with any argument and in any session, and changes nothing.
pub proof fn law_guarded_commands_need_a_login(
    s: SessionView,
    cmd: Seq<char>,
    arg: Option<Seq<char>>,
    up: Option<Seq<char>>,
)
    requires
        !s.authenticated,
        is_guarded(cmd),
    ensures
        command::obeyed(s, cmd, arg, up) == (
            s,
            ActionView::Reply("530 Please login with USER and PASS\r\n"@),
        ),
{
    laws::lemma_verb_names();
}

/// What the server does not know is answered so, whether or not the client has logged in, and
/// changes nothing.
pub proof fn law_unknown_commands(
    s: SessionView,
    cmd: Seq<char>,
    arg: Option<Seq<char>>,
    up: Option<Seq<char>>,
)
    requires
        !is_guarded(cmd),
        !is_free(cmd),
    ensures
        command::obeyed(s, cmd, arg, up) == (
            s,
            ActionView::Reply("502 Command not implemented\r\n"@),
        ),
{
}

/// The commands that always get the same answer and change nothing, whatever their argument.
pub proof fn law_fixed_answers(s: SessionView, arg: Option<Seq<char>>, up: Option<Seq<char>>)
    ensures
        command::obeyed(s, "SYST"@, arg, up) == (s, ActionView::Reply("215 Windows_NT\r\n"@)),
        command::obeyed(s, "QUIT"@, arg, up) == (s, ActionView::Reply("221 Goodbye\r\n"@)),
        command::obeyed(s, "NOOP"@, arg, up) == (s, ActionView::Reply("200 OK\r\n"@)),
        s.authenticated ==> command::obeyed(s, "TYPE"@, arg, up) == (
            s,
            ActionView::Reply("200 Type set to I\r\n"@),
        ),
        s.authenticated ==> command::obeyed(s, "PASV"@, arg, up) == (s, ActionView::OpenPassive),
{
    laws::lemma_verb_names();
}

/// A user name is noted as it is given, in place of any before it, and told back; the client is
/// logged in or not as before.
pub proof fn law_user_names(s: SessionView, arg: Option<Seq<char>>, up: Option<Seq<char>>)
    ensures
        ({
            let name = match arg {
                Some(name) => name,
                None => Seq::empty(),
            };
            command::obeyed(s, "USER"@, arg, up) == (
                SessionView { username: Some(name), ..s },
                ActionView::Reply("331 User "@ + name + " OK. Password required\r\n"@),
            )
        }),
{
    laws::lemma_verb_names();
}

/// A password logs a client in just when both it and the user name given before are the configured
/// ones, letter for letter.
pub proof fn law_passwords(s: SessionView, arg: Option<Seq<char>>, up: Option<Seq<char>>)
    ensures
        ({
            let password = match arg {
                Some(password) => password,
                None => Seq::empty(),
            };
            command::obeyed(s, "PASS"@, arg, up) == match s.username {
                None => (s, ActionView::Reply("503 Login with USER first\r\n"@)),
                Some(name) => if name == s.config.username && password == s.config.password {
                    (
                        SessionView { authenticated: true, ..s },
                        ActionView::Reply("230 User logged in\r\n"@),
                    )
                } else {
                    (s, ActionView::Reply("530 Login incorrect\r\n"@))
                },
            }
        }),
{
    laws::lemma_verb_names();
}

/// A client is told its current directory, character by character, with slashes for backslashes,
/// and nothing changes.
pub proof fn law_telling_the_directory(
    s: SessionView,
    arg: Option<Seq<char>>,
    up: Option<Seq<char>>,
    shown: Seq<char>,
)
    requires
        s.authenticated,
        shown.len() == s.current_dir.len(),
        forall|i: int|
            0 <= i < shown.len() ==> #[trigger] shown[i] == (if s.current_dir[i] == '\\' {
                '/'
            } else {
                s.current_dir[i]
            }),
    ensures
        command::obeyed(s, "PWD"@, arg, up) == (
            s,
            ActionView::Reply("257 \""@ + shown + "\" is current directory\r\n"@),
        ),
{
    laws::lemma_verb_names();
    assert(text::forward_slashes(s.current_dir) =~= shown);
}

/// Going up leads to the parent of the current directory, and to the top where there is none or it
/// is empty; nothing else changes, and the client is told where it is.
pub proof fn law_going_to_the_parent(
    s: SessionView,
    arg: Option<Seq<char>>,
    up: Option<Seq<char>>,
    shown: Seq<char>,
)
    requires
        s.authenticated,
        ({
            let dir = if up is Some && up->0.len() > 0 {
                up->0
            } else {
                seq!['/']
            };
            &&& shown.len() == dir.len()
            &&& forall|i: int|
                0 <= i < shown.len() ==> #[trigger] shown[i] == (if dir[i] == '\\' {
                    '/'
                } else {
                    dir[i]
                })
        }),
    ensures
        command::obeyed(s, "CDUP"@, arg, up) == (
            SessionView {
                current_dir: if up is Some && up->0.len() > 0 {
                    up->0
                } else {
                    seq!['/']
                },
                ..s
            },
            ActionView::Reply("250 Directory changed to "@ + shown + "\r\n"@),
        ),
{
    laws::lemma_verb_names();
    assert(text::forward_slashes(command::dir_above(up)) =~= shown);
}

/// A path that was found is worked on as it was found, whatever it is: it is listed, entered,
/// created, removed, deleted or measured, under the name that the client gave.
pub proof fn law_found_paths_are_worked_on(s: SessionView, path: Seq<char>, name: Seq<char>)
    ensures
        command::resolved(s, PurposeView::List, Ok(path)) == (
            s,
            ActionView::SendListing {
                path,
                reply: "150 Opening data connection for directory list\r\n226 Transfer complete\r\n"@,
            },
        ),
        command::resolved(s, PurposeView::ChangeDir, Ok(path)) == (
            s,
            ActionView::CheckDir { path },
        ),
        command::resolved(s, PurposeView::MakeDir(name), Ok(path)) == (
            s,
            ActionView::CreateDir { path, name },
        ),
        command::resolved(s, PurposeView::RemoveDir(name), Ok(path)) == (
            s,
            ActionView::RemoveDir { path, name },
        ),
        command::resolved(s, PurposeView::Delete(name), Ok(path)) == (
            s,
            ActionView::DeleteFile { path, name },
        ),
        command::resolved(s, PurposeView::Size, Ok(path)) == (s, ActionView::MeasureFile { path }),
{
}

/// A file that was found is sent or stored over the open data port, which is then used up; without
/// one the client is asked to open it, and nothing changes.
pub proof fn law_transfers(s: SessionView, path: Seq<char>, name: Seq<char>)
    ensures
        ({
            let used = SessionView { pasv_listener: false, ..s };
            let reply = "150 Opening data connection for "@ + name
                + "\r\n226 Transfer complete\r\n"@;
            let refused = (s, ActionView::Reply("425 Use PASV first\r\n"@));
            &&& command::resolved(s, PurposeView::Retrieve(name), Ok(path)) == (
            if s.pasv_listener {
                (used, ActionView::SendFile { path, name, reply })
            } else {
                refused
            })
            &&& command::resolved(s, PurposeView::Store(name), Ok(path)) == (if s.pasv_listener {
                (used, ActionView::ReceiveFile { path, name, reply })
            } else {
                refused
            })
        }),
{
}

/// A path that was refused is answered as the command that named it is, whatever the reason, and
/// nothing changes.
pub proof fn law_refused_paths(s: SessionView, e: PathError, name: Seq<char>)
    ensures
        ({
            let told = |reply: Seq<char>| (s, ActionView::Reply(reply));
            &&& command::resolved(s, PurposeView::List, Err(e)) == told(
                "550 Failed to access directory\r\n"@,
            )
            &&& command::resolved(s, PurposeView::Retrieve(name), Err(e)) == told(
                "550 File not accessible\r\n"@,
            )
            &&& command::resolved(s, PurposeView::Store(name), Err(e)) == told(
                "550 File not accessible\r\n"@,
            )
            &&& command::resolved(s, PurposeView::ChangeDir, Err(e)) == told(
                "550 Directory not found\r\n"@,
            )
            &&& command::resolved(s, PurposeView::MakeDir(name), Err(e)) == told(
                "550 Failed to create directory\r\n"@,
            )
            &&& command::resolved(s, PurposeView::RemoveDir(name), Err(e)) == told(
                "550 Failed to remove directory\r\n"@,
            )
            &&& command::resolved(s, PurposeView::Delete(name), Err(e)) == told(
                "550 File not accessible\r\n"@,
            )
            &&& command::resolved(s, PurposeView::Size, Err(e)) == told(
                "550 File not found\r\n"@,
            )
        }),
{
}

/// The reply for a data port gives the four numbers of the address that the client reached the
/// server at, whatever they are, and the two bytes of the port; for an address of more numbers it
/// gives those of the local host.
pub proof fn law_passive_reply_gives_the_address(a: u8, b: u8, c: u8, d: u8, port: u16)
    ensures
        command::passive_numbers(ServerIp::V4(a, b, c, d), port) == seq![
            a,
            b,
            c,
            d,
            (port / 256) as u8,
            (port % 256) as u8,
        ],
        command::passive_numbers(ServerIp::V6, port) == seq![
            127u8,
            0u8,
            0u8,
            1u8,
            (port / 256) as u8,
            (port % 256) as u8,
        ],
        command::passive_reply(ServerIp::V4(a, b, c, d), port) == "227 Entering Passive Mode ("@
            + listed(a, b, c, d, (port / 256) as u8, (port % 256) as u8) + ")\r\n"@,
        command::passive_reply(ServerIp::V6, port) == "227 Entering Passive Mode ("@ + listed(
            127,
            0,
            0,
            1,
            (port / 256) as u8,
            (port % 256) as u8,
        ) + ")\r\n"@,
{
    lemma_six_numbers(a, b, c, d, (port / 256) as u8, (port % 256) as u8);
    lemma_six_numbers(127, 0, 0, 1, (port / 256) as u8, (port % 256) as u8);
}

/// Six numbers in decimal, with commas between them.
pub open spec fn listed(a: u8, b: u8, c: u8, d: u8, e: u8, f: u8) -> Seq<char> {
    text::decimal(a as nat) + seq![','] + text::decimal(b as nat) + seq![','] + text::decimal(
        c as nat,
    ) + seq![','] + text::decimal(d as nat) + seq![','] + text::decimal(e as nat) + seq![',']
        + text::decimal(f as nat)
}

proof fn lemma_next_number(numbers: Seq<u8>, n: u8)
    requires
        numbers.len() > 0,
    ensures
        text::comma_separated(numbers.push(n)) == text::comma_separated(numbers) + seq![',']
            + text::decimal(n as nat),
{
    assert(numbers.push(n).drop_last() =~= numbers);
    assert(text::comma_separated(numbers).push(',') + text::decimal(n as nat)
        =~= text::comma_separated(numbers) + seq![','] + text::decimal(n as nat));
}

proof fn lemma_six_numbers(a: u8, b: u8, c: u8, d: u8, e: u8, f: u8)
    ensures
        text::comma_separated(seq![a, b, c, d, e, f]) == listed(a, b, c, d, e, f),
{
    lemma_next_number(seq![a], b);
    lemma_next_number(seq![a].push(b), c);
    lemma_next_number(seq![a].push(b).push(c), d);
    lemma_next_number(seq![a].push(b).push(c).push(d), e);
    lemma_next_number(seq![a].push(b).push(c).push(d).push(e), f);
    assert(seq![a, b, c, d, e, f] =~= seq![a].push(b).push(c).push(d).push(e).push(f));
}

/// Two addresses or two ports are told by different replies.
pub proof fn law_different_ports_are_told_apart(
    a1: u8,
    b1: u8,
    c1: u8,
    d1: u8,
    port1: u16,
    a2: u8,
    b2: u8,
    c2: u8,
    d2: u8,
    port2: u16,
)
    requires
        a1 != a2 || b1 != b2 || c1 != c2 || d1 != d2 || port1 != port2,
    ensures
        command::passive_reply(ServerIp::V4(a1, b1, c1, d1), port1) != command::passive_reply(
            ServerIp::V4(a2, b2, c2, d2),
            port2,
        ),
{
    let x = ServerIp::V4(a1, b1, c1, d1);
    let y = ServerIp::V4(a2, b2, c2, d2);
    if command::passive_reply(x, port1) == command::passive_reply(y, port2) {
        laws::law_passive_reply_tells_the_port(x, port1, y, port2);
    }
}

/// What is no directory is not entered, and nothing changes.
pub proof fn law_entering_no_directory(s: SessionView, dir: Seq<char>)
    ensures
        command::changed_dir(s, dir, false) == (s, "550 Not a directory\r\n"@),
{
}

/// Entering a directory leads to the virtual directory that stands for it, and the client is told
/// so; nothing else changes.
pub proof fn law_entering_any_directory(s: SessionView, dir: Seq<char>, virtual_dir: Seq<char>)
    requires
        path::virtual_dir(s.root_dir, dir) == Some(virtual_dir),
    ensures
        command::changed_dir(s, dir, true) == (
            SessionView { current_dir: virtual_dir, ..s },
            "250 Directory changed to "@ + virtual_dir + "\r\n"@,
        ),
{
}

/// Entering the root directory leads to the top; entering one below it leads to what follows the
/// root directory in its path, with slashes for backslashes and one slash in front; nothing else
/// changes, and the client is told where it is.
pub proof fn law_entering_below_the_root(s: SessionView, rest: Seq<char>, shown: Seq<char>)
    requires
        rest.len() > 0,
        rest[0] == '/' || rest[0] == '\\' || (s.root_dir.len() > 0 && (s.root_dir.last() == '/'
            || s.root_dir.last() == '\\')),
        shown.len() == rest.len(),
        forall|i: int|
            0 <= i < shown.len() ==> #[trigger] shown[i] == (if rest[i] == '\\' {
                '/'
            } else {
                rest[i]
            }),
    ensures
        ({
            let dir = if shown[0] == '/' {
                shown
            } else {
                seq!['/'] + shown
            };
            &&& command::changed_dir(s, s.root_dir + rest, true) == (
                SessionView { current_dir: dir, ..s },
                "250 Directory changed to "@ + dir + "\r\n"@,
            )
            &&& command::changed_dir(s, s.root_dir, true) == (
                SessionView { current_dir: seq!['/'], ..s },
                "250 Directory changed to "@ + seq!['/'] + "\r\n"@,
            )
        }),
{
    let d = s.root_dir + rest;
    assert(s.root_dir =~= d.subrange(0, s.root_dir.len() as int));
    assert(d[s.root_dir.len() as int] == rest[0]);
    assert(path::goes_below(s.root_dir, d));
    laws::law_rest_after_root(s.root_dir, rest);
    assert(text::forward_slashes(rest) =~= shown);
}

/// The replies after work in the file system: they tell that it was done, with the name or the size
/// where there is one, or why it failed, in the words of the file system.
pub proof fn law_outcomes(name: Seq<char>, error: Seq<char>, size: u64)
    ensures
        command::created_reply(name, None) == "257 \""@ + name + "\" directory created\r\n"@,
        command::created_reply(name, Some(error)) == "550 Failed to create directory: "@ + error
            + "\r\n"@,
        command::removed_reply(None) == "250 Directory removed\r\n"@,
        command::removed_reply(Some(error)) == "550 Failed to remove directory: "@ + error
            + "\r\n"@,
        command::deleted_reply(None) == "250 File deleted\r\n"@,
        command::deleted_reply(Some(error)) == "550 Failed to delete file: "@ + error + "\r\n"@,
        command::size_reply(Some(size)) == "213 "@ + text::decimal(size as nat) + "\r\n"@,
        command::size_reply(None) == "550 File not found\r\n"@,
{
}

/// A client that enters a directory and names a file there asks for the file in that directory:
/// off Windows, the name follows the directory with one slash between them.
pub proof fn law_naming_after_entering(
    s: SessionView,
    rest: Seq<char>,
    name: Seq<char>,
    up: Option<Seq<char>>,
)
    requires
        s.authenticated,
        rest.len() > 1,
        rest[0] == '/',
        !rest.contains('\\'),
        rest.last() != '/',
        name.len() > 0,
        name[0] != '/',
    ensures
        ({
            let t = command::changed_dir(s, s.root_dir + rest, true).0;
            &&& command::obeyed(t, "RETR"@, Some(name), up).1 == (ActionView::Resolve {
                purpose: PurposeView::Retrieve(name),
                target: TargetView::Joined { dir: rest, path: name },
            })
            &&& path::unix_join(rest, name) == rest + seq!['/'] + name
        }),
{
    assert forall|i: int| 0 <= i < rest.len() implies #[trigger] rest[i] != '\\' by {
        assert(rest.contains(rest[i]));
    }
    law_entering_below_the_root(s, rest, rest);
    let t = command::changed_dir(s, s.root_dir + rest, true).0;
    law_names_start_from_the_current_directory(t, name, up);
    assert(rest.push('/') + name =~= rest + seq!['/'] + name);
}

} // verus!
