//! The commands of the control connection. A command is answered at once, or it asks for work in
//! the file system or on the network; what came of that work leads to the next step.
use vstd::prelude::*;
use vstd::string::*;

use crate::path;
use crate::session::{PathError, SessionView};
use crate::text;

verus! {

/// The commands that the server knows.
#[derive(Clone, Copy, Debug, PartialEq, Eq, Structural)]
pub enum Verb {
    User,
    Pass,
    Syst,
    Pwd,
    Type,
    Pasv,
    List,
    Retr,
    Stor,
    Cwd,
    Cdup,
    Mkd,
    Rmd,
    Dele,
    Size,
    Quit,
    Noop,
    Unknown,
}

/// A virtual path, or what it is to be joined from.
#[derive(Debug, PartialEq, Eq)]
pub enum Target {
    Path(String),
    Joined { dir: String, path: String },
}

/// A `Target`, with sequences of characters for its texts.
pub enum TargetView {
    Path(Seq<char>),
    Joined { dir: Seq<char>, path: Seq<char> },
}

impl View for Target {
    type V = TargetView;

    open spec fn view(&self) -> TargetView {
        match self {
            Target::Path(path) => TargetView::Path(path@),
            Target::Joined { dir, path } => TargetView::Joined { dir: dir@, path: path@ },
        }
    }
}

/// What a path is looked for; the text is the name that the client gave.
#[derive(Debug, PartialEq, Eq)]
pub enum Purpose {
    List,
    Retrieve(String),
    Store(String),
    ChangeDir,
    MakeDir(String),
    RemoveDir(String),
    Delete(String),
    Size,
}

/// A `Purpose`, with sequences of characters for its texts.
pub enum PurposeView {
    List,
    Retrieve(Seq<char>),
    Store(Seq<char>),
    ChangeDir,
    MakeDir(Seq<char>),
    RemoveDir(Seq<char>),
    Delete(Seq<char>),
    Size,
}

impl View for Purpose {
    type V = PurposeView;

    open spec fn view(&self) -> PurposeView {
        match self {
            Purpose::List => PurposeView::List,
            Purpose::Retrieve(name) => PurposeView::Retrieve(name@),
            Purpose::Store(name) => PurposeView::Store(name@),
            Purpose::ChangeDir => PurposeView::ChangeDir,
            Purpose::MakeDir(name) => PurposeView::MakeDir(name@),
            Purpose::RemoveDir(name) => PurposeView::RemoveDir(name@),
            Purpose::Delete(name) => PurposeView::Delete(name@),
            Purpose::Size => PurposeView::Size,
        }
    }
}

/// What is to be done next for a command.
#[derive(Debug, PartialEq, Eq)]
pub enum Action {
    /// Send this reply; the command is done.
    Reply(String),
    /// Open a data port, then go on with `passive_opened`.
    OpenPassive,
    /// Find the real path of `target`, then go on with `path_resolved`.
    Resolve { purpose: Purpose, target: Target },
    /// Send the listing of the directory `path` over the data port, and send the reply.
    SendListing { path: String, reply: String },
    /// Send the file `path` over the data port, and send the reply.
    SendFile { path: String, name: String, reply: String },
    /// Store what comes over the data port in the file `path`, and send the reply.
    ReceiveFile { path: String, name: String, reply: String },
    /// Find out whether `path` is a directory, then go on with `try_change_dir`.
    CheckDir { path: String },
    /// Create the directory `path`, then go on with `directory_created`.
    CreateDir { path: String, name: String },
    /// Remove the directory `path`, then go on with `directory_removed`.
    RemoveDir { path: String, name: String },
    /// Remove the file `path`, then go on with `file_deleted`.
    DeleteFile { path: String, name: String },
    /// Find the size of the file `path`, then go on with `file_measured`.
    MeasureFile { path: String },
}

/// An `Action`, with sequences of characters for its texts.
pub enum ActionView {
    Reply(Seq<char>),
    OpenPassive,
    Resolve { purpose: PurposeView, target: TargetView },
    SendListing { path: Seq<char>, reply: Seq<char> },
    SendFile { path: Seq<char>, name: Seq<char>, reply: Seq<char> },
    ReceiveFile { path: Seq<char>, name: Seq<char>, reply: Seq<char> },
    CheckDir { path: Seq<char> },
    CreateDir { path: Seq<char>, name: Seq<char> },
    RemoveDir { path: Seq<char>, name: Seq<char> },
    DeleteFile { path: Seq<char>, name: Seq<char> },
    MeasureFile { path: Seq<char> },
}

impl View for Action {
    type V = ActionView;

    open spec fn view(&self) -> ActionView {
        match self {
            Action::Reply(reply) => ActionView::Reply(reply@),
            Action::OpenPassive => ActionView::OpenPassive,
            Action::Resolve { purpose, target } => ActionView::Resolve {
                purpose: purpose@,
                target: target@,
            },
            Action::SendListing { path, reply } => ActionView::SendListing {
                path: path@,
                reply: reply@,
            },
            Action::SendFile { path, name, reply } => ActionView::SendFile {
                path: path@,
                name: name@,
                reply: reply@,
            },
            Action::ReceiveFile { path, name, reply } => ActionView::ReceiveFile {
                path: path@,
                name: name@,
                reply: reply@,
            },
            Action::CheckDir { path } => ActionView::CheckDir { path: path@ },
            Action::CreateDir { path, name } => ActionView::CreateDir {
                path: path@,
                name: name@,
            },
            Action::RemoveDir { path, name } => ActionView::RemoveDir {
                path: path@,
                name: name@,
            },
            Action::DeleteFile { path, name } => ActionView::DeleteFile {
                path: path@,
                name: name@,
            },
            Action::MeasureFile { path } => ActionView::MeasureFile { path: path@ },
        }
    }
}

/// The address of the server that a client is connected to.
#[derive(Clone, Copy, Debug, PartialEq, Eq, Structural)]
pub enum ServerIp {
    V4(u8, u8, u8, u8),
    V6,
}

/// The command that `cmd` names.
pub open spec fn verb(cmd: Seq<char>) -> Verb {
    if cmd == "USER"@ {
        Verb::User
    } else if cmd == "PASS"@ {
        Verb::Pass
    } else if cmd == "SYST"@ {
        Verb::Syst
    } else if cmd == "PWD"@ {
        Verb::Pwd
    } else if cmd == "TYPE"@ {
        Verb::Type
    } else if cmd == "PASV"@ {
        Verb::Pasv
    } else if cmd == "LIST"@ {
        Verb::List
    } else if cmd == "RETR"@ {
        Verb::Retr
    } else if cmd == "STOR"@ {
        Verb::Stor
    } else if cmd == "CWD"@ {
        Verb::Cwd
    } else if cmd == "CDUP"@ {
        Verb::Cdup
    } else if cmd == "MKD"@ || cmd == "XMKD"@ {
        Verb::Mkd
    } else if cmd == "RMD"@ || cmd == "XRMD"@ {
        Verb::Rmd
    } else if cmd == "DELE"@ {
        Verb::Dele
    } else if cmd == "SIZE"@ {
        Verb::Size
    } else if cmd == "QUIT"@ {
        Verb::Quit
    } else if cmd == "NOOP"@ {
        Verb::Noop
    } else {
        Verb::Unknown
    }
}

/// Whether a command is refused before the client has logged in.
pub open spec fn needs_login(v: Verb) -> bool {
    match v {
        Verb::User | Verb::Pass | Verb::Syst | Verb::Quit | Verb::Noop | Verb::Unknown => false,
        _ => true,
    }
}

/// The reply to a command that is refused before the client has logged in.
pub open spec fn login_required() -> Seq<char> {
    "530 Please login with USER and PASS\r\n"@
}

/// The virtual path for the name `path` in the directory `dir`.
pub open spec fn target(dir: Seq<char>, path: Seq<char>) -> TargetView {
    if text::begins_with(path, '/') {
        TargetView::Path(path)
    } else {
        TargetView::Joined { dir, path }
    }
}

/// The step that looks for the name `path` in the current directory.
pub open spec fn resolve(s: SessionView, purpose: PurposeView, path: Seq<char>) -> ActionView {
    ActionView::Resolve { purpose, target: target(s.current_dir, path) }
}

/// The directory that a listing shows: the one that is named, or the current one where the
/// argument is missing or an option.
pub open spec fn list_target(s: SessionView, arg: Option<Seq<char>>) -> TargetView {
    match arg {
        Some(a) => if a.len() > 0 && !text::begins_with(a, '-') {
            target(s.current_dir, a)
        } else {
            TargetView::Path(s.current_dir)
        },
        None => TargetView::Path(s.current_dir),
    }
}

/// The current directory after going up, where `up` is the parent of the one before.
pub open spec fn dir_above(up: Option<Seq<char>>) -> Seq<char> {
    match up {
        Some(dir) => if dir.len() > 0 {
            dir
        } else {
            seq!['/']
        },
        None => seq!['/'],
    }
}

/// The argument of a command, empty if it has none.
pub open spec fn or_empty(arg: Option<Seq<char>>) -> Seq<char> {
    match arg {
        Some(a) => a,
        None => Seq::empty(),
    }
}

/// Whether the client may log in with `password` under the user name that it gave.
pub open spec fn credentials_match(s: SessionView, password: Seq<char>) -> bool {
    s.username == Some(s.config.username) && password == s.config.password
}

/// The session and the step after the client gave a password.
pub open spec fn password_checked(s: SessionView, password: Seq<char>) -> (
    SessionView,
    ActionView,
) {
    if s.username is None {
        (s, ActionView::Reply("503 Login with USER first\r\n"@))
    } else if credentials_match(s, password) {
        (
            SessionView { authenticated: true, ..s },
            ActionView::Reply("230 User logged in\r\n"@),
        )
    } else {
        (s, ActionView::Reply("530 Login incorrect\r\n"@))
    }
}

/// The session and the step after a command; `up` is the parent of the current directory.
pub open spec fn obeyed(
    s: SessionView,
    cmd: Seq<char>,
    arg: Option<Seq<char>>,
    up: Option<Seq<char>>,
) -> (SessionView, ActionView) {
    let v = verb(cmd);
    if needs_login(v) && !s.authenticated {
        (s, ActionView::Reply(login_required()))
    } else {
        match v {
            Verb::User => (
                SessionView { username: Some(or_empty(arg)), ..s },
                ActionView::Reply("331 User "@ + or_empty(arg) + " OK. Password required\r\n"@),
            ),
            Verb::Pass => password_checked(s, or_empty(arg)),
            Verb::Syst => (s, ActionView::Reply("215 Windows_NT\r\n"@)),
            Verb::Pwd => (
                s,
                ActionView::Reply(
                    "257 \""@ + text::forward_slashes(s.current_dir)
                        + "\" is current directory\r\n"@,
                ),
            ),
            Verb::Type => (s, ActionView::Reply("200 Type set to I\r\n"@)),
            Verb::Pasv => (s, ActionView::OpenPassive),
            Verb::List => if s.pasv_listener {
                (
                    SessionView { pasv_listener: false, ..s },
                    ActionView::Resolve {
                        purpose: PurposeView::List,
                        target: list_target(s, arg),
                    },
                )
            } else {
                (s, ActionView::Reply("425 Use PASV first\r\n"@))
            },
            Verb::Retr => (s, resolve(s, PurposeView::Retrieve(or_empty(arg)), or_empty(arg))),
            Verb::Stor => (s, resolve(s, PurposeView::Store(or_empty(arg)), or_empty(arg))),
            Verb::Cwd => (
                s,
                resolve(
                    s,
                    PurposeView::ChangeDir,
                    match arg {
                        Some(a) => a,
                        None => seq!['/'],
                    },
                ),
            ),
            Verb::Cdup => (
                SessionView { current_dir: dir_above(up), ..s },
                ActionView::Reply(
                    "250 Directory changed to "@ + text::forward_slashes(dir_above(up))
                        + "\r\n"@,
                ),
            ),
            Verb::Mkd => if or_empty(arg).len() > 0 {
                (s, resolve(s, PurposeView::MakeDir(or_empty(arg)), or_empty(arg)))
            } else {
                (s, ActionView::Reply("501 Missing directory name\r\n"@))
            },
            Verb::Rmd => if or_empty(arg).len() > 0 {
                (s, resolve(s, PurposeView::RemoveDir(or_empty(arg)), or_empty(arg)))
            } else {
                (s, ActionView::Reply("501 Missing directory name\r\n"@))
            },
            Verb::Dele => if or_empty(arg).len() > 0 {
                (s, resolve(s, PurposeView::Delete(or_empty(arg)), or_empty(arg)))
            } else {
                (s, ActionView::Reply("501 Missing file name\r\n"@))
            },
            Verb::Size => if or_empty(arg).len() > 0 {
                (s, resolve(s, PurposeView::Size, or_empty(arg)))
            } else {
                (s, ActionView::Reply("501 Missing file name\r\n"@))
            },
            Verb::Quit => (s, ActionView::Reply("221 Goodbye\r\n"@)),
            Verb::Noop => (s, ActionView::Reply("200 OK\r\n"@)),
            Verb::Unknown => (s, ActionView::Reply("502 Command not implemented\r\n"@)),
        }
    }
}

/// The reply where the path that a command names is refused.
pub open spec fn refusal(purpose: PurposeView) -> Seq<char> {
    match purpose {
        PurposeView::List => "550 Failed to access directory\r\n"@,
        PurposeView::Retrieve(_) | PurposeView::Store(_) | PurposeView::Delete(_) =>
            "550 File not accessible\r\n"@,
        PurposeView::ChangeDir => "550 Directory not found\r\n"@,
        PurposeView::MakeDir(_) => "550 Failed to create directory\r\n"@,
        PurposeView::RemoveDir(_) => "550 Failed to remove directory\r\n"@,
        PurposeView::Size => "550 File not found\r\n"@,
    }
}

/// The reply to a command that moves the file `name` over the data port.
pub open spec fn transfer_reply(name: Seq<char>) -> Seq<char> {
    "150 Opening data connection for "@ + name + "\r\n226 Transfer complete\r\n"@
}

/// The session and the step after the path that a command names was looked for.
pub open spec fn resolved(
    s: SessionView,
    purpose: PurposeView,
    path: Result<Seq<char>, PathError>,
) -> (SessionView, ActionView) {
    match path {
        Err(_) => (s, ActionView::Reply(refusal(purpose))),
        Ok(path) => match purpose {
            PurposeView::List => (
                s,
                ActionView::SendListing {
                    path,
                    reply: "150 Opening data connection for directory list\r\n226 Transfer complete\r\n"@,
                },
            ),
            PurposeView::Retrieve(name) => if s.pasv_listener {
                (
                    SessionView { pasv_listener: false, ..s },
                    ActionView::SendFile { path, name, reply: transfer_reply(name) },
                )
            } else {
                (s, ActionView::Reply("425 Use PASV first\r\n"@))
            },
            PurposeView::Store(name) => if s.pasv_listener {
                (
                    SessionView { pasv_listener: false, ..s },
                    ActionView::ReceiveFile { path, name, reply: transfer_reply(name) },
                )
            } else {
                (s, ActionView::Reply("425 Use PASV first\r\n"@))
            },
            PurposeView::ChangeDir => (s, ActionView::CheckDir { path }),
            PurposeView::MakeDir(name) => (s, ActionView::CreateDir { path, name }),
            PurposeView::RemoveDir(name) => (s, ActionView::RemoveDir { path, name }),
            PurposeView::Delete(name) => (s, ActionView::DeleteFile { path, name }),
            PurposeView::Size => (s, ActionView::MeasureFile { path }),
        },
    }
}

/// The four numbers of an address; those of the local host for an address that has more.
pub open spec fn octets(ip: ServerIp) -> (u8, u8, u8, u8) {
    match ip {
        ServerIp::V4(a, b, c, d) => (a, b, c, d),
        ServerIp::V6 => (127, 0, 0, 1),
    }
}

/// The numbers that tell a client where the data port is: those of the address, and the high and
/// the low byte of the port.
pub open spec fn passive_numbers(ip: ServerIp, port: u16) -> Seq<u8> {
    let (a, b, c, d) = octets(ip);
    seq![a, b, c, d, (port / 256) as u8, (port % 256) as u8]
}

/// The reply that tells a client where the data port is.
pub open spec fn passive_reply(ip: ServerIp, port: u16) -> Seq<char> {
    "227 Entering Passive Mode ("@ + text::comma_separated(passive_numbers(ip, port)) + ")\r\n"@
}

/// The session and the reply after a change to the directory `dir`, which was found to be one
/// or not.
pub open spec fn changed_dir(s: SessionView, dir: Seq<char>, is_dir: bool) -> (
    SessionView,
    Seq<char>,
)
    recommends
        is_dir ==> path::virtual_dir(s.root_dir, dir) is Some,
{
    if is_dir {
        let current_dir = path::virtual_dir(s.root_dir, dir)->0;
        (
            SessionView { current_dir, ..s },
            "250 Directory changed to "@ + current_dir + "\r\n"@,
        )
    } else {
        (s, "550 Not a directory\r\n"@)
    }
}

/// The reply after an attempt to create the directory that the client calls `name`.
pub open spec fn created_reply(name: Seq<char>, error: Option<Seq<char>>) -> Seq<char> {
    match error {
        None => "257 \""@ + name + "\" directory created\r\n"@,
        Some(e) => "550 Failed to create directory: "@ + e + "\r\n"@,
    }
}

/// The reply after an attempt to remove a directory.
pub open spec fn removed_reply(error: Option<Seq<char>>) -> Seq<char> {
    match error {
        None => "250 Directory removed\r\n"@,
        Some(e) => "550 Failed to remove directory: "@ + e + "\r\n"@,
    }
}

/// The reply after an attempt to delete a file.
pub open spec fn deleted_reply(error: Option<Seq<char>>) -> Seq<char> {
    match error {
        None => "250 File deleted\r\n"@,
        Some(e) => "550 Failed to delete file: "@ + e + "\r\n"@,
    }
}

/// The reply that tells the size of a file, if it could be had.
pub open spec fn size_reply(size: Option<u64>) -> Seq<char> {
    match size {
        Some(n) => "213 "@ + text::decimal(n as nat) + "\r\n"@,
        None => "550 File not found\r\n"@,
    }
}

} // verus!
