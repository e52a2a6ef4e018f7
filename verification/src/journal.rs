//! The lines that the server sends to the log of the window.
use vstd::prelude::*;
use vstd::string::*;

use crate::command;
use crate::command::{ActionView, Verb};
use crate::session::{Session, SessionView};
use crate::text;

verus! {

/// Work in the file system that is told in the log, done or failed.
#[derive(Clone, Copy, Debug, PartialEq, Eq, Structural)]
pub enum Work {
    MakeDir,
    RemoveDir,
    DeleteFile,
}

/// What is told in the log.
#[derive(Debug, PartialEq, Eq)]
pub enum Event {
    /// A client has connected.
    Connected,
    /// A client has closed the connection.
    Closed,
    /// A client has sent this command.
    Received(String),
    /// A session is over.
    Ended,
    /// A client has logged in under this name.
    LoggedIn(String),
    /// A client has failed to log in under this name.
    LoginFailed(String),
    /// This was done for a client.
    Done { work: Work, name: String },
    /// This could not be done for a client.
    Failed { work: Work, name: String, error: String },
    /// A listing was sent.
    ListingSent,
    /// This file was sent.
    FileSent(String),
    /// This file was stored.
    FileStored(String),
    /// The root directory was created.
    RootCreated(String),
    /// The canonical path of the root directory.
    RootFound(String),
    /// The server listens at this address.
    Listening(String),
    /// A session has ended with an error.
    ClientError(String),
    /// A connection could not be accepted.
    AcceptError(String),
}

/// An `Event`, with sequences of characters for its texts.
pub enum EventView {
    Connected,
    Closed,
    Received(Seq<char>),
    Ended,
    LoggedIn(Seq<char>),
    LoginFailed(Seq<char>),
    Done { work: Work, name: Seq<char> },
    Failed { work: Work, name: Seq<char>, error: Seq<char> },
    ListingSent,
    FileSent(Seq<char>),
    FileStored(Seq<char>),
    RootCreated(Seq<char>),
    RootFound(Seq<char>),
    Listening(Seq<char>),
    ClientError(Seq<char>),
    AcceptError(Seq<char>),
}

impl View for Event {
    type V = EventView;

    open spec fn view(&self) -> EventView {
        match self {
            Event::Connected => EventView::Connected,
            Event::Closed => EventView::Closed,
            Event::Received(line) => EventView::Received(line@),
            Event::Ended => EventView::Ended,
            Event::LoggedIn(username) => EventView::LoggedIn(username@),
            Event::LoginFailed(username) => EventView::LoginFailed(username@),
            Event::Done { work, name } => EventView::Done { work: *work, name: name@ },
            Event::Failed { work, name, error } => EventView::Failed {
                work: *work,
                name: name@,
                error: error@,
            },
            Event::ListingSent => EventView::ListingSent,
            Event::FileSent(name) => EventView::FileSent(name@),
            Event::FileStored(name) => EventView::FileStored(name@),
            Event::RootCreated(root_dir) => EventView::RootCreated(root_dir@),
            Event::RootFound(root_dir) => EventView::RootFound(root_dir@),
            Event::Listening(address) => EventView::Listening(address@),
            Event::ClientError(error) => EventView::ClientError(error@),
            Event::AcceptError(error) => EventView::AcceptError(error@),
        }
    }
}

/// What the log calls some work.
pub open spec fn work_name(work: Work) -> Seq<char> {
    match work {
        Work::MakeDir => "ディレクトリ作成"@,
        Work::RemoveDir => "ディレクトリ削除"@,
        Work::DeleteFile => "ファイル削除"@,
    }
}

/// A line about the client at the address `peer`.
pub open spec fn of_client(peer: Seq<char>, what: Seq<char>) -> Seq<char> {
    "["@ + peer + "] "@ + what
}

/// The line of the log for `event`, which concerns the client at the address `peer` if it concerns
/// any.
pub open spec fn log_line(event: EventView, peer: Seq<char>) -> Seq<char> {
    match event {
        EventView::Connected => of_client(peer, "新しい接続"@),
        EventView::Closed => of_client(peer, "接続が閉じられました"@),
        EventView::Received(line) => of_client(peer, "コマンド: "@ + line),
        EventView::Ended => of_client(peer, "セッション終了"@),
        EventView::LoggedIn(username) => of_client(peer, "認証成功: "@ + username),
        EventView::LoginFailed(username) => of_client(peer, "認証失敗: "@ + username),
        EventView::Done { work, name } => of_client(peer, work_name(work) + ": "@ + name),
        EventView::Failed { work, name, error } => of_client(
            peer,
            work_name(work) + "失敗: "@ + name + " - "@ + error,
        ),
        EventView::ListingSent => "LIST コマンド完了"@,
        EventView::FileSent(name) => "ダウンロード完了: "@ + name,
        EventView::FileStored(name) => "アップロード完了: "@ + name,
        EventView::RootCreated(root_dir) => "ルートディレクトリを作成しました: "@ + root_dir,
        EventView::RootFound(root_dir) => "正規化されたルートディレクトリ: "@ + root_dir,
        EventView::Listening(address) => "FTPサーバを起動しました: "@ + address,
        EventView::ClientError(error) => "クライアント処理エラー: "@ + error,
        EventView::AcceptError(error) => "接続受け入れエラー: "@ + error,
    }
}

/// What is told of a command that is about to be obeyed, if it is a password for a user name:
/// whether it logs the client in.
pub open spec fn login_told(s: SessionView, cmd: Seq<char>, arg: Option<Seq<char>>) -> Option<
    EventView,
> {
    match s.username {
        Some(username) => if command::verb(cmd) != Verb::Pass {
            None
        } else if command::credentials_match(s, command::or_empty(arg)) {
            Some(EventView::LoggedIn(username))
        } else {
            Some(EventView::LoginFailed(username))
        },
        None => None,
    }
}

/// An event, if there is one, with sequences of characters for its texts.
pub open spec fn event_view(event: Option<Event>) -> Option<EventView> {
    match event {
        Some(event) => Some(event@),
        None => None,
    }
}

fn joined(a: &str, b: &str) -> (r: String)
    ensures
        r@ == a@ + b@,
{
    let mut r = a.to_string();
    r.append(b);
    r
}

fn client_line(peer: &str, what: &str) -> (r: String)
    ensures
        r@ == of_client(peer@, what@),
{
    let mut r = joined("[", peer);
    r.append("] ");
    r.append(what);
    r
}

impl Work {
    /// What the log calls the work.
    pub fn name(&self) -> (r: &'static str)
        ensures
            r@ == work_name(*self),
    {
        match self {
            Work::MakeDir => "ディレクトリ作成",
            Work::RemoveDir => "ディレクトリ削除",
            Work::DeleteFile => "ファイル削除",
        }
    }

    /// What is told of the work once it was tried on what the client calls `name`.
    pub fn outcome(&self, name: &str, outcome: &Result<(), String>) -> (r: Event)
        ensures
            r@ == (match outcome {
                Ok(_) => EventView::Done { work: *self, name: name@ },
                Err(error) => EventView::Failed { work: *self, name: name@, error: error@ },
            }),
    {
        match outcome {
            Ok(_) => Event::Done { work: *self, name: name.to_string() },
            Err(error) => Event::Failed {
                work: *self,
                name: name.to_string(),
                error: error.clone(),
            },
        }
    }
}

impl Event {
    /// The line of the log for the event, which concerns the client at the address `peer` if it
    /// concerns any.
    pub fn line(&self, peer: &str) -> (r: String)
        ensures
            r@ == log_line(self@, peer@),
    {
        match self {
            Event::Connected => client_line(peer, "新しい接続"),
            Event::Closed => client_line(peer, "接続が閉じられました"),
            Event::Received(line) => client_line(
                peer,
                joined("コマンド: ", line.as_str()).as_str(),
            ),
            Event::Ended => client_line(peer, "セッション終了"),
            Event::LoggedIn(username) => client_line(
                peer,
                joined("認証成功: ", username.as_str()).as_str(),
            ),
            Event::LoginFailed(username) => client_line(
                peer,
                joined("認証失敗: ", username.as_str()).as_str(),
            ),
            Event::Done { work, name } => {
                let mut what = joined(work.name(), ": ");
                what.append(name.as_str());
                client_line(peer, what.as_str())
            },
            Event::Failed { work, name, error } => {
                let mut what = joined(work.name(), "失敗: ");
                what.append(name.as_str());
                what.append(" - ");
                what.append(error.as_str());
                client_line(peer, what.as_str())
            },
            Event::ListingSent => "LIST コマンド完了".to_string(),
            Event::FileSent(name) => joined("ダウンロード完了: ", name.as_str()),
            Event::FileStored(name) => joined("アップロード完了: ", name.as_str()),
            Event::RootCreated(root_dir) => joined(
                "ルートディレクトリを作成しました: ",
                root_dir.as_str(),
            ),
            Event::RootFound(root_dir) => joined(
                "正規化されたルートディレクトリ: ",
                root_dir.as_str(),
            ),
            Event::Listening(address) => joined("FTPサーバを起動しました: ", address.as_str()),
            Event::ClientError(error) => joined("クライアント処理エラー: ", error.as_str()),
            Event::AcceptError(error) => joined("接続受け入れエラー: ", error.as_str()),
        }
    }
}

impl Session {
    /// What is told of the command `cmd` with the argument `arg` before it is obeyed, if it is a
    /// password for a user name: whether it logs the client in.
    pub fn login_event(&self, cmd: &str, arg: Option<&str>) -> (r: Option<Event>)
        ensures
            event_view(r) == login_told(self@, cmd@, arg.deep_view()),
    {
        let password: &str = match arg {
            Some(a) => a,
            None => "",
        };
        proof {
            reveal_strlit("");
            assert(password@ =~= command::or_empty(arg.deep_view()));
        }
        match &self.username {
            Some(username) => match Verb::parse(cmd) {
                Verb::Pass => if text::same(
                    username.as_str(),
                    self.config.username.as_str(),
                ) && text::same(password, self.config.password.as_str()) {
                    Some(Event::LoggedIn(username.clone()))
                } else {
                    Some(Event::LoginFailed(username.clone()))
                },
                _ => None,
            },
            None => None,
        }
    }
}

/// The log tells of a login what the client is told: a client that is told to have logged in is
/// logged as having done so, one that is refused as having failed, and no other answer to a
/// password is logged.
pub proof fn law_logins_are_told(
    s: SessionView,
    cmd: Seq<char>,
    arg: Option<Seq<char>>,
    up: Option<Seq<char>>,
)
    requires
        command::verb(cmd) == Verb::Pass,
    ensures
        match login_told(s, cmd, arg) {
            Some(EventView::LoggedIn(username)) => {
                &&& s.username == Some(username)
                &&& command::obeyed(s, cmd, arg, up) == (
                    SessionView { authenticated: true, ..s },
                    ActionView::Reply("230 User logged in\r\n"@),
                )
            },
            Some(EventView::LoginFailed(username)) => {
                &&& s.username == Some(username)
                &&& command::obeyed(s, cmd, arg, up) == (
                    s,
                    ActionView::Reply("530 Login incorrect\r\n"@),
                )
            },
            Some(_) => false,
            None => command::obeyed(s, cmd, arg, up) == (
                s,
                ActionView::Reply("503 Login with USER first\r\n"@),
            ),
        },
{
}

} // verus!
