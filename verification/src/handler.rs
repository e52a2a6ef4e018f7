//! How a session handles the commands of its client.
use vstd::prelude::*;
use vstd::string::*;

use crate::command;
use crate::command::{Action, Purpose, ServerIp, Target, Verb};
use crate::path;
use crate::session;
use crate::session::{PathError, Session, SessionView};
use crate::text;

verus! {

/// `a`, `b` and `c`, one after the other.
fn sentence(a: &str, b: &str, c: &str) -> (r: String)
    ensures
        r@ == a@ + b@ + c@,
{
    let mut r = a.to_string();
    r.append(b);
    r.append(c);
    r
}

impl Verb {
    /// The command that `cmd` names.
    pub fn parse(cmd: &str) -> (r: Verb)
        ensures
            r == command::verb(cmd@),
    {
        if text::same(cmd, "USER") {
            Verb::User
        } else if text::same(cmd, "PASS") {
            Verb::Pass
        } else if text::same(cmd, "SYST") {
            Verb::Syst
        } else if text::same(cmd, "PWD") {
            Verb::Pwd
        } else if text::same(cmd, "TYPE") {
            Verb::Type
        } else if text::same(cmd, "PASV") {
            Verb::Pasv
        } else if text::same(cmd, "LIST") {
            Verb::List
        } else if text::same(cmd, "RETR") {
            Verb::Retr
        } else if text::same(cmd, "STOR") {
            Verb::Stor
        } else if text::same(cmd, "CWD") {
            Verb::Cwd
        } else if text::same(cmd, "CDUP") {
            Verb::Cdup
        } else if text::same(cmd, "MKD") || text::same(cmd, "XMKD") {
            Verb::Mkd
        } else if text::same(cmd, "RMD") || text::same(cmd, "XRMD") {
            Verb::Rmd
        } else if text::same(cmd, "DELE") {
            Verb::Dele
        } else if text::same(cmd, "SIZE") {
            Verb::Size
        } else if text::same(cmd, "QUIT") {
            Verb::Quit
        } else if text::same(cmd, "NOOP") {
            Verb::Noop
        } else {
            Verb::Unknown
        }
    }

    /// Whether the command is refused before the client has logged in.
    pub fn login_needed(&self) -> (r: bool)
        ensures
            r == command::needs_login(*self),
    {
        match self {
            Verb::User | Verb::Pass | Verb::Syst | Verb::Quit | Verb::Noop | Verb::Unknown => false,
            _ => true,
        }
    }
}

impl Target {
    /// The virtual path, for a server that runs on Windows or not.
    pub fn virtual_path(&self, windows: bool) -> (r: String)
        ensures
            match self {
                Target::Path(path) => r@ == path@,
                Target::Joined { dir, path } => path::joins_for(dir@, path@, r@, windows),
            },
    {
        match self {
            Target::Path(path) => path.clone(),
            Target::Joined { dir, path } => path::join_for(dir.as_str(), path.as_str(), windows),
        }
    }
}

impl Session {
    /// The virtual path for the name `path` in the current directory.
    fn target(&self, path: &str) -> (r: Target)
        ensures
            r@ == command::target(self.current_dir@, path@),
    {
        if text::starts_with(path, '/') {
            Target::Path(path.to_string())
        } else {
            Target::Joined { dir: self.current_dir.clone(), path: path.to_string() }
        }
    }

    /// The directory that a listing shows.
    fn list_target(&self, arg: Option<&str>) -> (r: Target)
        ensures
            r@ == command::list_target(self@, arg.deep_view()),
    {
        match arg {
            Some(a) => if !a.is_empty() && !text::starts_with(a, '-') {
                self.target(a)
            } else {
                Target::Path(self.current_dir.clone())
            },
            None => Target::Path(self.current_dir.clone()),
        }
    }

    /// Logs the client in if `password` fits the user name that it gave before.
    fn password_given(&mut self, password: &str) -> (r: Action)
        ensures
            (final(self)@, r@) == command::password_checked(old(self)@, password@),
    {
        match &self.username {
            Some(username) => {
                if text::same(username.as_str(), self.config.username.as_str()) && text::same(
                    password,
                    self.config.password.as_str(),
                ) {
                    self.authenticated = true;
                    Action::Reply("230 User logged in\r\n".to_string())
                } else {
                    Action::Reply("530 Login incorrect\r\n".to_string())
                }
            },
            None => Action::Reply("503 Login with USER first\r\n".to_string()),
        }
    }

    /// Handles the command `cmd` with the argument `arg`, where `up` is the parent of the
    /// current directory.
    pub fn obey(&mut self, cmd: &str, arg: Option<&str>, up: Option<&str>) -> (r: Action)
        ensures
            (final(self)@, r@) == command::obeyed(
                old(self)@,
                cmd@,
                arg.deep_view(),
                up.deep_view(),
            ),
    {
        let verb = Verb::parse(cmd);
        if verb.login_needed() && !self.authenticated {
            return Action::Reply("530 Please login with USER and PASS\r\n".to_string());
        }
        let given: &str = match arg {
            Some(a) => a,
            None => "",
        };
        proof {
            reveal_strlit("");
            assert(given@ =~= command::or_empty(arg.deep_view()));
        }
        match verb {
            Verb::User => {
                self.username = Some(given.to_string());
                Action::Reply(sentence("331 User ", given, " OK. Password required\r\n"))
            },
            Verb::Pass => self.password_given(given),
            Verb::Syst => Action::Reply("215 Windows_NT\r\n".to_string()),
            Verb::Pwd => {
                let dir = text::with_forward_slashes(self.current_dir.as_str());
                Action::Reply(sentence("257 \"", dir.as_str(), "\" is current directory\r\n"))
            },
            Verb::Type => Action::Reply("200 Type set to I\r\n".to_string()),
            Verb::Pasv => Action::OpenPassive,
            Verb::List => {
                if self.pasv_listener {
                    self.pasv_listener = false;
                    Action::Resolve { purpose: Purpose::List, target: self.list_target(arg) }
                } else {
                    Action::Reply("425 Use PASV first\r\n".to_string())
                }
            },
            Verb::Retr => Action::Resolve {
                purpose: Purpose::Retrieve(given.to_string()),
                target: self.target(given),
            },
            Verb::Stor => Action::Resolve {
                purpose: Purpose::Store(given.to_string()),
                target: self.target(given),
            },
            Verb::Cwd => {
                let name: &str = match arg {
                    Some(a) => a,
                    None => "/",
                };
                proof {
                    reveal_strlit("/");
                    assert("/"@ =~= seq!['/']);
                }
                Action::Resolve { purpose: Purpose::ChangeDir, target: self.target(name) }
            },
            Verb::Cdup => {
                let dir: &str = match up {
                    Some(d) => if d.is_empty() {
                        "/"
                    } else {
                        d
                    },
                    None => "/",
                };
                proof {
                    reveal_strlit("/");
                    assert("/"@ =~= seq!['/']);
                }
                self.current_dir = dir.to_string();
                let shown = text::with_forward_slashes(dir);
                Action::Reply(sentence("250 Directory changed to ", shown.as_str(), "\r\n"))
            },
            Verb::Mkd => {
                if given.is_empty() {
                    Action::Reply("501 Missing directory name\r\n".to_string())
                } else {
                    Action::Resolve {
                        purpose: Purpose::MakeDir(given.to_string()),
                        target: self.target(given),
                    }
                }
            },
            Verb::Rmd => {
                if given.is_empty() {
                    Action::Reply("501 Missing directory name\r\n".to_string())
                } else {
                    Action::Resolve {
                        purpose: Purpose::RemoveDir(given.to_string()),
                        target: self.target(given),
                    }
                }
            },
            Verb::Dele => {
                if given.is_empty() {
                    Action::Reply("501 Missing file name\r\n".to_string())
                } else {
                    Action::Resolve {
                        purpose: Purpose::Delete(given.to_string()),
                        target: self.target(given),
                    }
                }
            },
            Verb::Size => {
                if given.is_empty() {
                    Action::Reply("501 Missing file name\r\n".to_string())
                } else {
                    Action::Resolve { purpose: Purpose::Size, target: self.target(given) }
                }
            },
            Verb::Quit => Action::Reply("221 Goodbye\r\n".to_string()),
            Verb::Noop => Action::Reply("200 OK\r\n".to_string()),
            Verb::Unknown => Action::Reply("502 Command not implemented\r\n".to_string()),
        }
    }

    /// Handles the command `cmd` with the argument `arg`.
    pub fn handle_command(&mut self, cmd: &str, arg: Option<&str>) -> (r: Action)
        ensures
            exists|up: Option<Seq<char>>|
                #[trigger] path::parent_of(old(self)@.current_dir, up) && (final(self)@, r@)
                    == command::obeyed(old(self)@, cmd@, arg.deep_view(), up),
    {
        let up = path::parent(self.current_dir.as_str());
        match &up {
            Some(dir) => self.obey(cmd, arg, Some(dir.as_str())),
            None => self.obey(cmd, arg, None),
        }
    }

    /// Goes on with a command once the path that it names was looked for.
    pub fn path_resolved(
        &mut self,
        purpose: Purpose,
        resolved: Result<String, PathError>,
    ) -> (r: Action)
        ensures
            (final(self)@, r@) == command::resolved(
                old(self)@,
                purpose@,
                session::path_view(resolved),
            ),
    {
        let path = match resolved {
            Ok(path) => path,
            Err(_) => {
                let reply = match purpose {
                    Purpose::List => "550 Failed to access directory\r\n",
                    Purpose::Retrieve(_) | Purpose::Store(_) | Purpose::Delete(_) =>
                        "550 File not accessible\r\n",
                    Purpose::ChangeDir => "550 Directory not found\r\n",
                    Purpose::MakeDir(_) => "550 Failed to create directory\r\n",
                    Purpose::RemoveDir(_) => "550 Failed to remove directory\r\n",
                    Purpose::Size => "550 File not found\r\n",
                };
                return Action::Reply(reply.to_string());
            },
        };
        match purpose {
            Purpose::List => Action::SendListing {
                path,
                reply:
                    "150 Opening data connection for directory list\r\n226 Transfer complete\r\n".to_string(),
            },
            Purpose::Retrieve(name) => {
                if self.pasv_listener {
                    self.pasv_listener = false;
                    let reply = sentence(
                        "150 Opening data connection for ",
                        name.as_str(),
                        "\r\n226 Transfer complete\r\n",
                    );
                    Action::SendFile { path, name, reply }
                } else {
                    Action::Reply("425 Use PASV first\r\n".to_string())
                }
            },
            Purpose::Store(name) => {
                if self.pasv_listener {
                    self.pasv_listener = false;
                    let reply = sentence(
                        "150 Opening data connection for ",
                        name.as_str(),
                        "\r\n226 Transfer complete\r\n",
                    );
                    Action::ReceiveFile { path, name, reply }
                } else {
                    Action::Reply("425 Use PASV first\r\n".to_string())
                }
            },
            Purpose::ChangeDir => Action::CheckDir { path },
            Purpose::MakeDir(name) => Action::CreateDir { path, name },
            Purpose::RemoveDir(name) => Action::RemoveDir { path, name },
            Purpose::Delete(name) => Action::DeleteFile { path, name },
            Purpose::Size => Action::MeasureFile { path },
        }
    }

    /// Notes that the data port `port` was opened on the server with the address `ip`, and
    /// gives the reply.
    pub fn passive_opened(&mut self, ip: ServerIp, port: u16) -> (r: String)
        ensures
            final(self)@ == (SessionView { pasv_listener: true, ..old(self)@ }),
            r@ == command::passive_reply(ip, port),
    {
        self.pasv_listener = true;
        let (a, b, c, d): (u8, u8, u8, u8) = match ip {
            ServerIp::V4(a, b, c, d) => (a, b, c, d),
            ServerIp::V6 => (127, 0, 0, 1),
        };
        let high: u8 = (port >> 8) as u8;
        let low: u8 = (port & 0xff) as u8;
        assert((port >> 8) as u8 == (port / 256) as u8) by (bit_vector);
        assert((port & 0xff) as u8 == (port % 256) as u8) by (bit_vector);
        let numbers: Vec<u8> = vec![a, b, c, d, high, low];
        assert(numbers@ =~= command::passive_numbers(ip, port));
        let mut list = String::new();
        text::push_separated(&mut list, &numbers);
        assert(list@ =~= text::comma_separated(numbers@));
        sentence("227 Entering Passive Mode (", list.as_str(), ")\r\n")
    }

    /// Makes the real directory `dir` the current one, if it is a directory, and gives the
    /// reply.
    pub fn change_dir(&mut self, dir: &str, is_dir: bool) -> (r: String)
        requires
            is_dir ==> path::virtual_dir(old(self)@.root_dir, dir@) is Some,
        ensures
            (final(self)@, r@) == command::changed_dir(old(self)@, dir@, is_dir),
    {
        if is_dir {
            let current_dir = path::to_virtual_dir(self.root_dir.as_str(), dir).unwrap();
            let reply = sentence("250 Directory changed to ", current_dir.as_str(), "\r\n");
            self.current_dir = current_dir;
            reply
        } else {
            "550 Not a directory\r\n".to_string()
        }
    }

    /// Makes the real directory `dir` the current one, if it is a directory, and gives the
    /// reply. `None`, with nothing changed, for a directory whose path cannot be cut at the
    /// length of that of the root directory.
    pub fn try_change_dir(&mut self, dir: &str, is_dir: bool) -> (r: Option<String>)
        ensures
            match r {
                Some(reply) => {
                    &&& is_dir ==> path::virtual_dir(old(self)@.root_dir, dir@) is Some
                    &&& (final(self)@, reply@) == command::changed_dir(old(self)@, dir@, is_dir)
                },
                None => {
                    &&& is_dir
                    &&& path::virtual_dir(old(self)@.root_dir, dir@) is None
                    &&& final(self)@ == old(self)@
                },
            },
    {
        if is_dir && path::to_virtual_dir(self.root_dir.as_str(), dir).is_none() {
            None
        } else {
            Some(self.change_dir(dir, is_dir))
        }
    }
}

/// The reply after an attempt to create the directory that the client calls `name`.
pub fn directory_created(name: &str, outcome: Result<(), String>) -> (r: String)
    ensures
        r@ == command::created_reply(
            name@,
            match outcome {
                Ok(_) => None,
                Err(e) => Some(e@),
            },
        ),
{
    match outcome {
        Ok(_) => sentence("257 \"", name, "\" directory created\r\n"),
        Err(e) => sentence("550 Failed to create directory: ", e.as_str(), "\r\n"),
    }
}

/// The reply after an attempt to remove a directory.
pub fn directory_removed(outcome: Result<(), String>) -> (r: String)
    ensures
        r@ == command::removed_reply(
            match outcome {
                Ok(_) => None,
                Err(e) => Some(e@),
            },
        ),
{
    match outcome {
        Ok(_) => "250 Directory removed\r\n".to_string(),
        Err(e) => sentence("550 Failed to remove directory: ", e.as_str(), "\r\n"),
    }
}

/// The reply after an attempt to delete a file.
pub fn file_deleted(outcome: Result<(), String>) -> (r: String)
    ensures
        r@ == command::deleted_reply(
            match outcome {
                Ok(_) => None,
                Err(e) => Some(e@),
            },
        ),
{
    match outcome {
        Ok(_) => "250 File deleted\r\n".to_string(),
        Err(e) => sentence("550 Failed to delete file: ", e.as_str(), "\r\n"),
    }
}

/// The reply that tells the size of a file, if it could be had.
pub fn file_measured(size: Option<u64>) -> (r: String)
    ensures
        r@ == command::size_reply(size),
{
    match size {
        Some(n) => {
            let mut r = "213 ".to_string();
            text::push_decimal(&mut r, n);
            r.append("\r\n");
            r
        },
        None => "550 File not found\r\n".to_string(),
    }
}

} // verus!
