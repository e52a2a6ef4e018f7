//! The window that starts and stops the server and shows its log.
use vstd::prelude::*;
use vstd::string::*;

use crate::config::{Config, ConfigView, FtpConfig};
use crate::text;

verus! {

/// The smallest port that can be set.
pub const MIN_PORT: u16 = 1024;

/// The largest port that can be set.
pub const MAX_PORT: u16 = 65535;

/// What the window works on. A running server is stopped by its handle, of the type `H`, and sends
/// its lines for the log to a receiver, of the type `R`.
#[derive(Debug, PartialEq, Eq)]
pub struct FtpServerApp<H, R> {
    pub config: Config,
    pub server_running: bool,
    pub logs: Vec<String>,
    pub log_receiver: Option<R>,
    pub server_handle: Option<H>,
    pub show_about: bool,
}

/// A `FtpServerApp`, with sequences of characters for its texts.
pub struct AppView<H, R> {
    pub config: ConfigView,
    pub server_running: bool,
    pub logs: Seq<Seq<char>>,
    pub log_receiver: Option<R>,
    pub server_handle: Option<H>,
    pub show_about: bool,
}

impl<H, R> View for FtpServerApp<H, R> {
    type V = AppView<H, R>;

    open spec fn view(&self) -> AppView<H, R> {
        AppView {
            config: self.config@,
            server_running: self.server_running,
            logs: self.logs.deep_view(),
            log_receiver: self.log_receiver,
            server_handle: self.server_handle,
            show_about: self.show_about,
        }
    }
}

/// The line above and below a headline of the log.
pub open spec fn rule() -> Seq<char> {
    "========================================"@
}

/// What the log says when the server is started.
pub open spec fn start_lines(config: ConfigView) -> Seq<Seq<char>> {
    seq![
        rule(),
        "  QuickDrop を起動しています..."@,
        rule(),
        "ポート: "@ + text::decimal(config.port as nat),
        "ユーザー名: "@ + config.username,
        "ルートディレクトリ: "@ + config.root_dir,
        rule(),
    ]
}

/// What the log says when the server is stopped.
pub open spec fn stop_lines() -> Seq<Seq<char>> {
    seq![rule(), "  QuickDrop を停止しました"@, rule()]
}

impl<H, R> AppView<H, R> {
    /// The window at first: no server runs and the log is empty.
    pub open spec fn initial(config: ConfigView) -> AppView<H, R> {
        AppView {
            config,
            server_running: false,
            logs: Seq::empty(),
            log_receiver: None,
            server_handle: None,
            show_about: false,
        }
    }

    /// What holds of the window at all times: it has a handle and a receiver just when a server
    /// runs.
    pub open spec fn well_formed(self) -> bool {
        self.server_running == self.server_handle is Some && self.server_running
            == self.log_receiver is Some
    }

    /// The window after a line was added to the log.
    pub open spec fn logged(self, line: Seq<char>) -> AppView<H, R> {
        AppView { logs: self.logs.push(line), ..self }
    }

    /// The window after a start: nothing changes while a server runs.
    pub open spec fn started(self, handle: H, log_receiver: R) -> AppView<H, R> {
        if self.server_running {
            self
        } else {
            AppView {
                server_running: true,
                logs: self.logs + start_lines(self.config),
                log_receiver: Some(log_receiver),
                server_handle: Some(handle),
                ..self
            }
        }
    }

    /// The window after a stop: nothing changes while no server runs.
    pub open spec fn stopped(self) -> AppView<H, R> {
        if self.server_running {
            AppView {
                server_running: false,
                logs: self.logs + stop_lines(),
                log_receiver: None,
                server_handle: None,
                ..self
            }
        } else {
            self
        }
    }

    /// The window after the user picked a directory to be the root directory, or none.
    pub open spec fn selected(self, picked: Option<Seq<char>>) -> AppView<H, R> {
        match picked {
            Some(root_dir) => AppView {
                config: ConfigView { root_dir, ..self.config },
                ..self
            },
            None => self,
        }
    }
}

impl<H, R> FtpServerApp<H, R> {
    /// The window at first: no server runs and the log is empty.
    pub fn new(config: Config) -> (r: FtpServerApp<H, R>)
        ensures
            r@ == AppView::<H, R>::initial(config@),
            r@.well_formed(),
    {
        let r = FtpServerApp {
            config,
            server_running: false,
            logs: Vec::new(),
            log_receiver: None,
            server_handle: None,
            show_about: false,
        };
        assert(r@.logs =~= Seq::empty());
        r
    }

    /// Adds a line to the log.
    pub fn log(&mut self, line: String)
        ensures
            final(self)@ == old(self)@.logged(line@),
    {
        self.logs.push(line);
        assert(self@.logs =~= old(self)@.logs.push(line@));
    }

    /// The settings to start a server with, unless one runs already.
    pub fn settings_to_start(&self) -> (r: Option<FtpConfig>)
        ensures
            r is Some <==> !self@.server_running,
            r matches Some(config) ==> config@ == self@.config,
    {
        if self.server_running {
            None
        } else {
            Some(self.config.to_ftp_config())
        }
    }

    /// Notes that a server was started, with its handle and the receiver of its lines. Where one
    /// runs already, both are given back and nothing changes.
    pub fn start_server(&mut self, handle: H, log_receiver: R) -> (r: Option<(H, R)>)
        ensures
            final(self)@ == old(self)@.started(handle, log_receiver),
            old(self)@.well_formed() ==> final(self)@.well_formed(),
            r == (if old(self)@.server_running {
                Some((handle, log_receiver))
            } else {
                None
            }),
    {
        if self.server_running {
            return Some((handle, log_receiver));
        }
        self.log("========================================".to_string());
        self.log("  QuickDrop を起動しています...".to_string());
        self.log("========================================".to_string());
        let mut port = "ポート: ".to_string();
        text::push_decimal(&mut port, self.config.port as u64);
        self.log(port);
        let mut username = "ユーザー名: ".to_string();
        username.append(self.config.username.as_str());
        self.log(username);
        let mut root_dir = "ルートディレクトリ: ".to_string();
        root_dir.append(self.config.root_dir.as_str());
        self.log(root_dir);
        self.log("========================================".to_string());
        self.log_receiver = Some(log_receiver);
        self.server_handle = Some(handle);
        self.server_running = true;
        assert(self@.logs =~= old(self)@.logs + start_lines(old(self)@.config));
        None
    }

    /// Notes that the server is stopped, and gives the handle to stop it by, if one ran.
    pub fn stop_server(&mut self) -> (r: Option<H>)
        ensures
            final(self)@ == old(self)@.stopped(),
            old(self)@.well_formed() ==> final(self)@.well_formed(),
            r == (if old(self)@.server_running {
                old(self)@.server_handle
            } else {
                None
            }),
    {
        if !self.server_running {
            return None;
        }
        let handle = self.server_handle.take();
        self.log("========================================".to_string());
        self.log("  QuickDrop を停止しました".to_string());
        self.log("========================================".to_string());
        self.server_running = false;
        self.log_receiver = None;
        assert(self@.logs =~= old(self)@.logs + stop_lines());
        handle
    }

    /// Takes the directory that the user picked as the root directory, if one was picked.
    pub fn select_directory(&mut self, picked: Option<String>)
        ensures
            final(self)@ == old(self)@.selected(picked.deep_view()),
    {
        match picked {
            Some(dir) => {
                self.config.root_dir = dir;
            },
            None => {},
        }
    }
}

} // verus!
