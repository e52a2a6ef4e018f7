//! What the window does, and what the settings are.
use vstd::prelude::*;

use crate::config;
use crate::config::ConfigView;
use crate::control;
use crate::control::AppView;
use crate::session::SessionView;
use crate::text;

verus! {

/// The window at first: no server runs, the log is empty, and the settings are those given.
pub proof fn law_new_window<H, R>(config: ConfigView)
    ensures
        ({
            let app = AppView::<H, R>::initial(config);
            &&& app.config == config
            &&& !app.server_running
            &&& app.logs.len() == 0
            &&& app.log_receiver is None
            &&& app.server_handle is None
            &&& !app.show_about
        }),
{
}

/// A line for the log comes after all the others, and nothing else changes.
pub proof fn law_logging<H, R>(app: AppView<H, R>, line: Seq<char>)
    ensures
        app.logged(line) == (AppView { logs: app.logs + seq![line], ..app }),
{
    assert(app.logs.push(line) =~= app.logs + seq![line]);
}

/// Starting where no server runs keeps the handle and the receiver, notes that a server runs, and
/// tells the port, the user name and the root directory in the log; where one runs, nothing changes.
pub proof fn law_starting<H, R>(app: AppView<H, R>, handle: H, receiver: R)
    ensures
        ({
            let rule = "========================================"@;
            app.started(handle, receiver) == (if app.server_running {
                app
            } else {
                AppView {
                    server_running: true,
                    server_handle: Some(handle),
                    log_receiver: Some(receiver),
                    logs: app.logs + seq![
                        rule,
                        "  QuickDrop を起動しています..."@,
                        rule,
                        "ポート: "@ + text::decimal(app.config.port as nat),
                        "ユーザー名: "@ + app.config.username,
                        "ルートディレクトリ: "@ + app.config.root_dir,
                        rule,
                    ],
                    ..app
                }
            })
        }),
{
}

/// Stopping a server lets go of its handle and its receiver, notes that none runs, and tells so in
/// the log; where none runs, nothing changes.
pub proof fn law_stopping<H, R>(app: AppView<H, R>)
    ensures
        ({
            let rule = "========================================"@;
            app.stopped() == (if app.server_running {
                AppView {
                    server_running: false,
                    server_handle: None,
                    log_receiver: None,
                    logs: app.logs + seq![rule, "  QuickDrop を停止しました"@, rule],
                    ..app
                }
            } else {
                app
            })
        }),
{
}

/// A directory that is picked becomes the root directory, whatever it is, and no other setting
/// changes; picking none changes nothing.
pub proof fn law_selecting<H, R>(app: AppView<H, R>, dir: Seq<char>)
    ensures
        app.selected(None) == app,
        app.selected(Some(dir)) == (AppView {
            config: ConfigView {
                port: app.config.port,
                username: app.config.username,
                password: app.config.password,
                root_dir: dir,
            },
            ..app
        }),
{
}

/// The settings of a server that was never configured, and the ports that can be set.
pub proof fn law_default_settings()
    ensures
        config::default_config().port == 2121,
        config::default_config().username == "admin"@,
        config::default_config().password == "password"@,
        config::default_config().root_dir == "./ftp_root"@,
        control::MIN_PORT == 1024,
        control::MAX_PORT == 65535,
{
}

/// A session begins at the top of the root directory, with the settings given; nobody has logged in
/// or given a name, and no data port is open.
pub proof fn law_new_session(config: ConfigView, root_dir: Seq<char>, windows: bool)
    ensures
        ({
            let s = SessionView::initial(config, root_dir, windows);
            &&& !s.authenticated
            &&& s.username is None
            &&& s.current_dir == seq!['/']
            &&& s.root_dir == root_dir
            &&& !s.pasv_listener
            &&& s.config == config
            &&& s.windows == windows
        }),
{
}

} // verus!
