//! The settings of the server.
use vstd::prelude::*;

verus! {

/// The settings that a running server works with.
#[derive(Debug, PartialEq, Eq)]
pub struct FtpConfig {
    pub port: u16,
    pub username: String,
    pub password: String,
    pub root_dir: String,
}

/// The settings that a user edits and that are kept between runs.
#[derive(Debug, PartialEq, Eq)]
pub struct Config {
    pub port: u16,
    pub username: String,
    pub password: String,
    pub root_dir: String,
}

/// What both kinds of settings hold.
pub struct ConfigView {
    pub port: u16,
    pub username: Seq<char>,
    pub password: Seq<char>,
    pub root_dir: Seq<char>,
}

impl View for FtpConfig {
    type V = ConfigView;

    open spec fn view(&self) -> ConfigView {
        ConfigView {
            port: self.port,
            username: self.username@,
            password: self.password@,
            root_dir: self.root_dir@,
        }
    }
}

impl View for Config {
    type V = ConfigView;

    open spec fn view(&self) -> ConfigView {
        ConfigView {
            port: self.port,
            username: self.username@,
            password: self.password@,
            root_dir: self.root_dir@,
        }
    }
}

/// The settings of a server that was never configured.
pub open spec fn default_config() -> ConfigView {
    ConfigView { port: 2121, username: "admin"@, password: "password"@, root_dir: "./ftp_root"@ }
}

impl FtpConfig {
    /// The settings for one client: these, with the canonical root directory.
    pub fn for_client(&self, root_dir: &str) -> (r: FtpConfig)
        ensures
            r@ == (ConfigView { root_dir: root_dir@, ..self@ }),
    {
        FtpConfig {
            port: self.port,
            username: self.username.clone(),
            password: self.password.clone(),
            root_dir: root_dir.to_string(),
        }
    }
}

impl Default for Config {
    fn default() -> (r: Self)
        ensures
            r@ == default_config(),
    {
        Config {
            port: 2121,
            username: "admin".to_string(),
            password: "password".to_string(),
            root_dir: "./ftp_root".to_string(),
        }
    }
}

impl Clone for Config {
    fn clone(&self) -> (r: Self)
        ensures
            r@ == self@,
    {
        Config {
            port: self.port,
            username: self.username.clone(),
            password: self.password.clone(),
            root_dir: self.root_dir.clone(),
        }
    }
}

impl Config {
    /// The settings to start with, from those that were read from the settings file: the
    /// defaults if there is no such file or it does not parse.
    pub fn load(stored: Option<Config>) -> (r: Config)
        ensures
            r@ == (match stored {
                Some(config) => config@,
                None => default_config(),
            }),
    {
        match stored {
            Some(config) => config,
            None => Config::default(),
        }
    }

    /// These settings as a running server takes them.
    pub fn to_ftp_config(&self) -> (r: FtpConfig)
        ensures
            r@ == self@,
    {
        FtpConfig {
            port: self.port,
            username: self.username.clone(),
            password: self.password.clone(),
            root_dir: self.root_dir.clone(),
        }
    }
}

} // verus!
