pub mod command;
pub mod command_laws;
pub mod config;
pub mod control;
pub mod conversation;
pub mod handler;
pub mod journal;
pub mod laws;
pub mod listing;
pub mod lookup;
pub mod path;
pub mod path_laws;
pub mod protocol;
pub mod session;
pub mod text;
pub mod text_laws;
pub mod window_laws;
