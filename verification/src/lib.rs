//! The logic of a daemon that titles tmux panes and windows: the wire protocol of its control
//! socket, change tracking, the decisions of a polling cycle, and generation statistics.
pub mod control;
pub mod daemon;
pub mod generation;
pub mod hash;
pub mod ids;
pub mod messages;
pub mod options;
pub mod protocol;
pub mod socket;
pub mod stats;
pub mod text;
pub mod time;
pub mod tmux;
pub mod tracker;
pub mod windows;
