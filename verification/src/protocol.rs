//! The messages between the client, the daemon and the status bar.
use vstd::prelude::*;

verus! {

/// A command to the daemon.
#[derive(Debug)]
pub struct DaemonReq {
    pub cmd: String,
}

/// The daemon's answer: the mode now applied and its command, if any.
#[derive(Debug)]
pub struct DaemonResp {
    pub modename: String,
    pub hook: Option<String>,
}

/// What the client prints for a status bar.
#[derive(Debug)]
pub struct CliResp {
    pub text: String,
    pub alt: String,
}

} // verus!
