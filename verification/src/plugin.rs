//! The plugin surface: the plugin value and its two serve commands. What
//! the shell runtime needs of them — trait plumbing, signatures built
//! through its builder, the serve loop itself — lives outside the verified
//! library; the names and descriptions the commands answer with are fixed
//! here.

use vstd::prelude::*;

verus! {

/// Default capacity of the inbound and outbound pipes wired up per request.
pub const PIPE_CAPACITY: usize = 32;

/// The plugin value registered with the shell.
pub struct HTTPServePlugin;

impl HTTPServePlugin {
    /// A fresh plugin value.
    pub fn new() -> (p: HTTPServePlugin) {
        HTTPServePlugin {  }
    }
}

/// The serve command: binds a TCP port and serves HTTP requests through the
/// supplied handler.
pub struct HTTPServeCmd;

impl HTTPServeCmd {
    /// The name under which the command is invoked.
    pub fn name(&self) -> (r: &'static str)
        ensures
            r@ == "http serve"@,
    {
        "http serve"
    }

    /// The command's one-line description.
    pub fn description(&self) -> (r: &'static str)
        ensures
            r@ == "Serve HTTP requests"@,
    {
        "Serve HTTP requests"
    }
}

/// The earlier serve command, kept for compatibility: serves HTTP requests
/// over a local domain socket.
pub struct HTTPServe;

impl HTTPServe {
    /// The name under which the command is invoked.
    pub fn name(&self) -> (r: &'static str)
        ensures
            r@ == "h. serve"@,
    {
        "h. serve"
    }

    /// The command's one-line description.
    pub fn usage(&self) -> (r: &'static str)
        ensures
            r@ == "Service HTTP requests"@,
    {
        "Service HTTP requests"
    }
}

} // verus!
