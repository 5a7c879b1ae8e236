//! The app side of the pipe: the client's connection state and its answers
//! while the driver cannot be reached.

use vstd::prelude::*;

use crate::protocol::{AppToDriver, DriverToApp, PIPE_NAME};

verus! {

/// The message of a send while not connected.
pub open spec fn not_connected_message() -> Seq<char> {
    "Not connected to driver"@
}

/// The message of a send over a connection.
pub open spec fn not_implemented_message() -> Seq<char> {
    "Pipe communication not yet implemented"@
}

/// Client for communicating with the monitor-splitter driver.
pub struct PipeClient {
    pipe_name: String,
    connected: bool,
}

impl PipeClient {
    /// The pipe path the client connects to.
    pub closed spec fn pipe_path(&self) -> Seq<char> {
        self.pipe_name@
    }

    /// Whether the client holds a connection.
    pub closed spec fn link_up(&self) -> bool {
        self.connected
    }

    pub fn new() -> (r: Self)
        ensures
            r.pipe_path() == PIPE_NAME@,
            !r.link_up(),
    {
        PipeClient { pipe_name: String::from_str(PIPE_NAME), connected: false }
    }

    /// Attempt to connect to the driver's named pipe. While the driver is not
    /// installed, the client stays unconnected.
    pub fn connect(&mut self) -> (r: Result<(), String>)
        ensures
            r is Ok,
            !final(self).link_up(),
            final(self).pipe_path() == old(self).pipe_path(),
    {
        self.connected = false;
        Ok(())
    }

    /// Send a message to the driver and return its response.
    pub fn send(&self, msg: &AppToDriver) -> (r: Result<DriverToApp, String>)
        ensures
            r matches Ok(DriverToApp::Error { message }) && message@ == if self.link_up() {
                not_implemented_message()
            } else {
                not_connected_message()
            },
    {
        if !self.connected {
            return Ok(DriverToApp::Error { message: String::from_str("Not connected to driver") });
        }
        Ok(DriverToApp::Error { message: String::from_str("Pipe communication not yet implemented") })
    }

    /// Check if connected to the driver.
    pub fn is_connected(&self) -> (r: bool)
        ensures
            r == self.link_up(),
    {
        self.connected
    }
}

} // verus!
