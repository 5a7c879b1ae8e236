//! The driver side of the app to driver protocol: answering each message.
//!
//! Messages travel as JSON, one per line; this module decides the answer to
//! a message and frames encoded messages, and leaves the encoding and the
//! pipe itself to the caller.

use vstd::prelude::*;

use crate::monitor_manager::{apply_split_error, not_on, split_creates, MonitorManager};
use crate::protocol::{AppToDriver, DriverToApp, PhysicalMonitor, VirtualMonitor, PIPE_NAME};

verus! {

/// Configuration for the pipe server.
pub struct PipeServerConfig {
    /// Named pipe path.
    pub pipe_name: String,
    /// Maximum concurrent connections.
    pub max_connections: u32,
}

impl Default for PipeServerConfig {
    fn default() -> (r: Self)
        ensures
            r.pipe_name@ == PIPE_NAME@,
            r.max_connections == 4,
    {
        PipeServerConfig { pipe_name: String::from_str(PIPE_NAME), max_connections: 4 }
    }
}

/// A copy of `items`, element by element.
fn copy_all<T: Clone>(items: &[T]) -> (r: Vec<T>)
    ensures
        r@.len() == items@.len(),
        forall|i: int| 0 <= i < items@.len() ==> cloned::<T>(items@[i], #[trigger] r@[i]),
{
    let mut r: Vec<T> = Vec::new();
    let mut i: usize = 0;
    while i < items.len()
        invariant
            i <= items@.len(),
            r@.len() == i,
            forall|k: int| 0 <= k < i ==> cloned::<T>(items@[k], #[trigger] r@[k]),
        decreases items@.len() - i,
    {
        r.push(items[i].clone());
        i = i + 1;
    }
    r
}

fn copy_physical_monitors(monitors: &[PhysicalMonitor]) -> (r: Vec<PhysicalMonitor>)
    ensures
        r@ == monitors@,
{
    let r = copy_all(monitors);
    assert(r@ =~= monitors@);
    r
}

fn copy_virtual_monitors(monitors: &[VirtualMonitor]) -> (r: Vec<VirtualMonitor>)
    ensures
        r@ == monitors@,
{
    let r = copy_all(monitors);
    assert(r@ =~= monitors@);
    r
}

/// `m` after a change keeps its physical monitors and next serial, and holds
/// the virtual monitors `virtuals`.
pub open spec fn manager_holds(m: MonitorManager, before: MonitorManager, virtuals: Seq<VirtualMonitor>) -> bool {
    &&& m.virtuals() == virtuals
    &&& m.physicals() == before.physicals()
    &&& m.next_serial() == before.next_serial()
}

/// Process an incoming message and produce a response.
///
/// This is the core message handler, decoupled from transport.
pub fn handle_message(msg: &AppToDriver, manager: &mut MonitorManager) -> (reply: DriverToApp)
    requires
        *msg matches AppToDriver::ApplySplit(config) ==> (apply_split_error(*old(manager), config)
            is None ==> old(manager).next_serial() + config.regions@.len() <= u32::MAX),
    ensures
        match *msg {
            AppToDriver::Ping => reply is Pong && manager_holds(
                *final(manager),
                *old(manager),
                old(manager).virtuals(),
            ),
            AppToDriver::QueryMonitors => (reply matches DriverToApp::MonitorList { monitors }
                && monitors@ == old(manager).physicals()) && manager_holds(
                *final(manager),
                *old(manager),
                old(manager).virtuals(),
            ),
            AppToDriver::QuerySplitState => (reply matches DriverToApp::SplitState {
                virtual_monitors,
            } && virtual_monitors@ == old(manager).virtuals()) && manager_holds(
                *final(manager),
                *old(manager),
                old(manager).virtuals(),
            ),
            AppToDriver::ApplySplit(config) => match apply_split_error(*old(manager), config) {
                Some(e) => (reply matches DriverToApp::Error { message } && message@ == e)
                    && manager_holds(*final(manager), *old(manager), old(manager).virtuals()),
                None => {
                    &&& reply matches DriverToApp::SplitState { virtual_monitors }
                        && virtual_monitors@ == final(manager).virtuals()
                    &&& exists|created: Seq<VirtualMonitor>|
                        split_creates(*old(manager), config, created) && final(manager).virtuals()
                            == old(manager).virtuals().filter(not_on(config.monitor_index))
                            + created
                    &&& final(manager).physicals() == old(manager).physicals()
                    &&& final(manager).next_serial() == old(manager).next_serial()
                        + config.regions@.len()
                },
            },
            AppToDriver::RemoveSplits { monitor_index } => (reply matches DriverToApp::SplitState {
                virtual_monitors,
            } && virtual_monitors@ == final(manager).virtuals()) && manager_holds(
                *final(manager),
                *old(manager),
                old(manager).virtuals().filter(not_on(monitor_index)),
            ),
            AppToDriver::RemoveAll => reply is Success && manager_holds(
                *final(manager),
                *old(manager),
                Seq::empty(),
            ),
        },
{
    match msg {
        AppToDriver::Ping => DriverToApp::Pong,
        AppToDriver::QueryMonitors => DriverToApp::MonitorList {
            monitors: copy_physical_monitors(manager.physical_monitors()),
        },
        AppToDriver::QuerySplitState => DriverToApp::SplitState {
            virtual_monitors: copy_virtual_monitors(manager.virtual_monitors()),
        },
        AppToDriver::ApplySplit(config) => match manager.apply_split(config) {
            Ok(created) => {
                proof {
                    assert(split_creates(*old(manager), *config, created@));
                }
                DriverToApp::SplitState {
                    virtual_monitors: copy_virtual_monitors(manager.virtual_monitors()),
                }
            },
            Err(e) => DriverToApp::Error { message: e },
        },
        AppToDriver::RemoveSplits { monitor_index } => {
            manager.remove_splits(*monitor_index);
            DriverToApp::SplitState {
                virtual_monitors: copy_virtual_monitors(manager.virtual_monitors()),
            }
        },
        AppToDriver::RemoveAll => {
            manager.remove_all();
            assert(manager.virtuals() =~= Seq::<VirtualMonitor>::empty());
            DriverToApp::Success
        },
    }
}

/// Frames an encoded message for the pipe: the bytes, then a newline (0x0A).
pub fn frame_message(payload: &[u8]) -> (framed: Vec<u8>)
    ensures
        framed@ == payload@.push(0x0Au8),
{
    let mut framed: Vec<u8> = Vec::new();
    let mut i: usize = 0;
    while i < payload.len()
        invariant
            i <= payload@.len(),
            framed@ == payload@.take(i as int),
        decreases payload@.len() - i,
    {
        framed.push(payload[i]);
        i = i + 1;
        assert(framed@ =~= payload@.take(i as int));
    }
    assert(payload@.take(i as int) =~= payload@);
    framed.push(0x0Au8);
    framed
}

} // verus!
