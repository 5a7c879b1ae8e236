//! Shared types and protocol messages between the desktop app and the
//! virtual display driver, and the equal-split presets.

use vstd::prelude::*;

use crate::ratio::Ratio;
use crate::text::{decimal, push_decimal};

verus! {

/// Named pipe path for app to driver communication.
pub const PIPE_NAME: &'static str = "\\\\.\\pipe\\MonitorSplitter";

/// Maximum number of virtual monitors supported.
pub const MAX_VIRTUAL_MONITORS: usize = 16;

/// Orientation of a monitor split.
#[derive(Debug, Clone, Copy, PartialEq, Eq, Structural)]
pub enum Orientation {
    Horizontal,
    Vertical,
}

/// A split region given as fractions of the physical monitor.
#[derive(Debug, Clone, Copy)]
pub struct SplitRegion {
    /// Left edge as a fraction of the total width.
    pub x: Ratio,
    /// Top edge as a fraction of the total height.
    pub y: Ratio,
    /// Width as a fraction of the total width.
    pub width: Ratio,
    /// Height as a fraction of the total height.
    pub height: Ratio,
}

/// A complete split configuration for one physical monitor.
#[derive(Debug, Clone)]
pub struct SplitConfig {
    /// Index of the physical monitor to split.
    pub monitor_index: u32,
    /// Regions that define the virtual monitors.
    pub regions: Vec<SplitRegion>,
    /// Human-readable preset name.
    pub preset_name: Option<String>,
}

/// Physical monitor information.
#[derive(Debug)]
pub struct PhysicalMonitor {
    /// System-assigned monitor index.
    pub index: u32,
    /// Display name or model.
    pub name: String,
    /// Native horizontal resolution.
    pub width: u32,
    /// Native vertical resolution.
    pub height: u32,
    /// Refresh rate in Hz.
    pub refresh_rate: u32,
}

impl Clone for PhysicalMonitor {
    fn clone(&self) -> (r: Self)
        ensures
            r == *self,
    {
        PhysicalMonitor {
            index: self.index,
            name: self.name.clone(),
            width: self.width,
            height: self.height,
            refresh_rate: self.refresh_rate,
        }
    }
}

/// Virtual monitor created by the driver.
#[derive(Debug)]
pub struct VirtualMonitor {
    /// Unique ID assigned by the driver.
    pub id: String,
    /// Which physical monitor this is part of.
    pub physical_monitor_index: u32,
    /// Region on the physical monitor.
    pub region: SplitRegion,
    /// Resolved pixel width.
    pub width: u32,
    /// Resolved pixel height.
    pub height: u32,
}

impl Clone for VirtualMonitor {
    fn clone(&self) -> (r: Self)
        ensures
            r == *self,
    {
        VirtualMonitor {
            id: self.id.clone(),
            physical_monitor_index: self.physical_monitor_index,
            region: self.region,
            width: self.width,
            height: self.height,
        }
    }
}

/// Messages sent from the app to the driver.
#[derive(Debug, Clone)]
pub enum AppToDriver {
    /// Query available physical monitors.
    QueryMonitors,
    /// Query the current virtual monitors.
    QuerySplitState,
    /// Apply a split configuration.
    ApplySplit(SplitConfig),
    /// Remove all virtual monitors for a physical monitor.
    RemoveSplits { monitor_index: u32 },
    /// Remove all virtual monitors.
    RemoveAll,
    /// Health check.
    Ping,
}

/// Messages sent from the driver to the app.
#[derive(Debug, Clone)]
pub enum DriverToApp {
    /// List of physical monitors.
    MonitorList { monitors: Vec<PhysicalMonitor> },
    /// Current virtual monitor state.
    SplitState { virtual_monitors: Vec<VirtualMonitor> },
    /// Operation succeeded.
    Success,
    /// Error response.
    Error { message: String },
    /// Answer to a health check.
    Pong,
}

/// A saved preset combining a split config with an optional hotkey binding.
#[derive(Debug, Clone)]
pub struct Preset {
    /// Unique preset name.
    pub name: String,
    /// The split configuration.
    pub config: SplitConfig,
    /// Hotkey binding such as "Ctrl+Alt+1".
    pub hotkey: Option<String>,
}

/// App configuration stored on disk.
#[derive(Debug, Clone)]
pub struct AppConfig {
    /// Saved presets.
    pub presets: Vec<Preset>,
    /// Whether to start with Windows.
    pub start_on_boot: bool,
    /// Whether to minimize to the system tray.
    pub minimize_to_tray: bool,
}

impl Default for AppConfig {
    fn default() -> (r: Self)
        ensures
            r.presets@.len() == 0,
            !r.start_on_boot,
            !r.minimize_to_tray,
    {
        AppConfig { presets: Vec::new(), start_on_boot: false, minimize_to_tray: false }
    }
}

/// `regions` cut the monitor into `n` columns of equal width, left to right.
pub open spec fn is_equal_horizontal_split(regions: Seq<SplitRegion>, n: nat) -> bool {
    &&& regions.len() == n
    &&& forall|i: int|
        0 <= i < n ==> {
            &&& (#[trigger] regions[i]).x@ == (i, n as int)
            &&& regions[i].y@ == (0int, 1int)
            &&& regions[i].width@ == (1int, n as int)
            &&& regions[i].height@ == (1int, 1int)
        }
}

/// `regions` cut the monitor into `n` rows of equal height, top to bottom.
pub open spec fn is_equal_vertical_split(regions: Seq<SplitRegion>, n: nat) -> bool {
    &&& regions.len() == n
    &&& forall|i: int|
        0 <= i < n ==> {
            &&& (#[trigger] regions[i]).x@ == (0int, 1int)
            &&& regions[i].y@ == (i, n as int)
            &&& regions[i].width@ == (1int, 1int)
            &&& regions[i].height@ == (1int, n as int)
        }
}

/// Create an `n`-way equal horizontal split config.
pub fn equal_horizontal_split(monitor_index: u32, n: u32) -> (r: SplitConfig)
    ensures
        r.monitor_index == monitor_index,
        is_equal_horizontal_split(r.regions@, n as nat),
        r.preset_name matches Some(name) && name@ == decimal(n as nat) + "× Horizontal"@,
{
    let mut regions: Vec<SplitRegion> = Vec::new();
    let mut i: u32 = 0;
    while i < n
        invariant
            i <= n,
            regions@.len() == i,
            forall|k: int|
                0 <= k < i ==> {
                    &&& (#[trigger] regions@[k]).x@ == (k, n as int)
                    &&& regions@[k].y@ == (0int, 1int)
                    &&& regions@[k].width@ == (1int, n as int)
                    &&& regions@[k].height@ == (1int, 1int)
                },
        decreases n - i,
    {
        regions.push(
            SplitRegion {
                x: Ratio::of(i as i64, n),
                y: Ratio::of(0, 1),
                width: Ratio::of(1, n),
                height: Ratio::of(1, 1),
            },
        );
        i = i + 1;
    }
    let mut name = String::new();
    push_decimal(&mut name, n as u64);
    name.append("× Horizontal");
    SplitConfig { monitor_index, regions, preset_name: Some(name) }
}

/// Create an `n`-way equal vertical split config.
pub fn equal_vertical_split(monitor_index: u32, n: u32) -> (r: SplitConfig)
    ensures
        r.monitor_index == monitor_index,
        is_equal_vertical_split(r.regions@, n as nat),
        r.preset_name matches Some(name) && name@ == decimal(n as nat) + "× Vertical"@,
{
    let mut regions: Vec<SplitRegion> = Vec::new();
    let mut i: u32 = 0;
    while i < n
        invariant
            i <= n,
            regions@.len() == i,
            forall|k: int|
                0 <= k < i ==> {
                    &&& (#[trigger] regions@[k]).x@ == (0int, 1int)
                    &&& regions@[k].y@ == (k, n as int)
                    &&& regions@[k].width@ == (1int, 1int)
                    &&& regions@[k].height@ == (1int, n as int)
                },
        decreases n - i,
    {
        regions.push(
            SplitRegion {
                x: Ratio::of(0, 1),
                y: Ratio::of(i as i64, n),
                width: Ratio::of(1, 1),
                height: Ratio::of(1, n),
            },
        );
        i = i + 1;
    }
    let mut name = String::new();
    push_decimal(&mut name, n as u64);
    name.append("× Vertical");
    SplitConfig { monitor_index, regions, preset_name: Some(name) }
}

} // verus!
