//! Virtual monitor lifecycle management: creating and destroying virtual
//! monitors in response to commands from the app.

use vstd::prelude::*;

use crate::edid::{
    all_regions_fit, lemma_equal_split_valid, region_fits, regions_check, regions_disjoint,
    regions_overlap, validate_regions,
};
use crate::protocol::{
    is_equal_horizontal_split, is_equal_vertical_split, PhysicalMonitor, SplitConfig, SplitRegion,
    VirtualMonitor, MAX_VIRTUAL_MONITORS,
};
use crate::ratio::scaled_length;
use crate::text::{decimal, indexed_message, lemma_decimal_injective, lemma_prefixed_injective};

verus! {

/// The id of the virtual monitor with serial number `serial`: "vm-" and the
/// serial number.
pub open spec fn virtual_monitor_id(serial: nat) -> Seq<char> {
    "vm-"@ + decimal(serial)
}

/// Keeps the virtual monitors that are not part of physical monitor `index`.
pub open spec fn not_on(index: u32) -> spec_fn(VirtualMonitor) -> bool {
    |vm: VirtualMonitor| vm.physical_monitor_index != index
}

/// Keeps the virtual monitors that are part of physical monitor `index`.
pub open spec fn on(index: u32) -> spec_fn(VirtualMonitor) -> bool {
    |vm: VirtualMonitor| vm.physical_monitor_index == index
}

/// `ps` has a monitor with system index `index`.
pub open spec fn has_physical(ps: Seq<PhysicalMonitor>, index: u32) -> bool {
    exists|p: int| 0 <= p < ps.len() && #[trigger] ps[p].index == index
}

/// `p` is the first position in `ps` of a monitor with system index `index`.
pub open spec fn first_physical(ps: Seq<PhysicalMonitor>, index: u32, p: int) -> bool {
    &&& 0 <= p < ps.len()
    &&& ps[p].index == index
    &&& forall|q: int| 0 <= q < p ==> (#[trigger] ps[q]).index != index
}

/// The first monitor in `ps` with system index `index`.
pub open spec fn physical_for(ps: Seq<PhysicalMonitor>, index: u32) -> PhysicalMonitor {
    ps[choose|p: int| first_physical(ps, index, p)]
}

/// `vm` is the virtual monitor with serial number `serial` for `region` of
/// `physical`.
pub open spec fn is_created_monitor(
    physical: PhysicalMonitor,
    region: SplitRegion,
    serial: nat,
    vm: VirtualMonitor,
) -> bool {
    &&& vm.id@ == virtual_monitor_id(serial)
    &&& vm.physical_monitor_index == physical.index
    &&& vm.region == region
    &&& vm.width == scaled_length(physical.width as int, region.width@)
    &&& vm.height == scaled_length(physical.height as int, region.height@)
}

/// The message for a physical monitor that is not registered.
pub open spec fn monitor_not_found_message(index: u32) -> Seq<char> {
    "Physical monitor "@ + decimal(index as nat) + " not found"@
}

/// The message for a split given no regions.
pub open spec fn no_regions_message() -> Seq<char> {
    "No regions specified"@
}

/// The message for a split that would exceed the virtual monitor limit.
pub open spec fn too_many_message() -> Seq<char> {
    "Would exceed maximum of "@ + decimal(MAX_VIRTUAL_MONITORS as nat) + " virtual monitors"@
}

/// The manager's invariant over its virtual monitors `vms`, physical
/// monitors `ps`, next serial `next` and id serials `serials`: at most
/// `MAX_VIRTUAL_MONITORS` virtual monitors, each part of a registered
/// physical monitor and lying on it, no two parts of one physical monitor
/// overlapping, with ids "vm-<serial>" whose serials increase along the list
/// and are all below the next serial.
pub open spec fn manager_invariant(
    vms: Seq<VirtualMonitor>,
    ps: Seq<PhysicalMonitor>,
    next: nat,
    serials: Seq<nat>,
) -> bool {
    &&& vms.len() <= MAX_VIRTUAL_MONITORS
    &&& serials.len() == vms.len()
    &&& forall|i: int|
        0 <= i < vms.len() ==> {
            &&& (#[trigger] vms[i]).id@ == virtual_monitor_id(serials[i])
            &&& serials[i] < next
            &&& has_physical(ps, vms[i].physical_monitor_index)
            &&& region_fits(vms[i].region)
        }
    &&& forall|i: int, j: int| 0 <= i < j < vms.len() ==> #[trigger] serials[i] < #[trigger] serials[j]
    &&& forall|i: int, j: int|
        0 <= i < j < vms.len() && vms[i].physical_monitor_index == vms[j].physical_monitor_index
            ==> !regions_overlap((#[trigger] vms[i]).region, (#[trigger] vms[j]).region)
}

/// Manages the lifecycle of virtual monitors.
pub struct MonitorManager {
    state: ManagerState,
}

impl MonitorManager {
    #[verifier::type_invariant]
    spec fn state_well_formed(self) -> bool {
        self.state.wf()
    }

    /// The active virtual monitors.
    pub closed spec fn virtuals(&self) -> Seq<VirtualMonitor> {
        self.state.virtuals()
    }

    /// The registered physical monitors.
    pub closed spec fn physicals(&self) -> Seq<PhysicalMonitor> {
        self.state.physicals()
    }

    /// The serial number of the next virtual monitor.
    pub closed spec fn next_serial(&self) -> nat {
        self.state.next_serial()
    }

    /// The serial number in the id of each active virtual monitor.
    pub closed spec fn serials(&self) -> Seq<nat> {
        self.state.serials()
    }

    /// The manager's invariant, which every manager keeps.
    pub open spec fn wf(&self) -> bool {
        manager_invariant(self.virtuals(), self.physicals(), self.next_serial(), self.serials())
    }

    pub fn new() -> (r: Self)
        ensures
            r.wf(),
            r.virtuals().len() == 0,
            r.physicals().len() == 0,
            r.next_serial() == 0,
    {
        MonitorManager { state: ManagerState::new() }
    }

    /// Register a physical monitor (called during enumeration).
    pub fn register_physical_monitor(&mut self, monitor: PhysicalMonitor)
        ensures
            final(self).wf(),
            final(self).physicals() == old(self).physicals().push(monitor),
            final(self).virtuals() == old(self).virtuals(),
            final(self).next_serial() == old(self).next_serial(),
    {
        proof {
            use_type_invariant(&*self);
        }
        let mut state = ManagerState::new();
        std::mem::swap(&mut state, &mut self.state);
        state.register_physical_monitor(monitor);
        self.state = state;
    }

    /// The serial number that the next created virtual monitor gets; a split
    /// of `n` regions is accepted only while it plus `n` fits in a `u32`.
    pub fn next_serial_number(&self) -> (r: u32)
        ensures
            r == self.next_serial(),
    {
        self.state.next_id
    }

    /// Get all registered physical monitors.
    pub fn physical_monitors(&self) -> (r: &[PhysicalMonitor])
        ensures
            r@ == self.physicals(),
    {
        self.state.physical_monitors()
    }

    /// Get all active virtual monitors.
    pub fn virtual_monitors(&self) -> (r: &[VirtualMonitor])
        ensures
            r@ == self.virtuals(),
    {
        self.state.virtual_monitors()
    }

    /// Apply a split configuration, creating virtual monitors.
    ///
    /// This will remove any existing virtual monitors for the target physical
    /// monitor before creating new ones.
    pub fn apply_split(&mut self, config: &SplitConfig) -> (r: Result<Vec<VirtualMonitor>, String>)
        requires
            apply_split_error(*old(self), *config) is None ==> old(self).next_serial()
                + config.regions@.len() <= u32::MAX,
        ensures
            final(self).wf(),
            match apply_split_error(*old(self), *config) {
                Some(e) => {
                    &&& r matches Err(message) && message@ == e
                    &&& final(self).virtuals() == old(self).virtuals()
                    &&& final(self).physicals() == old(self).physicals()
                    &&& final(self).next_serial() == old(self).next_serial()
                },
                None => {
                    &&& r matches Ok(created) && split_creates(*old(self), *config, created@)
                        && final(self).virtuals() == old(self).virtuals().filter(
                        not_on(config.monitor_index),
                    ) + created@
                    &&& final(self).physicals() == old(self).physicals()
                    &&& final(self).next_serial() == old(self).next_serial()
                        + config.regions@.len()
                },
            },
    {
        proof {
            use_type_invariant(&*self);
        }
        let mut state = ManagerState::new();
        std::mem::swap(&mut state, &mut self.state);
        assert(state.as_manager() == *old(self));
        let r = state.apply_split(config);
        self.state = state;
        r
    }

    /// Remove all virtual monitors for a specific physical monitor, returning
    /// how many were removed.
    pub fn remove_splits(&mut self, monitor_index: u32) -> (removed: usize)
        ensures
            final(self).wf(),
            final(self).virtuals() == old(self).virtuals().filter(not_on(monitor_index)),
            forall|i: int|
                0 <= i < final(self).virtuals().len() ==> (#[trigger] final(self).virtuals()[i]).physical_monitor_index
                    != monitor_index,
            removed == old(self).virtuals().len() - final(self).virtuals().len(),
            final(self).physicals() == old(self).physicals(),
            final(self).next_serial() == old(self).next_serial(),
    {
        proof {
            use_type_invariant(&*self);
        }
        let mut state = ManagerState::new();
        std::mem::swap(&mut state, &mut self.state);
        let removed = state.remove_splits(monitor_index);
        self.state = state;
        removed
    }

    /// Remove all virtual monitors, returning how many were removed.
    pub fn remove_all(&mut self) -> (removed: usize)
        ensures
            final(self).wf(),
            final(self).virtuals().len() == 0,
            removed == old(self).virtuals().len(),
            final(self).physicals() == old(self).physicals(),
            final(self).next_serial() == old(self).next_serial(),
    {
        proof {
            use_type_invariant(&*self);
        }
        let mut state = ManagerState::new();
        std::mem::swap(&mut state, &mut self.state);
        let removed = state.remove_all();
        self.state = state;
        removed
    }
}

impl Default for MonitorManager {
    fn default() -> (r: Self)
        ensures
            r.wf(),
            r.virtuals().len() == 0,
            r.physicals().len() == 0,
            r.next_serial() == 0,
    {
        Self::new()
    }
}

/// The virtual and physical monitors that a manager keeps, and its id
/// counter.
struct ManagerState {
    /// Currently active virtual monitors.
    virtual_monitors: Vec<VirtualMonitor>,
    /// Known physical monitors.
    physical_monitors: Vec<PhysicalMonitor>,
    /// Counter for generating unique IDs.
    next_id: u32,
    /// The serial number in each virtual monitor's id.
    serials: Ghost<Seq<nat>>,
}

/// Why `apply_split` refuses `config` in state `m`, if it does.
pub open spec fn apply_split_error(m: MonitorManager, config: SplitConfig) -> Option<Seq<char>> {
    if !has_physical(m.physicals(), config.monitor_index) {
        Some(monitor_not_found_message(config.monitor_index))
    } else if config.regions@.len() == 0 {
        Some(no_regions_message())
    } else if m.virtuals().len() + config.regions@.len() > MAX_VIRTUAL_MONITORS {
        Some(too_many_message())
    } else {
        match regions_check(config.regions@) {
            Err(e) => Some(e),
            Ok(_) => None,
        }
    }
}

/// `created` are the virtual monitors that `apply_split` makes for `config`
/// in state `m`: one per region, in order, with the next serial numbers.
pub open spec fn split_creates(m: MonitorManager, config: SplitConfig, created: Seq<VirtualMonitor>) -> bool {
    &&& created.len() == config.regions@.len()
    &&& forall|k: int|
        0 <= k < created.len() ==> is_created_monitor(
            physical_for(m.physicals(), config.monitor_index),
            config.regions@[k],
            (m.next_serial() + k) as nat,
            #[trigger] created[k],
        )
}

impl ManagerState {
    /// The active virtual monitors.
    spec fn virtuals(&self) -> Seq<VirtualMonitor> {
        self.virtual_monitors@
    }

    /// The registered physical monitors.
    spec fn physicals(&self) -> Seq<PhysicalMonitor> {
        self.physical_monitors@
    }

    /// The serial number of the next virtual monitor.
    spec fn next_serial(&self) -> nat {
        self.next_id as nat
    }

    /// The serial number in the id of each active virtual monitor.
    spec fn serials(&self) -> Seq<nat> {
        self.serials@
    }

    spec fn wf(&self) -> bool {
        manager_invariant(self.virtuals(), self.physicals(), self.next_serial(), self.serials())
    }

    /// The manager that holds this state.
    spec fn as_manager(self) -> MonitorManager {
        MonitorManager { state: self }
    }

    fn new() -> (r: Self)
        ensures
            r.wf(),
            r.virtuals().len() == 0,
            r.physicals().len() == 0,
            r.next_serial() == 0,
    {
        ManagerState {
            virtual_monitors: Vec::new(),
            physical_monitors: Vec::new(),
            next_id: 0,
            serials: Ghost(Seq::empty()),
        }
    }

    /// Register a physical monitor (called during enumeration).
    fn register_physical_monitor(&mut self, monitor: PhysicalMonitor)
        requires
            old(self).wf(),
        ensures
            final(self).wf(),
            final(self).physicals() == old(self).physicals().push(monitor),
            final(self).virtuals() == old(self).virtuals(),
            final(self).next_serial() == old(self).next_serial(),
    {
        let ghost old_ps = self.physical_monitors@;
        self.physical_monitors.push(monitor);
        assert forall|i: int| 0 <= i < self.virtuals().len() implies has_physical(
            self.physicals(),
            (#[trigger] self.virtuals()[i]).physical_monitor_index,
        ) by {
            let p = choose|p: int|
                0 <= p < old_ps.len() && #[trigger] old_ps[p].index
                    == self.virtuals()[i].physical_monitor_index;
            assert(self.physicals()[p] == old_ps[p]);
        }
    }

    /// Get all registered physical monitors.
    fn physical_monitors(&self) -> (r: &[PhysicalMonitor])
        ensures
            r@ == self.physicals(),
    {
        self.physical_monitors.as_slice()
    }

    /// Get all active virtual monitors.
    fn virtual_monitors(&self) -> (r: &[VirtualMonitor])
        ensures
            r@ == self.virtuals(),
    {
        self.virtual_monitors.as_slice()
    }

    /// Keeps only the virtual monitors that are not part of physical monitor
    /// `monitor_index`.
    fn retain_other_monitors(&mut self, monitor_index: u32)
        requires
            old(self).wf(),
        ensures
            final(self).wf(),
            final(self).virtuals() == old(self).virtuals().filter(not_on(monitor_index)),
            final(self).physicals() == old(self).physicals(),
            final(self).next_serial() == old(self).next_serial(),
    {
        let ghost vms = self.virtual_monitors@;
        let ghost serials = self.serials@;
        let ghost pred = not_on(monitor_index);
        let mut kept: Vec<VirtualMonitor> = Vec::new();
        let ghost mut kept_serials: Seq<nat> = Seq::empty();
        let ghost mut positions: Seq<int> = Seq::empty();
        let mut i: usize = 0;
        while i < self.virtual_monitors.len()
            invariant
                self.wf(),
                self.virtual_monitors@ == vms,
                self.serials@ == serials,
                pred == not_on(monitor_index),
                i <= vms.len(),
                kept@ == vms.take(i as int).filter(pred),
                kept_serials.len() == kept@.len(),
                kept@.len() <= i,
                forall|t: int|
                    0 <= t < kept@.len() ==> {
                        &&& (#[trigger] kept@[t]).id@ == virtual_monitor_id(kept_serials[t])
                        &&& kept_serials[t] < self.next_id
                        &&& has_physical(self.physical_monitors@, kept@[t].physical_monitor_index)
                    },
                forall|t: int, j: int|
                    0 <= t < kept@.len() && i <= j < vms.len() ==> #[trigger] kept_serials[t]
                        < #[trigger] serials[j],
                forall|s: int, t: int|
                    0 <= s < t < kept@.len() ==> #[trigger] kept_serials[s] < #[trigger] kept_serials[t],
                positions.len() == kept@.len(),
                forall|t: int|
                    0 <= t < kept@.len() ==> 0 <= #[trigger] positions[t] < i && kept@[t] == vms[positions[t]],
                forall|s: int, t: int| 0 <= s < t < kept@.len() ==> #[trigger] positions[s] < #[trigger] positions[t],
            decreases vms.len() - i,
        {
            let ghost kept_before = kept@;
            let ghost serials_before = kept_serials;
            let ghost positions_before = positions;
            proof {
                assert(self.virtuals()[i as int] == vms[i as int]);
                assert(pred(vms[i as int]) == (vms[i as int].physical_monitor_index != monitor_index));
            }
            if self.virtual_monitors[i].physical_monitor_index != monitor_index {
                let vm = self.virtual_monitors[i].clone();
                kept.push(vm);
                proof {
                    kept_serials = kept_serials.push(serials[i as int]);
                    positions = positions.push(i as int);
                    assert forall|t: int| 0 <= t < positions_before.len() implies positions_before[t] < i by {
                        assert(0 <= positions_before[t] < i);
                    }
                    assert forall|s: int| 0 <= s < serials_before.len() implies serials_before[s]
                        < serials[i as int] by {
                        assert(serials_before[s] < serials[i as int]);
                    }
                }
            }
            proof {
                reveal_with_fuel(Seq::<_>::filter, 1);
                assert(vms.take(i + 1).drop_last() =~= vms.take(i as int));
                assert(vms.take(i + 1).last() == vms[i as int]);
                assert(kept@ =~= vms.take(i + 1).filter(pred));
                assert forall|t: int, j: int|
                    0 <= t < kept@.len() && i + 1 <= j < vms.len() implies #[trigger] kept_serials[t]
                    < #[trigger] serials[j] by {
                    if t < serials_before.len() {
                        assert(kept_serials[t] == serials_before[t]);
                        assert(serials_before[t] < serials[j]);
                    } else {
                        assert(kept_serials[t] == serials[i as int]);
                    }
                    assert(self.virtuals()[j] == vms[j]);
                    assert(self.serials()[i as int] < self.serials()[j]);
                }
                assert forall|t: int| 0 <= t < kept@.len() implies {
                    &&& (#[trigger] kept@[t]).id@ == virtual_monitor_id(kept_serials[t])
                    &&& kept_serials[t] < self.next_id
                    &&& has_physical(self.physical_monitors@, kept@[t].physical_monitor_index)
                } by {
                    if t < kept_before.len() {
                        assert(kept@[t] == kept_before[t]);
                        assert(kept_serials[t] == serials_before[t]);
                    } else {
                        assert(kept@[t] == vms[i as int]);
                        assert(kept_serials[t] == serials[i as int]);
                    }
                }
            }
            i = i + 1;
        }
        proof {
            assert(vms.take(vms.len() as int) =~= vms);
            vms.lemma_filter_len(pred);
            assert forall|t: int| 0 <= t < kept@.len() implies region_fits((#[trigger] kept@[t]).region) by {
                let p = positions[t];
                assert(self.virtuals()[p] == vms[p]);
            }
            assert forall|s: int, t: int|
                0 <= s < t < kept@.len() && kept@[s].physical_monitor_index == kept@[t].physical_monitor_index
                    implies !regions_overlap((#[trigger] kept@[s]).region, (#[trigger] kept@[t]).region) by {
                let a = positions[s];
                let b = positions[t];
                assert(a < b);
                assert(self.virtuals()[a] == vms[a]);
                assert(self.virtuals()[b] == vms[b]);
            }
        }
        self.virtual_monitors = kept;
        self.serials = Ghost(kept_serials);
    }

    /// Apply a split configuration, creating virtual monitors.
    ///
    /// This will remove any existing virtual monitors for the target physical
    /// monitor before creating new ones.
    fn apply_split(&mut self, config: &SplitConfig) -> (r: Result<Vec<VirtualMonitor>, String>)
        requires
            old(self).wf(),
            apply_split_error(old(self).as_manager(), *config) is None ==> old(self).next_serial()
                + config.regions@.len() <= u32::MAX,
        ensures
            final(self).wf(),
            match apply_split_error(old(self).as_manager(), *config) {
                Some(e) => {
                    &&& r matches Err(message) && message@ == e
                    &&& final(self).virtuals() == old(self).virtuals()
                    &&& final(self).physicals() == old(self).physicals()
                    &&& final(self).next_serial() == old(self).next_serial()
                },
                None => {
                    &&& r matches Ok(created) && split_creates(old(self).as_manager(), *config, created@)
                        && final(self).virtuals() == old(self).virtuals().filter(
                        not_on(config.monitor_index),
                    ) + created@
                    &&& final(self).physicals() == old(self).physicals()
                    &&& final(self).next_serial() == old(self).next_serial()
                        + config.regions@.len()
                },
            },
    {
        let index = config.monitor_index;
        // Find the physical monitor
        let mut p: usize = 0;
        while p < self.physical_monitors.len() && self.physical_monitors[p].index != index
            invariant
                p <= self.physical_monitors@.len(),
                forall|q: int| 0 <= q < p ==> (#[trigger] self.physical_monitors@[q]).index != index,
            decreases self.physical_monitors@.len() - p,
        {
            p = p + 1;
        }
        if p == self.physical_monitors.len() {
            let message = indexed_message("Physical monitor ", index as usize, " not found");
            return Err(message);
        }
        let physical = self.physical_monitors[p].clone();
        proof {
            assert(first_physical(self.physicals(), index, p as int));
            let c = choose|c: int| first_physical(self.physicals(), index, c);
            assert(c == p) by {
                if c < p {
                    assert(self.physicals()[c].index != index);
                } else if c > p {
                    assert(self.physicals()[p as int].index != index);
                }
            }
        }
        if config.regions.len() == 0 {
            return Err(String::from_str("No regions specified"));
        }
        if config.regions.len() > MAX_VIRTUAL_MONITORS - self.virtual_monitors.len() {
            let message = indexed_message(
                "Would exceed maximum of ",
                MAX_VIRTUAL_MONITORS,
                " virtual monitors",
            );
            return Err(message);
        }
        // Validate regions
        match validate_regions(config.regions.as_slice()) {
            Err(e) => {
                return Err(e);
            },
            Ok(_) => {},
        }
        assert(all_regions_fit(config.regions@) && regions_disjoint(config.regions@));
        let ghost old_self = *self;
        // Remove existing splits for this monitor
        self.retain_other_monitors(index);
        let ghost kept = self.virtual_monitors@;
        proof {
            assert forall|t: int| 0 <= t < kept.len() implies (#[trigger] kept[t]).physical_monitor_index
                != index by {
                old_self.virtuals().lemma_filter_pred(not_on(index), t);
            }
        }
        // Create new virtual monitors
        let mut created: Vec<VirtualMonitor> = Vec::new();
        let mut k: usize = 0;
        while k < config.regions.len()
            invariant
                self.wf(),
                k <= config.regions@.len(),
                old_self.virtuals().len() + config.regions@.len() <= MAX_VIRTUAL_MONITORS,
                kept.len() <= old_self.virtuals().len(),
                self.physicals() == old_self.physicals(),
                self.next_serial() == old_self.next_serial() + k,
                old_self.next_serial() + config.regions@.len() <= u32::MAX,
                physical == physical_for(old_self.physicals(), index),
                has_physical(old_self.physicals(), index),
                physical.index == index,
                created@.len() == k,
                self.virtuals() == kept + created@,
                all_regions_fit(config.regions@),
                regions_disjoint(config.regions@),
                forall|t: int| 0 <= t < kept.len() ==> (#[trigger] kept[t]).physical_monitor_index != index,
                forall|t: int|
                    0 <= t < k ==> is_created_monitor(
                        physical,
                        config.regions@[t],
                        (old_self.next_serial() + t) as nat,
                        #[trigger] created@[t],
                    ),
            decreases config.regions@.len() - k,
        {
            proof {
                assert forall|i: int| 0 <= i < self.virtuals().len() implies #[trigger] self.serials()[i]
                    < self.next_serial() by {
                    let _ = self.virtuals()[i];
                }
            }
            let vm = self.create_virtual_monitor(&physical, &config.regions[k]);
            proof {
                assert forall|i: int|
                    0 <= i < self.virtuals().len() && (#[trigger] self.virtuals()[i]).physical_monitor_index
                        == vm.physical_monitor_index implies !regions_overlap(
                    self.virtuals()[i].region,
                    vm.region,
                ) by {
                    if i < kept.len() {
                        assert(self.virtuals()[i] == kept[i]);
                    } else {
                        let t = i - kept.len();
                        assert(self.virtuals()[i] == created@[t]);
                        assert(is_created_monitor(physical, config.regions@[t], (old_self.next_serial() + t) as nat, created@[t]));
                        assert(!regions_overlap(config.regions@[t], config.regions@[k as int]));
                    }
                }
            }
            created.push(vm.clone());
            self.push_virtual_monitor(vm);
            k = k + 1;
        }
        Ok(created)
    }

    /// Appends a freshly created virtual monitor.
    fn push_virtual_monitor(&mut self, vm: VirtualMonitor)
        requires
            old(self).wf(),
            old(self).virtuals().len() < MAX_VIRTUAL_MONITORS,
            old(self).next_serial() > 0,
            vm.id@ == virtual_monitor_id((old(self).next_serial() - 1) as nat),
            has_physical(old(self).physicals(), vm.physical_monitor_index),
            forall|i: int|
                0 <= i < old(self).virtuals().len() ==> #[trigger] old(self).serials()[i]
                    < old(self).next_serial() - 1,
            region_fits(vm.region),
            forall|i: int|
                0 <= i < old(self).virtuals().len() && (#[trigger] old(self).virtuals()[i]).physical_monitor_index
                    == vm.physical_monitor_index ==> !regions_overlap(
                    old(self).virtuals()[i].region,
                    vm.region,
                ),
        ensures
            final(self).wf(),
            final(self).virtuals() == old(self).virtuals().push(vm),
            final(self).physicals() == old(self).physicals(),
            final(self).next_serial() == old(self).next_serial(),
    {
        self.virtual_monitors.push(vm);
        self.serials = Ghost(self.serials@.push((self.next_id - 1) as nat));
    }

    /// Remove all virtual monitors for a specific physical monitor, returning
    /// how many were removed.
    fn remove_splits(&mut self, monitor_index: u32) -> (removed: usize)
        requires
            old(self).wf(),
        ensures
            final(self).wf(),
            final(self).virtuals() == old(self).virtuals().filter(not_on(monitor_index)),
            forall|i: int|
                0 <= i < final(self).virtuals().len() ==> (#[trigger] final(self).virtuals()[i]).physical_monitor_index
                    != monitor_index,
            removed == old(self).virtuals().len() - final(self).virtuals().len(),
            final(self).physicals() == old(self).physicals(),
            final(self).next_serial() == old(self).next_serial(),
    {
        let before = self.virtual_monitors.len();
        self.retain_other_monitors(monitor_index);
        proof {
            let pred = not_on(monitor_index);
            old(self).virtuals().lemma_filter_len(pred);
            assert forall|i: int| 0 <= i < self.virtuals().len() implies (
            #[trigger] self.virtuals()[i]).physical_monitor_index != monitor_index by {
                old(self).virtuals().lemma_filter_pred(pred, i);
            }
        }
        before - self.virtual_monitors.len()
    }

    /// Remove all virtual monitors, returning how many were removed.
    fn remove_all(&mut self) -> (removed: usize)
        requires
            old(self).wf(),
        ensures
            final(self).wf(),
            final(self).virtuals().len() == 0,
            removed == old(self).virtuals().len(),
            final(self).physicals() == old(self).physicals(),
            final(self).next_serial() == old(self).next_serial(),
    {
        let count = self.virtual_monitors.len();
        self.virtual_monitors.clear();
        self.serials = Ghost(Seq::empty());
        count
    }

    fn create_virtual_monitor(&mut self, physical: &PhysicalMonitor, region: &SplitRegion) -> (vm:
        VirtualMonitor)
        requires
            old(self).wf(),
            old(self).next_serial() < u32::MAX,
        ensures
            final(self).wf(),
            is_created_monitor(*physical, *region, old(self).next_serial(), vm),
            final(self).next_serial() == old(self).next_serial() + 1,
            final(self).virtuals() == old(self).virtuals(),
            final(self).physicals() == old(self).physicals(),
            final(self).serials() == old(self).serials(),
    {
        let ghost before = *self;
        let id = self.next_id;
        self.next_id = self.next_id + 1;
        proof {
            assert(self.virtuals() == before.virtuals());
            assert(self.physicals() == before.physicals());
            assert(self.serials() == before.serials());
            assert forall|i: int| 0 <= i < self.virtuals().len() implies {
                &&& (#[trigger] self.virtuals()[i]).id@ == virtual_monitor_id(self.serials()[i])
                &&& self.serials()[i] < self.next_serial()
                &&& has_physical(self.physicals(), self.virtuals()[i].physical_monitor_index)
            } by {
                assert(before.virtuals()[i] == self.virtuals()[i]);
            }
            assert(self.wf());
        }
        let width = region.width.scale_length(physical.width);
        let height = region.height.scale_length(physical.height);
        let name = indexed_message("vm-", id as usize, "");
        proof {
            reveal_strlit("");
            assert(name@ =~= virtual_monitor_id(id as nat));
        }
        VirtualMonitor {
            id: name,
            physical_monitor_index: physical.index,
            region: *region,
            width,
            height,
        }
    }
}


/// The virtual monitors of a well-formed manager have pairwise different ids.
pub proof fn lemma_virtual_ids_distinct(m: MonitorManager)
    requires
        m.wf(),
    ensures
        forall|i: int, j: int|
            0 <= i < j < m.virtuals().len() ==> (#[trigger] m.virtuals()[i]).id@ != (
            #[trigger] m.virtuals()[j]).id@,
{
    assert forall|i: int, j: int| 0 <= i < j < m.virtuals().len() implies (
    #[trigger] m.virtuals()[i]).id@ != (#[trigger] m.virtuals()[j]).id@ by {
        assert(m.serials()[i] < m.serials()[j]);
        if m.virtuals()[i].id@ == m.virtuals()[j].id@ {
            lemma_prefixed_injective("vm-"@, decimal(m.serials()[i]), decimal(m.serials()[j]));
            lemma_decimal_injective(m.serials()[i], m.serials()[j]);
        }
    }
}

/// When some monitor in `ps` has system index `index`, a first one does.
pub proof fn lemma_first_physical_exists(ps: Seq<PhysicalMonitor>, index: u32)
    requires
        has_physical(ps, index),
    ensures
        exists|p: int| first_physical(ps, index, p),
    decreases ps.len(),
{
    if ps.last().index == index && !has_physical(ps.drop_last(), index) {
        assert(first_physical(ps, index, ps.len() - 1)) by {
            assert forall|q: int| 0 <= q < ps.len() - 1 implies (#[trigger] ps[q]).index != index by {
                assert(ps.drop_last()[q] == ps[q]);
            }
        }
    } else {
        if !has_physical(ps.drop_last(), index) {
            let p = choose|p: int| 0 <= p < ps.len() && #[trigger] ps[p].index == index;
            if p < ps.len() - 1 {
                assert(ps.drop_last()[p] == ps[p]);
            }
        }
        lemma_first_physical_exists(ps.drop_last(), index);
        let p = choose|p: int| first_physical(ps.drop_last(), index, p);
        assert(first_physical(ps, index, p)) by {
            assert forall|q: int| 0 <= q < p implies (#[trigger] ps[q]).index != index by {
                assert(ps.drop_last()[q] == ps[q]);
            }
        }
    }
}

/// The virtual monitors that a split creates all lie on the monitor it names.
pub proof fn lemma_split_monitors_on_target(m: MonitorManager, config: SplitConfig, created: Seq<VirtualMonitor>)
    requires
        has_physical(m.physicals(), config.monitor_index),
        split_creates(m, config, created),
    ensures
        forall|k: int|
            0 <= k < created.len() ==> (#[trigger] created[k]).physical_monitor_index
                == config.monitor_index,
{
    lemma_first_physical_exists(m.physicals(), config.monitor_index);
}

/// An equal split into `n` parts of a registered monitor is accepted when at
/// most `MAX_VIRTUAL_MONITORS` virtual monitors would exist beside it.
pub proof fn lemma_equal_split_accepted(m: MonitorManager, config: SplitConfig, n: nat)
    requires
        has_physical(m.physicals(), config.monitor_index),
        is_equal_horizontal_split(config.regions@, n) || is_equal_vertical_split(config.regions@, n),
        n >= 1,
        m.virtuals().len() + n <= MAX_VIRTUAL_MONITORS,
    ensures
        apply_split_error(m, config) is None,
{
    lemma_equal_split_valid(config.regions@, n);
}

proof fn lemma_filter_keeps_all(s: Seq<VirtualMonitor>, pred: spec_fn(VirtualMonitor) -> bool)
    requires
        forall|i: int| 0 <= i < s.len() ==> pred(#[trigger] s[i]),
    ensures
        s.filter(pred) == s,
    decreases s.len(),
{
    reveal_with_fuel(Seq::<_>::filter, 1);
    if s.len() > 0 {
        assert forall|i: int| 0 <= i < s.drop_last().len() implies pred(#[trigger] s.drop_last()[i]) by {
            assert(s.drop_last()[i] == s[i]);
        }
        lemma_filter_keeps_all(s.drop_last(), pred);
        assert(s.drop_last().push(s.last()) =~= s);
    }
}

proof fn lemma_filter_keeps_none(s: Seq<VirtualMonitor>, pred: spec_fn(VirtualMonitor) -> bool)
    requires
        forall|i: int| 0 <= i < s.len() ==> !pred(#[trigger] s[i]),
    ensures
        s.filter(pred) == Seq::<VirtualMonitor>::empty(),
    decreases s.len(),
{
    reveal_with_fuel(Seq::<_>::filter, 1);
    if s.len() > 0 {
        assert forall|i: int| 0 <= i < s.drop_last().len() implies !pred(#[trigger] s.drop_last()[i]) by {
            assert(s.drop_last()[i] == s[i]);
        }
        lemma_filter_keeps_none(s.drop_last(), pred);
    } else {
        assert(s =~= Seq::<VirtualMonitor>::empty());
    }
}

/// A successful split replaces the virtual monitors of its monitor: in the
/// resulting list, those of the other monitors are the ones there were
/// before, and those of its monitor are the created ones.
pub proof fn lemma_split_replaces(m: MonitorManager, config: SplitConfig, created: Seq<VirtualMonitor>)
    requires
        has_physical(m.physicals(), config.monitor_index),
        split_creates(m, config, created),
    ensures
        ({
            let after = m.virtuals().filter(not_on(config.monitor_index)) + created;
            &&& after.filter(not_on(config.monitor_index)) == m.virtuals().filter(
                not_on(config.monitor_index),
            )
            &&& after.filter(on(config.monitor_index)) == created
        }),
{
    let index = config.monitor_index;
    let kept = m.virtuals().filter(not_on(index));
    lemma_split_monitors_on_target(m, config, created);
    assert forall|i: int| 0 <= i < kept.len() implies not_on(index)(#[trigger] kept[i]) by {
        m.virtuals().lemma_filter_pred(not_on(index), i);
    }
    Seq::filter_distributes_over_add(kept, created, not_on(index));
    Seq::filter_distributes_over_add(kept, created, on(index));
    lemma_filter_keeps_all(kept, not_on(index));
    lemma_filter_keeps_none(kept, on(index));
    lemma_filter_keeps_none(created, not_on(index));
    lemma_filter_keeps_all(created, on(index));
    assert(kept + Seq::<VirtualMonitor>::empty() =~= kept);
    assert(Seq::<VirtualMonitor>::empty() + created =~= created);
}

/// The ids issued so far: "vm-<serial>" for every serial below the next one.
pub open spec fn issued_ids(m: MonitorManager) -> Set<Seq<char>> {
    Set::new(|id: Seq<char>| exists|serial: nat| serial < m.next_serial() && id == virtual_monitor_id(serial))
}

/// The ids of `vms`.
pub open spec fn ids_of(vms: Seq<VirtualMonitor>) -> Set<Seq<char>> {
    Set::new(|id: Seq<char>| exists|k: int| 0 <= k < vms.len() && id == (#[trigger] vms[k]).id@)
}

/// Every active virtual monitor of a well-formed manager has an issued id.
pub proof fn lemma_active_ids_issued(m: MonitorManager)
    requires
        m.wf(),
    ensures
        forall|i: int| 0 <= i < m.virtuals().len() ==> issued_ids(m).contains(#[trigger] m.virtuals()[i].id@),
{
    assert forall|i: int| 0 <= i < m.virtuals().len() implies issued_ids(m).contains(
        #[trigger] m.virtuals()[i].id@,
    ) by {
        let vm = m.virtuals()[i];
        assert(vm.id@ == virtual_monitor_id(m.serials()[i]));
        assert(m.serials()[i] < m.next_serial());
        let serial: nat = m.serials()[i];
        assert(serial < m.next_serial() && vm.id@ == virtual_monitor_id(serial));
    }
}

/// The ids that a split creates were never issued before and differ from
/// one another.
pub proof fn lemma_created_ids_fresh(m: MonitorManager, config: SplitConfig, created: Seq<VirtualMonitor>)
    requires
        split_creates(m, config, created),
    ensures
        forall|k: int| 0 <= k < created.len() ==> !issued_ids(m).contains(#[trigger] created[k].id@),
        forall|k: int, l: int| 0 <= k < l < created.len() ==> (#[trigger] created[k]).id@ != (
        #[trigger] created[l]).id@,
{
    assert forall|k: int| 0 <= k < created.len() implies !issued_ids(m).contains(
        #[trigger] created[k].id@,
    ) by {
        if issued_ids(m).contains(created[k].id@) {
            let serial = choose|serial: nat|
                serial < m.next_serial() && created[k].id@ == virtual_monitor_id(serial);
            lemma_prefixed_injective("vm-"@, decimal(serial), decimal((m.next_serial() + k) as nat));
            lemma_decimal_injective(serial, (m.next_serial() + k) as nat);
        }
    }
    assert forall|k: int, l: int| 0 <= k < l < created.len() implies (#[trigger] created[k]).id@ != (
    #[trigger] created[l]).id@ by {
        if created[k].id@ == created[l].id@ {
            lemma_prefixed_injective(
                "vm-"@,
                decimal((m.next_serial() + k) as nat),
                decimal((m.next_serial() + l) as nat),
            );
            lemma_decimal_injective((m.next_serial() + k) as nat, (m.next_serial() + l) as nat);
        }
    }
}

/// After a split, the issued ids are those issued before and the created
/// ones.
pub proof fn lemma_issued_after_split(
    m: MonitorManager,
    config: SplitConfig,
    created: Seq<VirtualMonitor>,
    after: MonitorManager,
)
    requires
        split_creates(m, config, created),
        after.next_serial() == m.next_serial() + created.len(),
    ensures
        issued_ids(after) == issued_ids(m) + ids_of(created),
{
    assert forall|id: Seq<char>| issued_ids(after).contains(id) implies (issued_ids(m) + ids_of(
        created,
    )).contains(id) by {
        let serial = choose|serial: nat| serial < after.next_serial() && id == virtual_monitor_id(serial);
        if serial >= m.next_serial() {
            let k = serial - m.next_serial();
            assert(created[k].id@ == id);
            assert(ids_of(created).contains(id));
        }
    }
    assert forall|id: Seq<char>| (issued_ids(m) + ids_of(created)).contains(id) implies issued_ids(
        after,
    ).contains(id) by {
        if issued_ids(m).contains(id) {
            let serial = choose|serial: nat| serial < m.next_serial() && id == virtual_monitor_id(serial);
            assert(serial < after.next_serial() && id == virtual_monitor_id(serial));
        } else {
            let k = choose|k: int| 0 <= k < created.len() && id == (#[trigger] created[k]).id@;
            let serial = (m.next_serial() + k) as nat;
            assert(serial < after.next_serial() && id == virtual_monitor_id(serial));
        }
    }
    assert(issued_ids(after) =~= issued_ids(m) + ids_of(created));
}

} // verus!
