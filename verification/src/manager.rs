//! The Bluetooth manager's own state: the HCI devices it has heard of, with
//! whether each is enabled, and the clients registered for its callbacks.
//!
//! The manager decides; the daemon around it talks to D-Bus, to the adapter
//! state machine and to the configuration files. Each event that must reach
//! the registered clients returns the ids of the clients to notify, in the
//! order in which they registered.
use std::collections::HashMap;

use vstd::prelude::*;

verus! {

broadcast use vstd::std_specs::hash::group_hash_axioms;

/// An HCI adapter as reported to clients, with whether it is enabled.
#[derive(Clone, Copy, Debug, PartialEq, Eq, Structural)]
pub struct AdapterWithEnabled {
    pub hci_interface: i32,
    pub enabled: bool,
}

/// One thing that changing the Floss setting asks of the daemon.
#[derive(Clone, Copy, Debug, PartialEq, Eq, Structural)]
pub enum FlossStep {
    /// Stop the BlueZ daemon.
    StopBluez,
    /// Start the BlueZ daemon.
    StartBluez,
    /// Start the Floss stack on this adapter.
    StartAdapter(i32),
    /// Stop the Floss stack on this adapter.
    StopAdapter(i32),
}

/// An event that the manager hears about a device.
#[derive(Clone, Copy, Debug, PartialEq, Eq, Structural)]
pub enum DeviceEvent {
    /// The device appeared (`true`) or went away (`false`).
    Presence(i32, bool),
    /// The device reported whether it is enabled.
    Enabled(i32, bool),
}

/// The devices known after device `d` appeared (`present`) or went away:
/// a new device starts disabled, a known one keeps its state, a device that
/// went away is forgotten.
pub open spec fn after_device_change(m: Map<i32, bool>, d: i32, present: bool) -> Map<i32, bool> {
    if present {
        if m.contains_key(d) {
            m
        } else {
            m.insert(d, false)
        }
    } else {
        m.remove(d)
    }
}

/// The devices known after device `d` reported that it is `enabled` or not.
pub open spec fn after_enabled_change(m: Map<i32, bool>, d: i32, enabled: bool) -> Map<i32, bool> {
    m.insert(d, enabled)
}

/// Whether device `d` is reported enabled: an unknown device is not.
pub open spec fn adapter_enabled(m: Map<i32, bool>, d: i32) -> bool {
    m.contains_key(d) && m[d]
}

/// The callback ids `s` without `id`, the others in their order.
pub open spec fn without_id(s: Seq<u32>, id: u32) -> Seq<u32>
    decreases s.len(),
{
    if s.len() == 0 {
        s
    } else if s.last() == id {
        without_id(s.drop_last(), id)
    } else {
        without_id(s.drop_last(), id).push(s.last())
    }
}

/// Ids in strictly increasing order.
pub open spec fn strictly_increasing(s: Seq<u32>) -> bool {
    forall|i: int, j: int| 0 <= i < j < s.len() ==> s[i] < s[j]
}

/// The device that an event is about.
pub open spec fn event_device(ev: DeviceEvent) -> i32 {
    match ev {
        DeviceEvent::Presence(d, _) => d,
        DeviceEvent::Enabled(d, _) => d,
    }
}

/// The devices known after one event: what `callback_hci_device_change` or
/// `callback_hci_enabled_change` makes of them.
pub open spec fn apply_event(m: Map<i32, bool>, ev: DeviceEvent) -> Map<i32, bool> {
    match ev {
        DeviceEvent::Presence(d, present) => after_device_change(m, d, present),
        DeviceEvent::Enabled(d, enabled) => after_enabled_change(m, d, enabled),
    }
}

/// The devices known after the events `evs`, in order.
pub open spec fn apply_events(m: Map<i32, bool>, evs: Seq<DeviceEvent>) -> Map<i32, bool>
    decreases evs.len(),
{
    if evs.len() == 0 {
        m
    } else {
        apply_events(apply_event(m, evs[0]), evs.drop_first())
    }
}

/// None of the events `evs` is about device `d`.
pub open spec fn none_about(evs: Seq<DeviceEvent>, d: i32) -> bool {
    forall|i: int| 0 <= i < evs.len() ==> event_device(#[trigger] evs[i]) != d
}

/// What changing the Floss setting from `prev` to `enabled` asks of the
/// daemon, in order, given the adapters that the system lists and whether
/// the configuration enables the first of them, the default adapter: when
/// Floss takes over, stop BlueZ, then start the default adapter if its
/// configuration enables it; when BlueZ takes over, stop the default
/// adapter, then start BlueZ; when the setting keeps its value, nothing.
pub open spec fn spec_floss_steps(
    prev: bool,
    enabled: bool,
    hci_devices: Seq<i32>,
    default_enabled: bool,
) -> Seq<FlossStep> {
    if prev == enabled {
        seq![]
    } else if enabled {
        if default_enabled {
            seq![FlossStep::StopBluez, FlossStep::StartAdapter(hci_devices[0])]
        } else {
            seq![FlossStep::StopBluez]
        }
    } else {
        seq![FlossStep::StopAdapter(hci_devices[0]), FlossStep::StartBluez]
    }
}

/// The manager's state.
pub struct BluetoothManager {
    callbacks: Vec<u32>,
    callbacks_last_id: u32,
    cached_devices: HashMap<i32, bool>,
}

impl BluetoothManager {
    /// Ids of the registered clients, in the order in which they registered.
    pub closed spec fn callback_ids(&self) -> Seq<u32> {
        self.callbacks@
    }

    /// The id given to the last client that registered (0 before any).
    pub closed spec fn last_callback_id(&self) -> u32 {
        self.callbacks_last_id
    }

    /// The devices heard of, each with whether it is enabled.
    pub closed spec fn devices(&self) -> Map<i32, bool> {
        self.cached_devices@
    }

    /// Registered ids are distinct, in the order given out, and none is
    /// above the last one given out.
    #[verifier::type_invariant]
    spec fn well_formed(self) -> bool {
        &&& strictly_increasing(self.callbacks@)
        &&& forall|i: int|
            0 <= i < self.callbacks@.len() ==> #[trigger] self.callbacks@[i]
                <= self.callbacks_last_id
    }

    /// The id given to the last client that registered (0 before any).
    pub fn callbacks_last_id(&self) -> (id: u32)
        ensures
            id == self.last_callback_id(),
    {
        self.callbacks_last_id
    }

    /// A manager that knows no device and no client.
    pub fn new() -> (m: BluetoothManager)
        ensures
            m.callback_ids() == Seq::<u32>::empty(),
            m.last_callback_id() == 0,
            m.devices() == Map::<i32, bool>::empty(),
    {
        BluetoothManager { callbacks: Vec::new(), callbacks_last_id: 0, cached_devices: HashMap::new() }
    }

    /// Device `hci_device` appeared (`present`) or went away; returns the
    /// clients to tell of it.
    pub fn callback_hci_device_change(&mut self, hci_device: i32, present: bool) -> (notify: Vec<
        u32,
    >)
        ensures
            final(self).devices() == after_device_change(old(self).devices(), hci_device, present),
            final(self).devices() == apply_event(
                old(self).devices(),
                DeviceEvent::Presence(hci_device, present),
            ),
            final(self).callback_ids() == old(self).callback_ids(),
            final(self).last_callback_id() == old(self).last_callback_id(),
            notify@ == old(self).callback_ids(),
    {
        proof {
            use_type_invariant(&*self);
        }
        let mut devices: HashMap<i32, bool> = HashMap::new();
        std::mem::swap(&mut devices, &mut self.cached_devices);
        if present {
            if !devices.contains_key(&hci_device) {
                devices.insert(hci_device, false);
            }
        } else {
            devices.remove(&hci_device);
        }
        self.cached_devices = devices;
        self.callbacks.clone()
    }

    /// Device `hci_device` reported whether it is `enabled`; returns the
    /// clients to tell of it. A device not heard of before becomes known.
    pub fn callback_hci_enabled_change(&mut self, hci_device: i32, enabled: bool) -> (notify: Vec<
        u32,
    >)
        ensures
            final(self).devices() == after_enabled_change(old(self).devices(), hci_device, enabled),
            final(self).devices() == apply_event(
                old(self).devices(),
                DeviceEvent::Enabled(hci_device, enabled),
            ),
            final(self).callback_ids() == old(self).callback_ids(),
            final(self).last_callback_id() == old(self).last_callback_id(),
            notify@ == old(self).callback_ids(),
    {
        proof {
            use_type_invariant(&*self);
        }
        let mut devices: HashMap<i32, bool> = HashMap::new();
        std::mem::swap(&mut devices, &mut self.cached_devices);
        devices.insert(hci_device, enabled);
        self.cached_devices = devices;
        self.callbacks.clone()
    }

    /// A client is gone: forgets its id, keeping the others in order.
    pub fn callback_disconnected(&mut self, id: u32)
        ensures
            final(self).callback_ids() == without_id(old(self).callback_ids(), id),
            final(self).callback_ids() == old(self).callback_ids().filter(|x: u32| x != id),
            final(self).last_callback_id() == old(self).last_callback_id(),
            final(self).devices() == old(self).devices(),
    {
        proof {
            use_type_invariant(&*self);
        }
        let n = self.callbacks.len();
        let mut kept: Vec<u32> = Vec::new();
        let mut i: usize = 0;
        while i < n
            invariant
                n == self.callbacks@.len(),
                i <= n,
                kept@ == without_id(self.callbacks@.take(i as int), id),
            decreases n - i,
        {
            let x = self.callbacks[i];
            proof {
                assert(self.callbacks@.take(i + 1).drop_last() =~= self.callbacks@.take(i as int));
                assert(self.callbacks@.take(i + 1).last() == x);
            }
            if x != id {
                kept.push(x);
            }
            i = i + 1;
        }
        proof {
            assert(self.callbacks@.take(n as int) =~= self.callbacks@);
            lemma_without_id_keeps_order(self.callbacks@, id);
            lemma_without_id_members(self.callbacks@, id);
            lemma_disconnect_keeps_the_others(self.callbacks@, id);
        }
        self.callbacks = kept;
    }

    /// A client registers; returns the id that it is known by from now on,
    /// one above the last id given out.
    pub fn register_callback(&mut self) -> (id: u32)
        requires
            old(self).last_callback_id() < u32::MAX,
        ensures
            id == old(self).last_callback_id() + 1,
            !old(self).callback_ids().contains(id),
            final(self).callback_ids() == old(self).callback_ids().push(id),
            final(self).last_callback_id() == id,
            final(self).devices() == old(self).devices(),
    {
        proof {
            use_type_invariant(&*self);
        }
        let id = self.callbacks_last_id + 1;
        let mut callbacks: Vec<u32> = Vec::new();
        std::mem::swap(&mut callbacks, &mut self.callbacks);
        self.callbacks_last_id = id;
        callbacks.push(id);
        self.callbacks = callbacks;
        id
    }

    /// The adapters `hci_devices`, in their order, each with whether it is
    /// enabled as far as the manager has heard.
    pub fn get_available_adapters(&self, hci_devices: &Vec<i32>) -> (adapters: Vec<
        AdapterWithEnabled,
    >)
        ensures
            adapters@.len() == hci_devices@.len(),
            forall|i: int|
                0 <= i < hci_devices@.len() ==> #[trigger] adapters@[i] == (AdapterWithEnabled {
                    hci_interface: hci_devices@[i],
                    enabled: adapter_enabled(self.devices(), hci_devices@[i]),
                }),
    {
        let mut adapters: Vec<AdapterWithEnabled> = Vec::new();
        let mut i: usize = 0;
        while i < hci_devices.len()
            invariant
                i <= hci_devices@.len(),
                adapters@.len() == i,
                forall|j: int|
                    0 <= j < i ==> #[trigger] adapters@[j] == (AdapterWithEnabled {
                        hci_interface: hci_devices@[j],
                        enabled: adapter_enabled(self.devices(), hci_devices@[j]),
                    }),
            decreases hci_devices@.len() - i,
        {
            let hci_interface = hci_devices[i];
            let enabled = match self.cached_devices.get(&hci_interface) {
                Some(e) => *e,
                None => false,
            };
            adapters.push(AdapterWithEnabled { hci_interface, enabled });
            i = i + 1;
        }
        adapters
    }
}

/// What changing the Floss setting from `prev` to `enabled` asks of the
/// daemon, in order. `hci_devices` are the adapters that the system lists,
/// the first being the default one, and `default_enabled` whether the
/// configuration enables it. A change needs at least one adapter.
pub fn set_floss_enabled_steps(
    prev: bool,
    enabled: bool,
    hci_devices: &Vec<i32>,
    default_enabled: bool,
) -> (steps: Vec<FlossStep>)
    requires
        prev != enabled ==> hci_devices@.len() > 0,
    ensures
        steps@ == spec_floss_steps(prev, enabled, hci_devices@, default_enabled),
{
    let mut steps: Vec<FlossStep> = Vec::new();
    if prev != enabled && enabled {
        steps.push(FlossStep::StopBluez);
        if default_enabled {
            steps.push(FlossStep::StartAdapter(hci_devices[0]));
        }
    } else if prev != enabled {
        steps.push(FlossStep::StopAdapter(hci_devices[0]));
        steps.push(FlossStep::StartBluez);
    }
    assert(steps@ =~= spec_floss_steps(prev, enabled, hci_devices@, default_enabled));
    steps
}

/// A device reports, once asked, the enabled state it last announced.
pub proof fn lemma_query_after_enabled_change(m: Map<i32, bool>, d: i32, enabled: bool)
    ensures
        adapter_enabled(after_enabled_change(m, d, enabled), d) == enabled,
{
}

/// A device that appears keeps the state known for it; one not heard of
/// before is disabled; a second appearance changes nothing.
pub proof fn lemma_device_appears(m: Map<i32, bool>, d: i32)
    ensures
        after_device_change(m, d, true).contains_key(d),
        adapter_enabled(after_device_change(m, d, true), d) == adapter_enabled(m, d),
        after_device_change(after_device_change(m, d, true), d, true) == after_device_change(
            m,
            d,
            true,
        ),
{
}

/// A device that went away is forgotten, and is disabled when it comes
/// back, whatever it was before.
pub proof fn lemma_device_goes_away(m: Map<i32, bool>, d: i32)
    ensures
        !after_device_change(m, d, false).contains_key(d),
        !adapter_enabled(after_device_change(m, d, false), d),
        !adapter_enabled(after_device_change(after_device_change(m, d, false), d, true), d),
{
}

/// An event about one device leaves every other device as it was.
pub proof fn lemma_events_leave_other_devices(
    m: Map<i32, bool>,
    d: i32,
    other: i32,
    present: bool,
    enabled: bool,
)
    requires
        d != other,
    ensures
        after_device_change(m, d, present).contains_key(other) == m.contains_key(other),
        adapter_enabled(after_device_change(m, d, present), other) == adapter_enabled(m, other),
        after_enabled_change(m, d, enabled).contains_key(other) == m.contains_key(other),
        adapter_enabled(after_enabled_change(m, d, enabled), other) == adapter_enabled(m, other),
{
}

/// Switching between Floss and BlueZ: a setting that keeps its value asks
/// for nothing; turning Floss on stops BlueZ and then starts the first listed
/// adapter exactly when its configuration enables it, however many adapters
/// are listed; turning Floss off stops the first listed adapter and then
/// starts BlueZ, whatever its configuration says.
pub proof fn lemma_floss_switch(hci_devices: Seq<i32>, setting: bool, default_enabled: bool)
    requires
        hci_devices.len() > 0,
    ensures
        spec_floss_steps(setting, setting, hci_devices, default_enabled).len() == 0,
        default_enabled ==> spec_floss_steps(false, true, hci_devices, default_enabled) == seq![
            FlossStep::StopBluez,
            FlossStep::StartAdapter(hci_devices[0]),
        ],
        !default_enabled ==> spec_floss_steps(false, true, hci_devices, default_enabled) == seq![
            FlossStep::StopBluez,
        ],
        spec_floss_steps(true, false, hci_devices, default_enabled) == seq![
            FlossStep::StopAdapter(hci_devices[0]),
            FlossStep::StartBluez,
        ],
{
}

/// Events about other devices leave device `d` as it was.
pub proof fn lemma_other_events_leave_device(m: Map<i32, bool>, evs: Seq<DeviceEvent>, d: i32)
    requires
        none_about(evs, d),
    ensures
        apply_events(m, evs).contains_key(d) == m.contains_key(d),
        adapter_enabled(apply_events(m, evs), d) == adapter_enabled(m, d),
    decreases evs.len(),
{
    if evs.len() > 0 {
        let m1 = apply_event(m, evs[0]);
        assert(event_device(evs[0]) != d);
        assert(m1.contains_key(d) == m.contains_key(d) && adapter_enabled(m1, d) == adapter_enabled(
            m,
            d,
        ));
        assert forall|i: int| 0 <= i < evs.drop_first().len() implies event_device(
            #[trigger] evs.drop_first()[i],
        ) != d by {
            assert(evs.drop_first()[i] == evs[i + 1]);
        }
        lemma_other_events_leave_device(m1, evs.drop_first(), d);
    }
}

/// After device `d` reported whether it is `enabled`, the adapters report
/// that for it, whatever events about other devices come after.
pub proof fn lemma_enabled_change_survives_other_events(
    m: Map<i32, bool>,
    d: i32,
    enabled: bool,
    later: Seq<DeviceEvent>,
)
    requires
        none_about(later, d),
    ensures
        adapter_enabled(apply_events(m, seq![DeviceEvent::Enabled(d, enabled)] + later), d)
            == enabled,
{
    let evs = seq![DeviceEvent::Enabled(d, enabled)] + later;
    assert(evs[0] == DeviceEvent::Enabled(d, enabled));
    assert(evs.drop_first() =~= later);
    lemma_other_events_leave_device(after_enabled_change(m, d, enabled), later, d);
}

/// After device `d` went away, the adapters report it disabled, whatever
/// events about other devices come after.
pub proof fn lemma_removal_survives_other_events(
    m: Map<i32, bool>,
    d: i32,
    later: Seq<DeviceEvent>,
)
    requires
        none_about(later, d),
    ensures
        !adapter_enabled(apply_events(m, seq![DeviceEvent::Presence(d, false)] + later), d),
{
    let evs = seq![DeviceEvent::Presence(d, false)] + later;
    assert(evs[0] == DeviceEvent::Presence(d, false));
    assert(evs.drop_first() =~= later);
    lemma_other_events_leave_device(after_device_change(m, d, false), later, d);
}

/// A device never reported to a new manager is reported disabled.
pub proof fn lemma_unreported_device_disabled(evs: Seq<DeviceEvent>, d: i32)
    requires
        none_about(evs, d),
    ensures
        !adapter_enabled(apply_events(Map::<i32, bool>::empty(), evs), d),
{
    lemma_other_events_leave_device(Map::<i32, bool>::empty(), evs, d);
}

/// Disconnecting `id` keeps exactly the other ids, in their order: the list
/// filtered by `x != id`; every other registered id is still registered.
pub proof fn lemma_disconnect_keeps_the_others(s: Seq<u32>, id: u32)
    ensures
        without_id(s, id) == s.filter(|x: u32| x != id),
        forall|i: int| 0 <= i < s.len() && s[i] != id ==> without_id(s, id).contains(s[i]),
        without_id(s, id).len() <= s.len(),
    decreases s.len(),
{
    reveal(Seq::filter);
    if s.len() > 0 {
        lemma_disconnect_keeps_the_others(s.drop_last(), id);
        let r = without_id(s.drop_last(), id);
        assert forall|i: int| 0 <= i < s.len() && s[i] != id implies without_id(s, id).contains(
            s[i],
        ) by {
            if i == s.len() - 1 {
                assert(without_id(s, id)[without_id(s, id).len() - 1] == s[i]);
            } else {
                assert(s.drop_last()[i] == s[i]);
                let k = choose|k: int| 0 <= k < r.len() && r[k] == s[i];
                if s.last() != id {
                    assert(without_id(s, id)[k] == s[i]);
                }
            }
        }
    }
}

/// Removing an id that is not there changes nothing.
proof fn lemma_without_absent_id(s: Seq<u32>, id: u32)
    requires
        !s.contains(id),
    ensures
        without_id(s, id) == s,
    decreases s.len(),
{
    if s.len() > 0 {
        assert(!s.drop_last().contains(id)) by {
            if s.drop_last().contains(id) {
                let j = choose|j: int| 0 <= j < s.drop_last().len() && s.drop_last()[j] == id;
                assert(s[j] == id);
            }
        }
        lemma_without_absent_id(s.drop_last(), id);
        assert(s.drop_last().push(s.last()) =~= s);
    }
}

/// A client that registers and then disconnects leaves the list of clients
/// as it found it.
pub proof fn lemma_disconnect_undoes_register(s: Seq<u32>, id: u32)
    requires
        !s.contains(id),
    ensures
        without_id(s.push(id), id) == s,
{
    assert(s.push(id).drop_last() =~= s);
    lemma_without_absent_id(s, id);
}

/// A second disconnection of the same client changes nothing, and no
/// disconnected id stays registered.
pub proof fn lemma_disconnect_idempotent(s: Seq<u32>, id: u32)
    ensures
        !without_id(s, id).contains(id),
        without_id(without_id(s, id), id) == without_id(s, id),
{
    lemma_without_id_members(s, id);
    lemma_without_absent_id(without_id(s, id), id);
}

/// Removing an id keeps only ids that were there, and none equal to it.
proof fn lemma_without_id_members(s: Seq<u32>, id: u32)
    ensures
        forall|k: int|
            0 <= k < without_id(s, id).len() ==> exists|j: int|
                0 <= j < s.len() && s[j] == #[trigger] without_id(s, id)[k],
        !without_id(s, id).contains(id),
    decreases s.len(),
{
    if s.len() > 0 {
        let p = s.drop_last();
        lemma_without_id_members(p, id);
        let r = without_id(p, id);
        if s.last() != id {
            let w = r.push(s.last());
            assert forall|k: int| 0 <= k < w.len() implies exists|j: int|
                0 <= j < s.len() && s[j] == #[trigger] w[k] by {
                if k == w.len() - 1 {
                    assert(s[s.len() - 1] == w[k]);
                } else {
                    assert(w[k] == r[k]);
                    let j = choose|j: int| 0 <= j < p.len() && p[j] == r[k];
                    assert(s[j] == w[k]);
                }
            }
            assert(!w.contains(id)) by {
                if w.contains(id) {
                    let k = choose|k: int| 0 <= k < w.len() && w[k] == id;
                    if k < w.len() - 1 {
                        assert(r[k] == id);
                    }
                }
            }
        } else {
            assert forall|k: int| 0 <= k < r.len() implies exists|j: int|
                0 <= j < s.len() && s[j] == #[trigger] r[k] by {
                let j = choose|j: int| 0 <= j < p.len() && p[j] == r[k];
                assert(s[j] == r[k]);
            }
        }
    }
}

/// Removing an id keeps the others in increasing order.
proof fn lemma_without_id_keeps_order(s: Seq<u32>, id: u32)
    requires
        strictly_increasing(s),
    ensures
        strictly_increasing(without_id(s, id)),
    decreases s.len(),
{
    if s.len() > 0 {
        let p = s.drop_last();
        lemma_without_id_keeps_order(p, id);
        lemma_without_id_members(p, id);
        let r = without_id(p, id);
        assert forall|k: int| 0 <= k < r.len() implies #[trigger] r[k] < s.last() by {
            let j = choose|j: int| 0 <= j < p.len() && p[j] == r[k];
            assert(s[j] == r[k]);
        }
    }
}

} // verus!
