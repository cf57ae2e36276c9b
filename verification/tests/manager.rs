use btmanagerd::manager::{set_floss_enabled_steps, AdapterWithEnabled, BluetoothManager, FlossStep};
use btmanagerd::media::{start_a2dp_action, A2dpStartAction};

fn adapter(hci_interface: i32, enabled: bool) -> AdapterWithEnabled {
    AdapterWithEnabled { hci_interface, enabled }
}

#[test]
fn new_manager_knows_nothing() {
    let m = BluetoothManager::new();
    assert_eq!(m.get_available_adapters(&vec![0, 1]), vec![adapter(0, false), adapter(1, false)]);
}

#[test]
fn enabled_change_is_read_back() {
    let mut m = BluetoothManager::new();
    m.callback_hci_enabled_change(1, true);
    assert_eq!(m.get_available_adapters(&vec![0, 1]), vec![adapter(0, false), adapter(1, true)]);
    m.callback_hci_enabled_change(1, false);
    assert_eq!(m.get_available_adapters(&vec![1]), vec![adapter(1, false)]);
}

#[test]
fn device_present_keeps_known_state() {
    let mut m = BluetoothManager::new();
    m.callback_hci_enabled_change(2, true);
    m.callback_hci_device_change(2, true);
    assert_eq!(m.get_available_adapters(&vec![2]), vec![adapter(2, true)]);
    m.callback_hci_device_change(3, true);
    assert_eq!(m.get_available_adapters(&vec![3, 2]), vec![adapter(3, false), adapter(2, true)]);
}

#[test]
fn device_gone_comes_back_disabled() {
    let mut m = BluetoothManager::new();
    m.callback_hci_enabled_change(4, true);
    m.callback_hci_device_change(4, false);
    assert_eq!(m.get_available_adapters(&vec![4]), vec![adapter(4, false)]);
    m.callback_hci_device_change(4, true);
    assert_eq!(m.get_available_adapters(&vec![4]), vec![adapter(4, false)]);
    // Removing a device that was never there is ignored.
    m.callback_hci_device_change(9, false);
    assert_eq!(m.get_available_adapters(&vec![9]), vec![adapter(9, false)]);
}

#[test]
fn other_devices_are_untouched() {
    let mut m = BluetoothManager::new();
    m.callback_hci_enabled_change(0, true);
    m.callback_hci_enabled_change(1, true);
    m.callback_hci_device_change(1, false);
    assert_eq!(m.get_available_adapters(&vec![0, 1]), vec![adapter(0, true), adapter(1, false)]);
}

#[test]
fn adapters_follow_the_given_order_with_repeats() {
    let mut m = BluetoothManager::new();
    m.callback_hci_enabled_change(5, true);
    assert_eq!(
        m.get_available_adapters(&vec![5, 0, 5]),
        vec![adapter(5, true), adapter(0, false), adapter(5, true)]
    );
    assert_eq!(m.get_available_adapters(&vec![]), vec![]);
}

#[test]
fn callbacks_get_increasing_ids_and_are_notified_in_order() {
    let mut m = BluetoothManager::new();
    assert_eq!(m.callback_hci_device_change(0, true), Vec::<u32>::new());
    assert_eq!(m.register_callback(), 1);
    assert_eq!(m.register_callback(), 2);
    assert_eq!(m.register_callback(), 3);
    assert_eq!(m.callback_hci_device_change(0, true), vec![1, 2, 3]);
    assert_eq!(m.callback_hci_enabled_change(0, true), vec![1, 2, 3]);
}

#[test]
fn disconnect_removes_only_that_client() {
    let mut m = BluetoothManager::new();
    m.register_callback();
    m.register_callback();
    m.register_callback();
    m.callback_disconnected(2);
    assert_eq!(m.callback_hci_enabled_change(0, false), vec![1, 3]);
    m.callback_disconnected(2);
    assert_eq!(m.callback_hci_enabled_change(0, false), vec![1, 3]);
    m.callback_disconnected(7);
    assert_eq!(m.callback_hci_device_change(0, true), vec![1, 3]);
}

#[test]
fn register_then_disconnect_restores_clients() {
    let mut m = BluetoothManager::new();
    m.register_callback();
    let id = m.register_callback();
    m.callback_disconnected(id);
    assert_eq!(m.callback_hci_device_change(1, true), vec![1]);
    // Ids are never given out twice.
    assert_eq!(m.register_callback(), 3);
}

#[test]
fn floss_steps() {
    let devices = vec![2, 0];
    assert_eq!(set_floss_enabled_steps(false, false, &devices, true), vec![]);
    assert_eq!(set_floss_enabled_steps(true, true, &devices, false), vec![]);
    assert_eq!(set_floss_enabled_steps(true, true, &vec![], true), vec![]);
    assert_eq!(
        set_floss_enabled_steps(false, true, &devices, true),
        vec![FlossStep::StopBluez, FlossStep::StartAdapter(2)]
    );
    assert_eq!(set_floss_enabled_steps(false, true, &devices, false), vec![FlossStep::StopBluez]);
    assert_eq!(
        set_floss_enabled_steps(true, false, &devices, true),
        vec![FlossStep::StopAdapter(2), FlossStep::StartBluez]
    );
    assert_eq!(
        set_floss_enabled_steps(true, false, &devices, false),
        vec![FlossStep::StopAdapter(2), FlossStep::StartBluez]
    );
}

#[test]
fn last_id_is_readable() {
    let mut m = BluetoothManager::new();
    assert_eq!(m.callbacks_last_id(), 0);
    m.register_callback();
    m.register_callback();
    m.callback_disconnected(2);
    assert_eq!(m.callbacks_last_id(), 2);
}

#[test]
fn enabled_state_survives_events_on_other_devices() {
    let mut m = BluetoothManager::new();
    m.callback_hci_enabled_change(1, true);
    m.callback_hci_device_change(0, true);
    m.callback_hci_enabled_change(0, true);
    m.callback_hci_device_change(0, false);
    m.callback_hci_device_change(2, true);
    assert_eq!(
        m.get_available_adapters(&vec![0, 1, 2, 3]),
        vec![adapter(0, false), adapter(1, true), adapter(2, false), adapter(3, false)]
    );
}

#[test]
fn a2dp_start_actions() {
    assert_eq!(start_a2dp_action(true, false), A2dpStartAction::Answer);
    assert_eq!(start_a2dp_action(true, true), A2dpStartAction::Answer);
    assert_eq!(start_a2dp_action(false, true), A2dpStartAction::InitializeSinkAndAnswer);
    assert_eq!(start_a2dp_action(false, false), A2dpStartAction::NoAnswer);
}
