# btmanagerd

The decision logic of the Floss Bluetooth manager daemon and of the adapter
service's command line, verified with Verus.

- `src/service.rs`: which adapter the service serves (`--hci=N`), and the
  D-Bus object paths it exports.
- `src/decimal.rs`: decimal text of `i32` values, parsed and printed.
- `src/manager.rs`: the manager's cache of HCI devices, its registered
  clients, the laws over sequences of device events, and the steps that a
  change of the Floss setting asks of the daemon.
- `src/media.rs`: the media facade's answer to a request to start A2DP.
- `app/`: logging, the command line, the media facade's A2DP start, and a
  shell that carries the manager's
  decisions out against the platform.
