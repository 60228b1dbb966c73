# droidianos

The verified core of the droidianOS desktop services, written in Verus.

`src/` holds the logic, each function with a contract that Verus proves:

- `manifest`, `apk`: the Android binary manifest decoder and the APK metadata it yields
  (JSON form, confirmation text, permission classes);
- `json`, `text`, `sorted`: the small JSON dialect the services write and read back, and the
  character-level helpers beneath it;
- `permissions`, `transactions`, `updates`, `installer`, `integration`, `notifications`,
  `settings`, `software`, `dialog`: what each service and application decides and writes;
- `dbus`, `services`: D-Bus messages as plain values and the request each one makes;
- `readback`: the proofs that the policy file and the application registry give back what
  was written.

`app/` is the ordinary Rust around it: the libdbus connection, processes, files, dialogs
and the programs' main loops. `tests/` runs the library on concrete values.
