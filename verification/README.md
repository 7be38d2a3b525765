# usb_device_history

The logic of a USB device history scanner for Windows, verified with Verus.

- `src/` is the verified library: parsing of `setupapi.dev.log` lines and of
  event log query output (`eventlog`, `setupapi`), device identifiers and
  categories (`vendors`, `device`), the report's filtering, duplicate merging,
  grouping and timestamp matching (`history`), MountedDevices and WMI rows
  (`mounted`, `wmi_query`), a string-keyed map (`timestamps`) and character
  helpers (`text`).
- `app/` is the program around it: registry, file, process and WMI access,
  the async orchestration, and coloured printing.
- `tests/` exercises the library on concrete inputs.

Manufacturer names are looked up in a vendor table that the caller passes
to `UsbDevice::from_registry`; the program ships no manufacturer list, so
`app/` passes an empty table and devices carry no vendor name.

Dates are parsed by `chrono`; its results are named in the contracts
(`naive_datetime_utc`, `rfc3339_instant`), as are `str::to_lowercase` and
`String::from_utf8_lossy` on invalid input.
