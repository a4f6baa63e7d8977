# esp_host_bridge

A host metrics agent for ESP displays: it samples the host (CPU, memory,
network, disks, GPU, VMs, Docker containers) and sends the readings to the
display over USB serial as newline-terminated `KEY=value` lines, in five
rotating frames.

The logic is a library verified with Verus:

- `src/text.rs`, `src/number.rs`: text and decimal numbers (lines, words,
  trimming, splitting, parsing, one-decimal printing).
- `src/sensors.rs`: temperatures from `sensors`, `nvme`, `smartctl`, the
  thermal zones and hwmon, and the order in which disk probes are tried.
- `src/gpu.rs`: NVIDIA, AMD and Intel GPU readings.
- `src/disks.rs`: file system usage, `/proc/diskstats`, the disk to report.
- `src/vms.rs`, `src/docker.rs`: the VM and container summaries.
- `src/host.rs`: rates between samples and the snapshot of one sample.
- `src/serial_proto.rs`: the frames and the host-name line.
- `src/session.rs`: the main loop's decisions (port, frame rotation).

Measured values are carried in thousandths (of a percent, a degree, a KB/s)
and printed with one decimal. Numbers are read exactly, in finite float notation
(sign, digits with an optional point, optional exponent). The tests that
decide whether a reading is kept (a temperature from -20 to 150 degrees,
a zone reading above 1000) are made as the nearest `f32` or `f64` would
pass them: each bound is widened by half the float spacing next to it
(150 + 2^-17 for an `f32`, for instance), ties going to the even float.
Percentages are worked out from the exact digits. Values are then cut
toward zero to thousandths and printed with one decimal, rounding half to
even on the thousandths.

`app/` is the program around it: argument parsing, reading `/proc`, `/sys`
and sysinfo, running the helper commands, and writing to the serial port.
