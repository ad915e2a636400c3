# cosmic-applet-system-monitor

A COSMIC panel applet that shows CPU, RAM and GPU load, with its logic
verified by Verus.

- `src/` is the verified library:
  - `text.rs`: trimming Unicode whitespace and searching substrings.
  - `number.rs`: readings rounded to whole units or tenths and their decimal
    text; right-aligned padding.
  - `order.rs`: the order of `str::cmp` on names.
  - `monitor.rs`: GPU discovery over a snapshot of `/sys/class/drm` (which
    `card*` entries give a reader, with which load and temperature files,
    sorted by name, neighbours with the same load file dropped) and the
    sample type the applet shows.
  - `cpu_temp.rs`: the search for the CPU temperature among the hwmon
    sensors, as a state machine that asks for one file at a time.
  - `window.rs`: the panel and popup text and the applet's reactions to its
    messages.
- `app/` is the program around it: sampling with `sysinfo`, reading sysfs,
  rounding the floating-point readings, and the libcosmic widgets.
- `tests/` runs the library on concrete values.
