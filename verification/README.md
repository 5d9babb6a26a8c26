# z_sight

The verified core of Z-Sight, a ZRAM monitor for the Linux terminal.

`src/` is a Verus library:

- `zram` parses `/sys/block/zram0/mm_stat` and single-value sysfs files;
- `swap` parses `/proc/swaps`, orders entries by priority and sums them;
- `processes` ranks processes by resident memory (through `sysinfo`);
- `system` reads RAM figures (through `sysinfo`);
- `alerts` decides when the usage and compression alerts fire, with a
  60-second cooldown each;
- `main_loop` decides what a key press and a tick do (quit, pause, refresh);
- `ui`, `logger`, `fmt`, `calendar` render byte counts, ISO-8601 timestamps
  (proleptic Gregorian dates) and the log path;
- `history` keeps the two-minute sparkline buffers;
- `num`, `text`, `sort` are the integer parser, character helpers and
  stable sort they share.

`app/` is the terminal program around it: file and clock reads, the
floating-point percentages and thresholds, desktop notifications and the
ratatui dashboard.
