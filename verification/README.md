# myaku

A system monitor (CPU, memory, disks, network, processes) whose logic is a
library verified with Verus.

- `src/` is the verified library: the ring buffer that keeps metric history,
  byte and uptime formatting, the disk and network histories and how a
  snapshot updates them, process sorting, filtering, selection and scrolling,
  the key bindings of each mode, and the decision step of the interactive loop.
  Contracts are stated over `Seq`, `Map` and spec functions; the laws that
  span several calls are public proof functions next to the code they speak of.
- `tests/` runs the library on concrete values.
- `app/` is the program around it: command-line parsing, configuration files,
  collecting metrics through `sysinfo`, rendering, the MCP server, and the
  floating-point summaries (percentages, averages, sparkline scaling).
