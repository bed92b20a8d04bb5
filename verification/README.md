# latency_channels

A benchmark of message latency over channels, in two versions: one with OS
threads and a std channel, one with runtime tasks and bounded channels. A
client stamps each message with the time of sending; the receiver measures the
delay on arrival and, at the end, prints the largest, average and median delay.

- `src/` is the verified library: the decisions each process makes on every
  poll or round (`delay_log`, `rounds`, `load`), the delay statistics
  (`stats`) and the benchmark's parameters (`plan`).
- `app/` runs the processes: threads, tasks, channels, timers, printing, and
  the floating-point work that makes up the synthetic load.
