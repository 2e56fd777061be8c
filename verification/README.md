# aster_dyndbg

Dynamic debug ("dyndbg") for a kernel logger: a chain of control rules
decides which log call sites print and which record trace events, and each
module's call sites sit behind a 5-byte patch slot that is switched between
a NOP and a jump as the module's gate opens and closes.

The library (`src/`) is written in Verus and verified.  It holds the logic
as plain values: the kernel's global state, the hardware and user-space I/O
call in from `app/`.

## Layout

- `src/matching.rs`, `src/text.rs`: wildcard and path-segment matching, the
  string helpers of the command parsers.
- `src/descriptor.rs`, `src/rules.rs`: call sites and rules, rule replay
  (last matching rule wins; format flags accumulate).
- `src/index.rs`: the lookup indexes that narrow a rule to its candidate
  call sites.
- `src/state.rs`: the rule state: registration, rule updates, module
  counters and gates, and the patch transactions they queue.
- `src/static_patch.rs`, `src/static_key.rs`, `src/static_key_fallback.rs`:
  encoding and planning of slot patches, the static-key registry.
- `src/event_ring.rs`, `src/dyndbg_trace.rs`, `src/sched_trace.rs`: per-CPU
  event rings, drained and merged in time order.
- `src/kmsg.rs`, `src/syslog.rs`: the kernel message ring and the `syslog`
  action dispatch.
- `src/render.rs`, `src/command.rs`, `src/procfs.rs`, `src/bench.rs`: log
  prefixes, the control-command language and the contents of the
  `/proc/sys/kernel` files.
- `app/`: the global instances behind locks, link-time call-site registries,
  the code patching itself (write protection, CPU rendezvous), the `log`
  backend, procfs nodes and the `syslog` call.
- `tests/`: tests on concrete values.
