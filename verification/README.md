# smos

The verified core of SMOS, a multiserver operating system on seL4: the
root server's tables and decisions, with their contracts proved by Verus.

- `src/` is the library. Each module states what its functions do over a
  mathematical model (`Seq`, `Set`, `Map`, integers) and proves it: the
  frame table, capability-space slot allocation, the untyped-memory table,
  the timeout list, interrupt and notification dispatch, the radix tables of
  memory objects and views, windows and process stacks, ELF segment loading,
  servers and connections, the process life cycle, the boot file server's
  tables, and the arithmetic of bootstrapping. Laws that relate several
  operations are public proof functions named `law_*`.
- `app/` holds drivers that carry out the library's decisions over an
  interface to the kernel (`Kernel`, `StartWork`, timer registers): starting
  a process, allocating untyped memory, registering interrupt handlers,
  mapping frames, handling faults and page-map requests, timer interrupts.
  Its entry point only reports that it is not running as the seL4 root
  task: outside seL4 there is no kernel to drive.
- `tests/` runs the library on concrete cases.
