# kernel

The verified core of a small x86_64 hobby kernel. The library in `src/` holds the
kernel's bookkeeping and decisions, each function with a contract that Verus proves;
`app/` is the kernel program around it, which talks to the bootloader and the hardware.

- `mem`: sizes, addresses, physical frame allocators (a first stage during boot and a
  frame-state allocator afterwards), the virtual memory manager and the higher half's
  initial reservations, page-table layout and
  remapping steps, lower-half allocations, memory-backed objects, heap figures.
- `process`: ids and attributes, intrusive lists, threads and their initial stacks, the
  priority scheduler and the round-robin one, tasks, the process tree, open files, ELF
  images, processes.
- `syscall`: error numbers, user-space addresses, call numbers and user buffers, `access`.
- `time`, `smp`, `qemu`, `vfs`, `text`: clocks, per-CPU context, exit codes, path
  components and the handles of open files, and diagnostic text.
