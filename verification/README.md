# ros

The logic of a small x86_64 operating system (a UEFI loader and a kernel),
written in Verus with its contracts proved.

- `src/` is the verified library.
  - `boot`, `paging`, `shared`: the loader's view of firmware memory, the kernel
    image's segments, the boot frame allocator and the four-level boot page tables
    (identity map, direct map of usable memory, boot information, framebuffer,
    kernel segments, kernel stack).
  - `memory`: the bitmap frame allocator and the bump allocator.
  - `arch`: ACPI (RSDP, XSDT, MADT), I/O APIC redirection entries, PCI
    configuration headers and `pci.ids` name lookup.
  - `console`: text console, tty line discipline, PS/2 keyboard decoding.
  - `fs`: RAM file system, initrd unpacking, procfs, the VFS and open files.
  - `proc`: ELF loading, user stacks, the process record (descriptors, break,
    mappings, signal actions and mask, umask, working directory, ticks), tasks
    and the scheduler's queues.
  - `syscall`, `sys`: the system-call numbers, errors and the decisions each
    call makes.
- `tests/` runs the library on concrete inputs.
- `app/` is a hosted driver: it reads an initrd from disk, takes `pci.ids` from it, sets up
  the file systems and starts `init` in the task model.
