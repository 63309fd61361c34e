# ParanukOS

A small x86-64 operating system for UEFI machines, written in Rust and verified with Verus.

`src/` is the library: everything the boot loader and the kernel decide or compute, with contracts
that Verus proves.

| Module | What it holds |
| --- | --- |
| `boot_info` | what the boot loader tells the kernel, its layout in memory, and the exit codes |
| `kernel_image` | checks on the ELF image of the kernel |
| `map` | the memory map of the firmware |
| `paging` | identity-mapping page tables, and what they mean to the processor |
| `frame` | the allocator of physical frames |
| `heap`, `heap_model` | the first-fit heap on raw bytes, and what it means for a row of blocks |
| `sched` | the round-robin scheduler |
| `kernel` | descriptors, interrupts, ports, logging, memory set-up and the self-check |
| `bootloader` | loading the image and handing over to the kernel |
| `bytes`, `math`, `text` | little-endian values, alignment, numbers as text |

Theorems that span several functions are proof functions whose names start with `law_`.

One function is trusted: `paging::slice_address`, which asks the standard library where a slice
lies.

`tests/` runs the library on concrete values. `app/` is the machine side, which Verus does not see:
firmware calls, port I/O, control registers, locks, interrupt entry code and static tables. It asks
the library what to do and carries it out.
