# RockOS

RockOS is a small x86-64 kernel. This project holds its decisions and data structures as a library
that is verified with [Verus](https://github.com/verus-lang/verus), and the machine-facing code
around it.

- `src/` is the library. Every function states what it does in `requires` and `ensures`, and the
  laws that relate several functions are public proof functions whose names begin with `law_`.
- `app/` is the kernel image around the library: boot, descriptor tables, interrupt stubs, port I/O,
  page-table memory and the `syscall` entry path. It performs what the library asks for.
- `tests/` runs the library on concrete values.

## How the two halves meet

The library never touches the machine. Where a call needs something that only the machine can do, it
hands out a value that says what, and is told how it went:

- `paging::MapJob`, `paging::UnmapJob` and `elf::ElfLoader` walk their pages one action at a time.
- `brk`, `mmap`, `munmap`, `fork` and `execve` check their arguments first and are settled by a
  `finish_` function once the page tables have been edited.
- `scheduler::Resume` holds the register frame of the next task.
- Port writes are lists of `port::PortWrite`; bytes for the serial port collect in
  `serial::SerialPort`.

User memory is a *window*: the bytes from the text page to the top of the stack page, `0x400000` to
`0x402000`.

## Modules

| Module | Responsibility |
|--------|----------------|
| `memory` | Bitmap frame allocator, physical memory |
| `paging`, `heap` | Page-table edits as jobs, the kernel heap's pages |
| `elf`, `elf_image`, `exec_stack` | ELF64 images and what holds of them, the first stack of a program |
| `process`, `vm`, `fork`, `exec` | Process table, memory calls, fork, execve |
| `scheduler`, `task` | Run queue, sleep, task switch; kernel stacks and register frames |
| `syscall`, `fs`, `user` | Dispatch, descriptors, user memory checks |
| `keyboard`, `tty` | Scan codes, line discipline |
| `vga`, `serial` | Console output |
| `interrupts`, `pit`, `port` | Timer tick, PIC and PIT programming, fault reports |
| `boot` | What the kernel tries out while it boots |
| `bytes`, `errno` | Little-endian numbers, error returns |

## System calls

`read` 0, `write` 1, `mmap` 9, `munmap` 11, `brk` 12, `sched_yield` 24, `nanosleep` 35, `getpid` 39,
`fork` 57, `execve` 59, `exit` 60, `wait4` 61, `getppid` 110. Every other number, `open` and `close`
among them, returns `-ENOSYS`.
