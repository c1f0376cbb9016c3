# NoNameOS

A small microkernel for x86_64, written in Rust and verified with Verus.

`src/` holds the kernel's logic as a library without side effects: what a
subsystem keeps is a value, the RAM is a slice of bytes, and what is to be done
on the hardware is returned. Every function states what it does, and Verus
proves it.

- `memory`: physical frames, the bytes of the RAM, page tables
- `task`, `scheduler`, `kthread`: threads, round robin by priority, the threads
  of the kernel
- `vfs`: a virtual file system with a file system in RAM
- `ipc`: messages between named endpoints
- `drivers`: devices and drivers, the PCI bus, services for drivers
- `gdt`, `idt`, `pic`, `syscall`: descriptor tables, interrupts, system calls
- `userspace`, `loader`: processes in user mode, PE images
- `win32`: types, status codes, objects and calls of the Windows interface
- `vga`, `framebuffer`, `demo`, `keyboard`, `multiboot2`, `text`: screens,
  keyboard and the boot loader's information
- `boot`, `ktest`, `kernel`: starting, testing and repairing the subsystems
- `shared`, `lock`: state behind spin locks
- `clock`: how many ticks a stretch of time takes
- `search`: the first index with a property, and how many have it

Functions whose names start with `law_` state what holds of several operations
together.

`app/` is the kernel on the machine: the entry point, assembly, ports and
registers. It calls the library and carries out what the library answers.

`tests/` runs the library on concrete values.
