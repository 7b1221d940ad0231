# iona

The core of the IONA kernel as a Verus library: memory, input and output, the
window system and the boot decisions, each with its contract proved.

## Layout

- `src/` is the library.
  - `memory/` has the physical side: frames and their reference counts, the kernel
    heap, page mapping, swap and the out-of-memory killer.
  - `mm/` has the allocators on top: buddy pages, slab objects, memory mappings and
    System V shared memory.
  - `io/` has the console with its escape sequences, the framebuffer, the kernel log
    and the serial ports.
  - `gui/` has the theme, the widgets, the shell widgets and the window manager.
  - `kernel/` has the configuration, the boot decisions and the record of degraded
    components.
  - `libc_kern/` has the memory and string functions and the system calls that libc
    programs expect.
- `tests/` runs the library on concrete values.
- `app/` is the kernel around it: page tables, ports, files, logging, the clock and
  the loops that never return.

## Conventions

- State is passed in. What a driver or the hardware does is an argument, a closure
  with its own contract, or an action that the library returns to its caller.
- A failure is a value. A function that cannot serve an input says so in `requires`.
- Percentages are in hundredths of a percent, and drawing returns a list of
  operations on the canvas.
- Facts about several calls stand next to the code as proof functions whose names
  begin with `law_`.
