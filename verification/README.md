# lockjaw

The user-space library, the drivers and servers, and the build-time checks of a small
microkernel, written in Verus. What stands under `src/` is proved, but for the outside
functions named below, whose contracts are trusted; `app/` is the ordinary Rust around it.

## The library

* The build-time checks: stack depth and recursion over a disassembly (`call_graph`,
  `recursion`, `stack_depth`, `stack_check`), code pointers in data sections (`elf`), the
  size of the first program (`init_budget`), source lints (`lints`) and the rules that
  drivers keep (`driver_source`, `driver_regime`).
* The generators: typed register accessors with their self-tests (`gen_regs`) and wire
  formats (`gen_wires`).
* The user-space library: virtual memory, mappings for devices, transfers with the caches
  in the right state, interrupts, time, and the clients and servers of displays, block
  devices, clocks and files.
* The drivers and servers: virtio block devices, the SD host controller, the firmware's
  display, partitions, the console, and the server of POSIX calls with its start.

Code that waits for a device, the kernel or another process is a state machine: it says
what to do next and goes on with what came of it. The contracts state each step exactly,
and the proof functions named `lemma_..` state what holds of whole runs.

The numbers of the kernel's calls and of the message protocols are parameters: the library
takes them from its caller.

## What is trusted

Nothing checks what the library says of these but their own documentation and source:

* `String::push` (`text`) appends one character.
* `char::to_uppercase`, `char::to_lowercase` and `char::is_uppercase` (`letter_case`) depend
  on the character alone, and are the usual ones on ASCII.
* `String::from_utf8_lossy` (`bytes`) depends on the bytes alone, and keeps ASCII.
* `syn::parse_file` and the walk of `syn::visit` (`driver_source`): whether a text parses,
  the error's text, and the names and lines that the walk meets depend on the text alone.
  What the names mean, and which findings follow from them, is proved in `driver_regime`.

The traits that engines implement (`BlockEngine`, `DisplayEngine`, `ClockEngine`,
`EventEngine`) have no contracts: the servers are proved for every answer of an engine.

## The rest

* `tests/` runs the library on concrete values.
* `app/` is the command-line tool that reads the files and prints the findings, the loops of
  the servers, and the loops that start the drivers and programs.
