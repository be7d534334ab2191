# grafted

Runs Darwin x86_64 binaries on Linux: it parses the Mach-O file, maps its
segments, applies chained fixups, resolves and binds the dylibs it needs
(against shims of its own or Linux libraries), and answers its system calls
and Mach traps.

- `src/` is the verified library (Verus). Every function there carries a
  contract; the laws of the library are public proof functions beside the
  code they speak of. Calls into `goblin` and into `std::path` go through a
  few trusted wrappers, each documented where it stands.
- `app/` is the program around it: argument handling, file and memory
  mapping, the syscall-dispatch device, the shim table of `extern "C"`
  functions, and the framework entry points (run loop, Objective-C runtime,
  notification center, pasteboard) that read and write raw memory and call
  back into the binary. Where app/ makes a decision between outside steps
  (which syscall to issue, whether to consult the symbol fallback, where a
  fixup chain goes next, what to do about a fault), it asks the library and
  carries out the answer. What is left in app/ is I/O, raw memory, and the
  parts of the original that needed live process state: the framework
  symbol tables, the Swift runtime hooks and the application main loop are
  not carried over.
- `tests/` exercises the library from outside.
