# BlueOS kernel logic, verified

The library in `src/` holds the decisions of a small teaching kernel and
proves them against their specifications with Verus:

- `shell`: the 80-byte command line and how each typed byte edits it;
- `app`: the console commands (`HELP`, `INFO`, `CLEAR`, `LUA`, `NET`,
  `DNS`), the start-up banner and the reports of network events;
- `lua`: the Lua-style language: lexer, single-pass compiler to bytecode
  and the stack machine, each against a functional specification;
- `net`: Ethernet, ARP, IPv4, ICMP echo, UDP and the DNS client, with the
  frames the stack builds and the Internet checksum;
- `framebuffer`: the terminal on the framebuffer, as drawing commands and a
  serial log;
- `arch`: the platform decisions (serial text, PS/2 keyboard and mouse, the
  real-time clock, PCI, the e1000 and virtio devices, the UEFI graphics
  mode);
- `uefi` and `workspace`: the UEFI records, firmware input and network
  checks, and the disk installer with its copy-then-verify run.

`app/` is the program around it: a hosted console on standard input and
output, and the bare-metal device access (port and memory-mapped I/O,
firmware calls) for the x86_64, RISC-V and UEFI targets.

`tests/` runs the library on concrete inputs.
