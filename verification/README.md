# snowflake

The logic of the SnowFlake operating system — its UEFI boot loader and its
x86_64 kernel — as a library verified with Verus.

- `src/` holds the verified library: the ELF loader (`elf`), the boot
  loader's segment-by-segment kernel loading (`loader`), the frame
  buffer display with its drawing algorithms (`display`, laws in
  `display_laws`), the PS/2 keyboard state machine (`keyboard`), the 8259
  and local APIC programming rules (`pic`, `apic`), the boot page tables
  (`paging`), the memory routines (`memory`), the configuration file reader
  (`conf`), video and text mode selection (`modes`, `vbe`), the file search
  and file loading decisions (`files`), string conversions (`string`) and the shell's command
  reader (`shell`).
- `app/` drives the hardware and the firmware: port and register access,
  firmware calls and the loops around them, handing plain values to the
  library and acting on what it returns.
- `tests/` runs the library on concrete values.
