# logic_sim

The simulation core, save-format, startup-menu and editor logic of
Digital Logic Sim, a digital logic circuit simulator, written in Verus
with its contracts proved.

- `src/` is the verified library: timestamps and versions of saved files,
  file-name rules, save-directory layout, project descriptions and their
  defaults, the chip library (custom chips shadowing builtins), the
  chip-format upgrade, the startup menu's state machine and what its
  screens and popups show, what the editor's overlays (chip library,
  preferences, search, naming, key select, ROM editor, save chip, chip
  customizer, starred bar) show and offer, the UI layer stack's input routing, wire deletion
  with attachment renumbering, wire colour and width resolution, embedded
  displays, and the pin value read-out; and the simulator's pin states,
  the step each builtin chip takes (NAND, clock, pulse, splits and
  merges, tri-state buffer, keys, ROM, RAM, displays, buzzer, buses),
  signal propagation with conflict resolution, stepping a chip and its
  subchips for a frame (plainly, or while working out their order), a
  whole simulation frame, pin lookup and wiring, and the choice of which
  subchip runs next. The notes buzzers play are handed back to the
  caller, who plays them.
- `tests/` runs the library on concrete values.
- `app/` is the file-system side: JSON files through serde, the save
  directory, and the menu's disk requests.
