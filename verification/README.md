# chip8

A CHIP-8 toolkit whose logic is verified with Verus.

- `src/` is the verified library:
  - `chip8`: the interpreter core. `Machine` is its mathematical state, and
    `step` says what one fetch/execute cycle does.
  - `parser`, `instr`, `tokens`: the assembler. Text parses by the grammar
    `parse_program`, and labels resolve by `label_table`. Machine code is
    `program_bytes`.
  - `disasm`, `emu_disasm`: disassemblers for the assembler's syntax and for
    the emulator's own mnemonics.
  - `roundtrip`: a disassembly assembles back to the ROM, and an
    instruction's text reads back as the instruction.
  - `join`: a parse never looks back, and two programs joined by a newline
    parse to both.
  - `viewer`, `sound`, `text`: the ROM viewer's lines and scrolling, the
    beep's start/stop rule and WAV header, and number formatting.
- `app/` is the program around it: the emulator window and sound
  (macroquad), the terminal viewer (crossterm), and file input and output.
- `tests/` runs the library on concrete inputs.
