# kfs

The logic of a small x86 kernel (GDT setup, VGA text console, PS/2 keyboard
decoding and a debug shell), verified with Verus.

- `src/types.rs`: the VGA colours and their attribute codes.
- `src/libft.rs`: the text console as a value (`Console`: the 80x25 VGA
  buffer, byte for byte, and the cursor) and everything that writes to it:
  `printk` and its conversions, `putstr`, `putnbr`, scrolling, backspace,
  clearing; also `strlen` and `strcmp`. The screen model (`Screen`,
  `char_step`, `emit`) states what each of them does.
- `src/gdt.rs`: segment descriptors, the table the kernel installs, its byte
  image and the `lgdt` pointer.
- `src/keyboard.rs`: scancode set 1 decoding with shift state, and the
  `KeyboardDriver` trait.
- `src/stack.rs`: the layout of the kernel stack dump.
- `src/shell.rs`: the shell's line editor, command table and commands, as a
  state machine (`key_step`) driven by `Shell::handle_char` and `Shell::run`.
- `app/`: the machine side, unverified: port I/O, copying the console to VGA
  memory, loading the GDT, reading `esp`/`ebp` and the stack, polling the
  keyboard ports, and power-off, reboot and halt. It runs the shell loop and
  performs what the shell hands back (`Flow`).
