# loadstone

A secure bootloader's logic as a Verus-verified library.

- `src/` is the verified library:
  - `flash`: the read/write contract that flash devices meet, RAM stand-ins,
    and the STM32F412 MCU flash and Micron N25Q128A drivers on top of raw NOR
    cells (programming only clears bits; writes erase and merge as needed).
    The cells log the commands they receive (status reads, write enable and
    disable, reads, erases, programs), and the Micron driver's contracts
    state the exact command sequence of each operation.
  - `image`: image banks, and scanning a bank for an image: body, golden
    string, inverted magic string, then a CRC32 or a P256 ECDSA signature.
  - `bootloader`: which image to boot; updating it from other banks; restoring
    it when it is missing (golden images last); serial recovery; the proof
    that a copied image scans identically at its destination.
  - `boot_manager`, `cli`, `xmodem`: the demo application's image storage,
    command line parser and XMODEM receiver.
  - `led`, `drivers`, `boot_metrics`, `error`: LEDs, time units, clocks,
    system tick arithmetic, serial configuration, boot metrics, errors.
  - `config`: the build configuration, its cleanup rules and the memory map
    normalization rules.
- `app/` holds the host-side tools: reading a `.ron` configuration and
  generating build files, a console for the boot manager, and a run of the
  bootloader over images held in files, with XMODEM over standard I/O.
- `tests/` runs the library on concrete inputs.
