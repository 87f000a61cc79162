# ruefi

A UEFI system explorer, split in two:

- `src/` is the verified library (Verus). It holds the Intel HD Audio
  driver (command ring handshake, controller and stream resets, codec
  discovery and output bring-up, all stated over logs of the register and
  DMA writes and reads and of the verbs exchanged), the decoders for ACPI
  tables, PCI configuration space, UEFI variables and the memory map, the
  tab and key logic of the explorer's screens, the console and framebuffer
  drawing logic, and the non-floating-point parts of the Asteroids game
  (random numbers, asteroid sizes and scores, input tracking, sound-effect
  timing).
- `app/` is the UEFI program around it: firmware I/O through the `uefi`
  crate, MMIO for the `Platform` trait, drawing with ratatui and
  embedded-graphics, and the game's floating-point physics and audio mixing.

`tests/` holds the tests, which run the library against a simulated HD Audio
controller among other things.
