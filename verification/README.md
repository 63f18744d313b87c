# piboot

Host side of a serial bootloader for a Raspberry Pi, and the keyboard
controllers that drive a robot over the same serial line.

- `src/` is the verified library (Verus): the wire format and reply checks
  (`protocol`), the CRC-32 of the image (`crc`), the boot exchange as a state
  machine with its proofs about whole exchanges (`session`, `boot`), the choice
  of serial port (`ports`), the handling of serial reads (`serial`) and the
  three controllers (`keys`, `drive`, `degree`, `pulse`).
- `app/` is the program around it: it opens the port, reads the file and the
  keyboard, and performs the reads, writes and waits the library asks for.
- `tests/` runs the library on concrete exchanges and key sequences.
