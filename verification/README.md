# flexaudio

Audio capture for Linux, Windows and macOS: microphones, what the system plays, and what
single processes play. Every source becomes the same stream of chunks of 20 ms in the output
format of the caller's choice.

- `src/` is the library: everything that is decided or computed, written in Verus and verified.
  It makes no system calls, and samples are held as the bit patterns of their binary32 numbers.
- `app/` is the program around it: the command line, the backends of each system, the
  resampling filters, the voice detection model, and the C, Node.js and Python interfaces.
- `tests/` runs the library on concrete values, with the real ring buffers and filters.
