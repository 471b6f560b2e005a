# ppt2_sync

Frame synchronisation with Puyo Puyo Tetris 2: a DLL injected into the game
plants a one-byte breakpoint on the instruction that runs once per frame; its
exception handler tells every client connected over a named pipe about the
frame, waits for their acknowledgements, and steps the breakpoint over the
instruction (moving it to the next instruction and back).

* `src/` — the verified library (Verus): the breakpoint stepper and its
  laws (`stepper`), the per-frame client broadcast (`broadcast`), the client's
  connection retry policy and frame acknowledgement (`client`), the DLL's
  start and relay decisions (`server`), nul-terminated strings (`cstr`),
  module lookup in a snapshot (`modules`) and the injector's process matching
  and payload (`injection`).
* `app/` — the Windows-only code around it: named pipes, `winapi` calls,
  raw memory writes, threads, the C entry points and the injector program.
* `tests/` — tests of the library on concrete values.
