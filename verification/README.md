# agb

The logic of a library for writing Game Boy Advance games, verified with
Verus: fixed point numbers, button state, the task scheduler and channels of
the async executor, tiled backgrounds and the video RAM tile allocator,
sound mixer planning, save media framing, the random number generator, a
Robin Hood hash map and reference counted pointers.

- `src/` is the verified library. Each public function states what it
  returns or changes in its `ensures`; the properties that span several
  functions are public proof functions next to them.
- `tests/` runs the library on concrete values.
- `app/` holds what talks to the hardware and cannot be verified: memory
  mapped registers, interrupt handlers, the executor's wakers and main
  loop, printing through the emulator's debug registers and reading and
  writing save media.
