# liquid_crystal_ui

A retained mode UI library for small alphanumeric LCD displays, like the
Hitachi HD44780 found on cash registers: widgets, their transitions, and the
storage containers that hold them, written in Verus and proved against their
contracts.

## Layout

- `src/` — the verified library.
  - `lib.rs` — `ScreenCoordinates`.
  - `storage/` — the container traits (`TextContainer`, `QueueContainer`,
    `StackContainer`, `Storage`), the containers of `alloc` as storage
    (`AllocStorage`), containers of fixed capacity (`HeaplessStorage`, see
    below), the
    conversion of text to the display's character set, sorting, and the laws
    that relate the container operations to each other.
  - `ui/` — widgets, scrolling text (with the laws of its stops at the ends)
    and transitions.
  - `backend.rs` — what a backend computes before it talks to a display.
  - `num.rs`, `error.rs` — `NonZeroUsize` and the error types.
- `app/` — the parts that talk to hardware: the `LcdBackend` and
  `AsyncLcdBackend` traits over `embedded-hal` delays, their implementation for
  the `liquid_crystal` driver, and copies of the error types with `thiserror`
  derives.
- `tests/` — tests of the library on concrete values.

## Fixed-capacity storage

`HeaplessStorage` uses `BoundedVec` and `BoundedDeque`, which hold at most
their capacity and refuse a push beyond it. They keep their elements in std's
`Vec` and `VecDeque`, so they allocate.

## Scrolling text

A text scrolls when it has more characters than its window. `Reset` scrolls to
the end, stays there for its cooldown, and starts over from the front; `Loop`
goes round the end to the front; `Bounce` stops for its cooldown at either end
and turns back, at once where the cooldown is zero.
