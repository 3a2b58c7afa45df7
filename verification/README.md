# HoldRect

Hold a modifier key and drag to draw a rainbow-striped rectangle anywhere on
screen; release to dismiss. A resident instance draws on a transparent
overlay; the same program, given a command (`rect x1 y1 x2 y2`,
`magnifier x y [zoom]`, `clear`), hands it to the resident instance over a
named pipe, starting it first when needed.

## Layout

- `src/` is the verified library (Verus). Every function there has a
  contract proved against its body.
  - `state` — the drawing state machine and its laws.
  - `hook` — what the global keyboard and mouse hooks report and swallow.
  - `config` — reading the settings: modifier keys, border width, colour.
  - `cli` — the command line and the errors it reports.
  - `ipc` — framing of pipe messages and the client's open/wait/retry decisions.
  - `wire` — the text of request and reply lines, and their round trips.
  - `launch` — delivering a command with auto-start, and the single-instance start.
  - `overlay` — what each frame shows, the spotlight dimming and the border pixels.
  - `magnifier` — the magnifier's ring and placement.
  - `popup`, `popup::layout` — the status and cheat-sheet popup's state and layout.
  - `tray`, `autostart`, `mem_report`, `text` — the tray icon's pixels and menu,
    the auto-start registry value, the memory report's numbers, text helpers.
- `tests/` runs the library on concrete values.
- `app/` is the Windows program around the library: windows, GDI drawing,
  hooks, pipes, the registry, the tray, and the floating-point colour and
  animation curves.
