# fuide

Building blocks for futuristic (FUI) desktop tools on egui 0.36, with an MCP agent
interface that lets an agent observe and drive the app while a person watches.

The crate is split in two:

- `src/` — the library, verified with Verus. Everything the kit decides or computes on plain
  values: the agent's widget lookup, the call state machine (what to click, type, press,
  answer, refuse), key-combo parsing, MCP request routing and argument parsing, the settings
  file format, typed-path expansion and completion, sfnt line metrics, base64 / CRC-32 /
  Adler-32 / PNG / TGA encoding and the screenshot box average, uptime formatting, and the
  small state of tables, dev screenshots and the `--mcp` bridge. Each public function states
  its result in its contract; the `law_*` proof functions state what holds across calls.
- `app/` — ordinary Rust around it: egui drawing (theme, shell, panels, widgets, table,
  dialogs, settings window), event injection and the agent's cursor, the Unix-socket server
  and stdio bridge, files and environment variables, and everything that works in floating
  point.

Tests live in `tests/` and exercise the library from outside.

The kit's two font faces (Orbitron, Share Tech Mono) are handed to `app::theme` at start-up
with `theme::set_bundled_fonts`; without them egui's default faces are used.
