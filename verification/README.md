# nova

The core of the Nova terminal as a verified library: the screen grid and the escape
sequence executor that keeps it, URL detection and selection, kitty graphics framing,
keyboard encoding, keybinding and settings parsing, the command palette, the tab strip
and the shell integration sequences. Every function in `src/` carries a contract that
Verus proves; calls into `unicode-width`, `base64`, `image`, `toml` and std's text handling are
taken as given behind the declarations in `src/ext.rs`.

Layout:

- `src/grid.rs`, `src/resize.rs`, `src/parser.rs`, `src/csi.rs`, `src/osc.rs`: the screen
  model (`GridModel`) and what each printable character, control code and escape
  sequence does to it.
- `src/url.rs`, `src/select.rs`, `src/view.rs`, `src/interaction.rs`, `src/render.rs`:
  URLs, selections, search, mouse reports, pointer handling and the paint of every
  displayed cell.
- `src/kitty.rs`: splitting APC sequences out of the output, graphics commands, image
  decoding and placement.
- `src/keys.rs`, `src/config.rs`, `src/palette.rs`, `src/tabs.rs`, `src/window.rs`,
  `src/bell.rs`: key presses, settings, the command palette, tabs, the window frame and
  the bell.
- `src/ai.rs`, `src/session.rs`, `src/cli.rs`, `src/pty.rs`, `src/status.rs`,
  `src/settings_file.rs`: prompts for the assistant, what a session does with the shell's
  requests, the command line, shell start-up and the settings file.
- `app/`: the `nova` program, which reads and writes files, runs the shell on a
  pseudo-terminal and drives the library; `app/layout.rs` holds the pixel geometry,
  which is floating point.
