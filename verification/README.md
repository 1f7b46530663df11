# cos-niri-bar

A status bar, dock and launcher shell for the niri Wayland compositor.

- `src/` is the verified core: settings and their defaults, the niri
  `rules.kdl` patcher, theme generation from matugen colours, desktop-entry
  parsing and dock grouping, workspace ordering, calendar layout, and the
  parsers and command builders behind the audio, network, bluetooth, battery,
  brightness, night-light and power-profile controls. Each public function
  carries a contract that Verus proves.
- `tests/` runs the library on concrete values.
- `app/` is the GTK program around it: windows and widgets, reading and
  writing files, running commands and talking to the niri socket.
