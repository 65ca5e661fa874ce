# Wowland

A tiling Wayland compositor built on Smithay, whose window-management core is
a Verus library with machine-checked contracts.

- `src/` — the verified library: windows and workspaces (`window`,
  `manager`), the MasterStack and Grid layouts (`layout`), keybindings
  (`input`), configuration values and `#rrggbb` colours (`config`), desktop
  entries and the application launcher (`launcher`), the panel (`panel`),
  colours (`color`), and the compositor's reaction to actions and client
  requests (`runtime`), which returns the effects to carry out.
- `app/` — the program: command line, reading the TOML configuration and the
  desktop files, the winit backend, the Wayland protocol handlers, drawing,
  and the event loop that carries out the library's effects.
- `tests/` — tests of the library.

Run `wowland --print-default-config` to see the built-in configuration.
