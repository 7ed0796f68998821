# zskins

The logic of a small desktop for wlroots compositors: a status bar (zbar), a
launcher that lists windows, applications, files and clipboard entries (zofi),
the clipboard's daemon (clipd), their common theme (ztheme), and the windows and
screen pictures they share (zwindows).

`src/` is a library verified with Verus: parsers (netlink, JSON trees, desktop
files), state machines (workspaces, titles, tray, clipboard, captures, the
launcher), rankings and texts. Functions state in their contracts what they
return. Functions of the library that call an outside crate are marked
`external_body`; their doc comments say what is taken on trust, and what is left
unsaid because it depends on the machine.

- `text`, `numeral`, `wire`, `pathname`, `sorting`, `textmap`, `json`: the common
  ground.
- `zwindows`: open windows, sway's tree, pictures of outputs and windows.
- `zbar`: what the bar's modules know and show.
- `clipd`: the clipboard's history, and the daemon that keeps it.
- `zofi`: the launcher, its sources and their merged list.
- `ztheme`: palettes, the configuration file, and when to read it again.

What holds of several functions together stands beside them as proof functions
whose names begin with `law_`.

`tests/` runs the library. `app/` is the program around it: sockets, D-Bus,
wayland, files and windows on the screen.
