# pacwatch

A terminal browser for the packages that pacman has installed, sorted into
categories that the user keeps in a TOML file.

- `src/` is the library, verified with Verus: reading pacman's `desc` and
  `files` records, reverse dependencies, the category map and the edits of the
  category file (through `toml_edit`), the browser's state and key handling,
  and the layout of what the screen shows.
- `app/` is the program around it: reading the package database and the
  category file from disk, the terminal loop and the drawing.
- `tests/` runs the library on concrete values.
