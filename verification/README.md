# oc

A two-pane terminal file manager whose logic is verified with Verus.

- `src/` is the library. It decides what every key does, what every screen shows,
  how listings are sorted and searched, what an FTP reply means, and which files an
  operation touches. Each function carries its contract, and the laws that hold of
  several functions together are public proof functions beside them.
- `app/` is the program around it: the terminal, the file system, the network and
  other processes. It hands the library what it read and does what the library says.
- `tests/` runs the library on concrete values.

| Module | What it holds |
|--------|---------------|
| `text`, `scan`, `num`, `path` | characters and bytes, words, lines and fields, decimal numbers, Unix paths as bytes |
| `order`, `entry`, `size`, `icons` | the stable sort, entries and their lines, readable sizes, icons |
| `listing`, `pane` | a listing with its cursor and selection, local and remote panes |
| `keys`, `terminal` | from bytes to keys and mouse events, raw mode |
| `ansi`, `draw`, `frame`, `help` | everything that is written to the screen |
| `prompt`, `picker`, `sorting`, `search`, `menu` | the dialogs |
| `fileops`, `copying` | renaming, copying, moving, deleting |
| `netrc`, `ftp`, `connect`, `mount`, `attempts` | logins, the FTP dialogue, rclone mounts, trying until one succeeds |
| `commander` | the whole program as one step per key |

What is drawn is collected in a `String`. Text that is cut at a byte must be cut
between two characters; the functions named `..drawable` test for that.
