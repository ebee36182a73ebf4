# kondor

A terminal program that finds software projects, lists what their build
artifacts take, and frees that space.

- `src/` is the library: the state of the program and what keys and news do to
  it (`state`, `keys`), the search and the order of the list (`project`,
  `order`), what is listed (`discover`), ages on the command line (`age`), and
  the lines and areas of the screen (`header`, `rows`, `bars`, `info`,
  `layout`). All of it is verified with Verus. `model` says what every operation
  makes of the state, and `laws` proves what holds of the program as a whole.
- `outside` and the first lines of `text` hold what is believed without a proof
  of `std`, `kondo_lib` and `ratatui`.
- `app/` is the program around the library: arguments, the file system, threads
  and the terminal.
