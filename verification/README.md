# zero_shell

A small interactive Unix shell (`echo`, `cd`, `ls`, `pwd`, `cat`, `cp`, `mv`,
`rm`, `mkdir`, `help`, `exit`, commands chained with `;`) whose logic is a
library verified with Verus.

- `src/` is the verified library:
  - `parser` – the word lexer (quotes, backslashes) and the continuation check;
    `lexer_laws` – what the two agree on and what lexing keeps.
  - `input` – assembling a line from terminal bytes, arrow-key escape removal,
    line continuation, `;` splitting; `input_laws`.
  - `shell` – dispatch of a parsed command to a built-in.
  - `ls` – option parsing, mode strings, sizes and device numbers, name colours, `-F`
    marks, name escaping, ACL attribute lists, listing order, long lines;
    `ls_laws`; `time` – the time column, formatted by chrono.
  - `builtins` – arguments and per-file decisions of the other built-ins;
    `builtins_laws`.
  - `paths` – path components, `file_name`, `starts_with`, `join`; `path_laws`.
  - `options`, `fmt`, `text` – shared helpers (bundled option letters,
    decimal numbers and padding, characters and std bridges).
- `app/` is the program around it: terminal I/O, signals, the environment and
  the file system.
- `tests/` exercises the library on concrete values.
