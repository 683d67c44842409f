# cm

Lines of output, a regex that picks parts of the selected line, and a command
that is filled in with those parts and run.

- `src/` is the verified library. It decides what a key does, what the screen
  shows, what command line a line gives, and how a profile is written and read.
  `session` is the program as a whole; `profile` holds the regexs, the commands
  and the file format; `line_list`, `string_list`, `item_list` and `edit_field`
  are the lists and the field in which items are edited; `regex` is the boundary
  to PCRE2, and `profile_laws` proves that a written profile reads back.
- `app/` is the terminal program: curses, pipes, child processes and files.
- `tests/` runs the library on concrete values.

In a command, `\1`, `\2` and so on stand for what the groups of the regex
captured. A profile is a text of lines `key = value`, with the keys `regexs`,
`cmds`, `current_regex` and `current_cmd`.
