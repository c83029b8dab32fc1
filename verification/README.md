# script_hub

The verified core of a terminal launcher for shell scripts. Scripts live in a
`scripts.d` directory and describe themselves with header comments:

```text
# @name:        My Script
# @description: What it does
# @category:    Category Name
```

`src/` is the library, verified with Verus:

- `text` — whitespace, trimming, prefixes and line splitting on characters.
- `metadata` — reading the tags from the first 40 lines of a script.
- `order` — lexicographic sort keys and a stable insertion sort, with the
  proof that a stable order is unique.
- `catalog` — turning the files of the directory into the sorted list of
  scripts and the warnings for skipped files.
- `app` — the launcher state: the list, its wrapping selection, the run
  dialog, and the reaction to each key.
- `arg_form` — the form for a script's declared arguments. Scripts do not
  declare arguments yet (the header tags carry none), so the program never
  opens this form; it is kept, verified and tested, for when they do.
- `view`, `panels` — what each part of the screen shows, as plain text with
  tones.

`app/` is the terminal program: it reads the directory, draws with ratatui
and reads keys with crossterm. `tests/` exercises the library.
