# busy-v

A small editor in the manner of vi, as a library that can be embedded and as a
program for the terminal. The library is written in Verus: what each function
returns or changes is stated in its contract and proved. What a highlighter of
the host or the clock answers is not known beforehand; there the contracts say
what was asked, and what follows from each answer. A highlighter is told of each
change of the text; keys, colon commands and the host's answers do nothing else
to it, and that is stated of each of them.

## Layout

* `src/` is the verified library.
  * `editor` holds the editor and its state as a value; `machine`, `commands`,
    `edits`, `operators`, `motion` and `insert` say what keys do; `excmd`,
    `address`, `substitute` and `substitution` what colon commands do.
  * `document`, `history` and `text` hold the text, its changes and the bytes
    that it is written as.
  * `pattern` matches search patterns.
  * `render`, `screen`, `viewport`, `highlight`, `syntax` and `messages` make
    what is shown; `mouse`, `selection` and `clipboard` serve the mouse.
  * `keys` turns terminal events and bytes into keys, and `run` reads the
    command line.
  * `laws`, `changes` and `highlighting` hold the theorems that relate several
    operations: what undo gives back, that a written text loads as it was, that
    moving changes nothing, that a highlighter is told of each change and
    handed the whole new text.
* `tests/` runs the library.
* `app/` is the terminal program: files, the terminal and helper programs.

## Embedding

`Editor::from_bytes` makes an editor without opening a file or a terminal, and
`execute_keys` feeds it input. Where the editor needs a file it leaves a request,
which the host answers with `finish_write`, `finish_load` or `finish_read`.
A host installs its own highlighter with `set_syntax_highlighter`; the library
has no grammar and no theme.
