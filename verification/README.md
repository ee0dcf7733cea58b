# rustwebserver

A small HTTP/1.1 server that serves the files of one folder, lists its
directories, and runs the programs under its `scripts/` folder as CGI-like
scripts.

- `src/` is the verified library (Verus).  `exchange` is the state machine
  that decides, for one connection, what to look up, what to run and what to
  answer; `request`, `response`, `script`, `paths`, `headers` and `text` hold
  the grammars and formats it relies on, each with its contract; `conv`
  holds the few calls into `std` whose results are taken on trust.
- `app/main.rs` is the program: it reads the port and the root folder from
  the command line, accepts connections with tokio, performs the file-system
  and process work that an exchange asks for, and writes the replies.
- `tests/` runs the library on concrete requests, paths and script outputs.

Usage: `rustwebserver <PORT> <ROOT_FOLDER>`.
