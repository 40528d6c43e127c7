# ftp

A small file-sharing protocol over TCP: a client sends shell-like commands
(`cd`, `dir`, `mkdir`, `download`, `upload`, ...) and a server carries them out
in a working directory kept below a root directory.

- `src/` is the verified library: parsing of typed and received commands,
  the client's reading of the server's authentication reply, the server's
  command dispatch and directory navigation, directory listings, and the
  chunking of file transfers. `src/text.rs` holds the character-level
  operations they share.
- `app/` holds the sockets, the terminal, the shell and the files, and calls
  the library for every decision.
- `tests/` runs the library on concrete inputs.
