# nyansync

A small file transfer protocol: a server walks a directory and serves its
files one by one, by position; clients ask for positions and store what they
receive under the file's own header, written as a file name
(`<sha1 hex>-<payload len>-<width>-<height>-<type>`).

- `src/` is the verified library: the wire format of requests and responses
  (`protocol`), big-endian integers (`be`), hex and decimal text (`hex`,
  `decimal`), the file-name scheme (`file_name`), the server's path tables
  (`path_table`, `file_table`) and the checks that client and server make
  (`serve`). Each function states its result exactly over mathematical
  models, and the round trips (decode after encode, parse after format) are
  proved as lemmas.
- `app/` holds the two programs, with their sockets, files, hashing and
  command-line parsing. The program runs as the client when invoked under a
  name ending in `client`, else as the server.
- `tests/` exercises the library on concrete values.
