# unix_tools

Small Unix tools (`cat`, `echo`, `tee`, `ls`, echo clients and servers,
`httpget`), with the logic they share kept in a library whose behaviour is
stated in contracts and proved with Verus.

- `src/` — the verified library:
  - `permissions`: the `drwxr-xr-x` rendering of a file mode;
  - `filesize`: the size column (`  12k`), rounded to the nearest unit;
  - `timestamp`: the modification time as `%Y-%m-%d %H:%M` in local time;
  - `user`: the owner column (user name, else the zero-padded ID);
  - `names`: the order of file names (that of their UTF-8 bytes);
  - `listing`: entries, their ordering by name and the lines of `ls -l`;
  - `stream`: the chunks and lines that one read yields;
  - `network`: the echo tools' bind address and `httpget`'s header lines;
  - `text`: decimal rendering and padding.
- `app/` — the tools themselves: one binary that runs the tool named by the
  name it is run under, or by its first argument. It does the reading,
  writing and networking and hands plain values to the library.
- `tests/` — tests of the library on concrete values.
