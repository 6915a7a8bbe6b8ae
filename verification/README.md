# bookfinder

Searches LibGen, Project Gutenberg, the Internet Archive and Anna's Archive
for books, and downloads them.

The library under `src/` is written in Verus. It holds everything that
decides: reading the sources' result pages into books, the addresses and
file names a download uses, and the decisions of a streamed download, kept
as a state machine (`download::Session`) whose caller does the network and
file work. Its contracts state what each function returns; proof functions
state the laws that hold across calls (no source hands out the same book
twice, downloads report the bytes they handed on, file names are stable
under sanitising again, and so on).

`app/` is the command-line program and the HTTP side: it fetches pages and
files with `reqwest`, runs download sessions, and prints results.

```bash
bookfinder search "python programming"
bookfinder search -p gutenberg -n 5 "art of war"
bookfinder download gutenberg 132 -o ./my_books/
```
