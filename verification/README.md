# wordl

A terminal word-guessing game in the style of Wordle, with its rules verified
by Verus.

- `src/` is the verified library: letter tables (`letters`), the checks that
  accept or reject a guess (`rules`), what a scored guess teaches
  (`knowledge`), a round of the game (`game`), the word lists (`wordlist`,
  `lines`), the menus (`menu`) and the properties proved of them (`laws`).
- `app/` is the program around it: arguments, the `./dict` directory,
  standard input and output.

A dictionary lives under `./dict/<language>/<length>.wordlc`, each file a raw
DEFLATE stream of one word per line.
