# mdview

A less-style terminal pager for markdown files, in two parts.

`src/` is the library, written in Verus: every function has a contract, and every
contract is proved, but for those of the calls into other crates and a few of
std's, which are believed.

- Text: `strings`, `numbers`, `paths`, `order`, `width`, `text`, `wrap`, `prose`.
- Rendering: `event` (the parser's events), `state` (what each event does, as
  mathematics), `render` (the code that does it), `table`, `highlight`,
  `invariants` and `nesting` (what every event keeps), `rewrap` (ASCII, as it
  is wrapped and as it stays when it is wrapped again).
- Pictures: `kitty` (the terminal graphics protocol), `diagram`, `images`, `memo`.
- The pager: `pager_view` (what each key does, as mathematics), `pager` (the code
  that does it, and what it draws), `screen`, `search`, `slug`, `geometry`,
  `pager_laws` (what holds whatever is typed).
- Around it: `args`, `config`, `dump`, `index`, `tree`, `branches` (what a whole
  tree keeps), `walks` (what a whole walk finds).

What is believed stands next to its first use, each with a doc comment that says
what is claimed: the parser (pulldown-cmark), column
widths (unicode-width), highlighting (syntect), emoji names (emojis), base64,
JSON strings (serde_json), and image decoding (image).

`app/` is the program around the library: the command line, files, the network,
threads, the terminal itself, and what is worked out in floating point.

`tests/` runs the library.
