# mdp

A terminal Markdown pager: it renders Markdown into terminal lines and pages
through them `less`-style, with search and reload.

The library under `src/` is written in Verus; each public function carries a
contract. Laws that span calls are proof functions: among them, that every
line of a wrapped paragraph fits the render width, that wrapping loses no
word, that a narrower width never gives fewer lines (`paragraphs`), that
stepping through the search matches comes round (`pager`), and that a render
does not depend on earlier renders (`render_model`).

- `parsing` — the event vocabulary and its construction from the events of
  `pulldown-cmark` (`cmark` holds the one trusted call into that crate).
- `render_model` — the renderer's state and every transition as mathematical
  functions; `rendering` and `table` implement them.
- `textops`, `text` — display widths, trimming, ANSI stripping and the other
  text operations the renderer needs.
- `paragraphs` — the wrapping laws of paragraphs, with the facts about
  escape sequences and words they rest on.
- `pager` — paging and search over rendered lines.
- `viewer` — the program's decisions: render width, input source and labels,
  binary detection, key bindings, the search prompt, footer and help screens.
- `terminal` — terminal dimensions.

`app/` holds the command line, the terminal and file I/O, the benchmark and
the interactive loop, all built on the library.
