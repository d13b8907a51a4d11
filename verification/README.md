# nippo

A ledger of the "Unclear points" in daily reports, and a renderer that turns
Markdown reports into self-contained HTML pages, written in Verus.

- `src/` is the verified library:
  - `report`, `sections`, `text`: reading Markdown sections, bullets and tables.
  - `ledger`, `order`, `streak`: rule keys, classification into new and
    re-seen rules, folding reports into a ledger, and the converge/diverge
    signal.
  - `dashboard`: what the terminal dashboard shows and how keys move it.
  - `render`, `charts`, `markdown`, `safety`: the HTML panels, the rows a
    chart draws, Markdown through pulldown-cmark with raw HTML, images and
    unsafe links disarmed, and the proof that a page holds no `<script`,
    `<link` or `<img` when its charts hold none.
- `app/` is the command line: file I/O, drawing the charts (floating point),
  and the terminal user interface.
- `tests/` runs the library on concrete reports.
