# AeroPDF

A minimal PDF reader. The crate is split in two:

- `src/` — the verified library (Verus): reading-position history and its
  text format (`history`), the preferences file (`settings`, on top of the
  association lists of `assoc`), page layout in rows of one or two pages
  and the page indicator (`layout`), search results and their navigation
  and the go-to-page box (`search`), text selection (`selection`), the
  document outline (`bookmarks`), view toggles, closing overlays, the
  quit keys and resuming at a saved page (`view`),
  render bookkeeping and page image orientation (`render`), and the text
  primitives they share (`text`).
- `app/` — the window, drawing and hit testing, input events, zoom and
  scroll positions in floating point, files, PDFium, threads and the
  clipboard. It asks the library for the decisions listed above; the
  geometry it computes in floating point (page sizes, zoom steps, scroll
  offsets, hit tests) is its own and is not verified.
