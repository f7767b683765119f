# xcap

Windows and monitors: what is captured of them, and how they are found and arranged.

The library under `src/` holds what is decided and computed, verified with Verus. It talks to no
operating system. Where the work alternates between asking the system and deciding, a state machine
in the library says what to ask next and takes up the answer; the laws say what any run of it comes
to. `app/` asks the system.

- `window`, `tree_laws`, `rooted`: windows, queries, and the tree that a query arranges windows in.
- `outline`: a tree of windows as lines of text.
- `monitor`, `preheat`: monitors, the one stream of frames that is kept, and what is done ahead of the
  first capture.
- `pixels`: the image that a capture is handed out as.
- `text`, `error`: texts, and what goes wrong.
- `macos`: the walk over accessibility elements, captures by the window server, and the stream of
  frames.
- `windows`: which windows are reported, what applications are called, the walks over windows and over
  UI automation elements, and frames by desktop duplication.

What outside crates do is behind a handful of trusted functions, each with a comment that says what
is believed of it: `image` (in `pixels`), `rayon` (in `macos::capture`) and `widestring` (in
`windows::wide`); and `std` for the debugging form of a text and for the last component of a path.
