# lyrictag

A library that finds, checks and saves song lyrics: LRC parsing, merging and
rendering, text normalisation for matching, the parsers and request shapes of
four lyric sources, the write plan, and the track store with its saved index.

- `src/` is the verified library (Verus). Each public function states its
  result in its contract; the laws that span functions are public proof
  functions (`lemma_*`).
- `app/` is a command-line front end: file scanning, HTTP, floating-point
  match scoring and file writes, all deciding through the library.
- `tests/` runs the library on concrete inputs.
