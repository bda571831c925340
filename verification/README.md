# hackathon

A document translator for the TMT translation API: CSV/TSV, DOCX and PDF
files are translated sentence by sentence and written back with their layout.

- `src/` is the library, written in Verus. It holds the logic of a run and
  its proofs: command-line validation, sentence splitting, the retry and
  back-off policy of API requests, the translation cache, the cell and
  paragraph bookkeeping of CSV and DOCX files, and the text-level PDF work
  (string encodings, the translation lookup, line reflow, the rewrite plan
  of each text operator, glyph recording and the embedded font's tables).
- `app/` is the program around it: argument parsing, logging, file and
  network I/O, the async request loop, PDF object handling with `lopdf`, and
  the floating-point parts of text extraction and rendering.
- `tests/` exercises the library on concrete inputs.
