# inkgraph

Result-screen analysis for tracking Splatoon 3 matches, verified with Verus.

The capture loop watches a window at five frames a second. A detection
model finds the battle-start banner, the WIN/LOSE/DRAW banners, the
player's arrow and the header texts; a second model reads the digits of
the player's statistics row; OCR reads rule, stage and mode. The library
decides what each frame means and turns the reads into a match record.

Ratios, coordinates and confidences are kept in millionths (`UNIT`), so the
library holds no floating point.

## Layout

- `src/` — the verified library
  - `frame`, `geometry`, `pixels` — frames, regions, pixel tests (grey player
    rows, the yellow arrow, the dark banner scroll)
  - `detection` — model classes, boxes, output decoding, per-class
    non-maximum suppression
  - `detector` — the two-phase pixel detector and the one-frame diagnosis
  - `cascade` — grouping the statistics model's digits by its icons
  - `extractor` — normalising OCR text (rules, stages, modes, counts) and
    assembling the extracted record
  - `preprocess`, `imaging` — white-text extraction, exact Otsu
    binarisation, channel order, and the image/base64 work of outside crates
  - `ocr_rec` — CTC decoding of the text recogniser's output
  - `screen_state`, `capture_loop` — the screen state machine and the
    per-frame decisions of the capture loop
  - `db`, `types`, `capture`, `commands` — records and what the interface's
    commands compute
- `app/` — the desktop side: ONNX Runtime models, OCR, the asynchronous
  capture loop and the commands, with serialisable copies of the records
- `tests/` — tests of the library
