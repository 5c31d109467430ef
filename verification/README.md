# typaxis

A verified typesetting core in Verus: a closed grammar for math source with
canonical receipts, integer math layout, and page-level pagination decisions
(header/footer page masters, multi-column fill and balance, the float queue,
and the binding of vector block inputs), each with a canonical JSON receipt
that a verifier re-checks.

Layout of `src/`:

- `text`, `digest`: canonical text building and the SHA-256 fingerprint
  (through the `sha2` crate).
- `math_*`: the math source grammar (`math_source`, `math_chars`,
  `math_grammar`, `math_parse`, `math_preflight`, `math_validate`), the AST
  and its canonical forms (`math_ast`, `math_encode`), parsed receipts
  (`math_receipt`, `math_charge`), layout work accounting (`math_work`), the
  font model (`math_font`), layout (`math_layout`), paints
  (`math_paint`) and computed receipts (`math_compute`).
- `page_geometry`: rectangles, page boxes, margins and selected frames.
- `header_footer`, `columns`, `float_layout`, `float_pagination`,
  `float_queue`: the page-level paginators and their selected layouts.
- `atomic_vector`: the pagination input of atomic vector blocks.
- `atomic_placement`: page placement of atomic vector blocks (keep-with-next
  groups, kept captions, page policy, page counts and paint order).
- `source_closure`, `body_errors`: source coverage of repeated body units.

Every public function carries a contract that Verus proves; the laws that
relate several functions are public proof functions next to them.
