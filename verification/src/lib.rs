//! Typesetting core: a closed math source grammar with canonical receipts,
//! integer math layout, and the page-level pagination decisions that
//! consume them.

pub mod digest;
pub mod text;
pub mod math_source;
pub mod math_chars;
pub mod math_ast;
pub mod math_encode;
pub mod math_grammar;
pub mod math_parse;
pub mod math_preflight;
pub mod math_validate;
pub mod math_receipt;
pub mod math_arith;
pub mod body_errors;
pub mod source_closure;
pub mod math_work;
pub mod math_paint;
pub mod math_font;
pub mod math_layout;
pub mod math_shape;
pub mod math_compute;
pub mod math_charge;
pub mod page_geometry;
pub mod header_footer;
pub mod columns;
pub mod float_layout;
pub mod float_pagination;
pub mod float_queue;
pub mod atomic_vector;
pub mod atomic_placement;
