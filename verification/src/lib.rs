//! A constrained rich-text layout and box-packing engine for spell cards.
//!
//! Styled text runs (plain, bold, italic, boxed "chip" tokens and
//! markdown-derived formatting) are laid out inside a fixed rectangular
//! budget, producing a positioned scene of text chunks and polygons, or an
//! explicit error when the content cannot fit.  Finished card scenes are
//! bin-packed into fixed-size page grids.
//!
//! All geometry is measured in integer layout units (the reference
//! configuration uses thousandths of a typographic point).  Rendering to a
//! concrete output format, font file loading and the user interface are left
//! to the caller; the library only needs font metric tables as plain values.

pub mod db;
pub mod font;
pub mod geom;
pub mod markdown;
pub mod render;
pub mod rich_text;
pub mod spell;
pub mod strutil;
