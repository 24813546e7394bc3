//! Layers of circles as text: naming and colouring freshly drawn layers,
//! writing them as comma-separated records and reading them back, and
//! laying out summary tables as HTML documents.
//!
//! Every quantity of a circle is carried as the numeral that spells it, so
//! that the whole crate works on text and integers alone.
pub mod codec;
pub mod extremes;
pub mod generate;
pub mod layer;
pub mod markup;
pub mod report;
pub mod text;
