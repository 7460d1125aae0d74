//! A generic tree form for structured values, and the numeric algorithms on it:
//! the difference between two trees of one shape, applying such a difference,
//! and rewriting numeric leaves from animation curves.
//!
//! A value is written into a tree by `Layer` and the leaf constructors of
//! `ParsedData`, and read back by the `take_*` methods and the aggregate steps
//! of `decode`. Numeric leaves are addressed by paths: the names from the root
//! down, each after the delimiter `----`; the root adds no name.

pub mod decode;
pub mod diff;
pub mod encode;
pub mod leaves;
pub mod path;
pub mod restore;
pub mod rewrite;
pub mod text;
pub mod tree;

pub use decode::AnyShape;
pub use diff::{caculate_delta_data, tree_delta, Change, Delta};
pub use encode::Layer;
pub use leaves::{numeric_leaves, Leaf, Number};
pub use path::{floats_changed, join_path};
pub use rewrite::{curve_pick, rewrite_at_path, rewrite_numbers, CurvePick, FloatEdit, FloatRule, IntEdit, IntRule};
pub use text::{int_to_text, nat_to_text};
pub use tree::{DataEnum, Error, IntRange, ParsedData};
