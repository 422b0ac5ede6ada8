//! A live, path-addressed terminal dashboard: values are reported under
//! slash-delimited paths, kept in a tree, rendered as an indented two-column
//! table and repainted in place.
//!
//! A [`Nesti`] holds the tree. `put` evaluates an [`Element`] against the
//! state of the node at a path and stores what it gives; `pop` takes a value
//! away and with it the nodes that nothing keeps alive; `write_to_buffer`
//! gives the text that repaints the screen. What these mean is said over
//! the tree as a mathematical value, in [`forest`]; what follows from it,
//! in [`laws`], [`listing`] and [`agreement`].

pub mod agreement;
pub mod console;
pub mod dashboard;
pub mod digits;
pub mod elements;
pub mod forest;
pub mod laws;
pub mod listing;
pub mod path;
pub mod ranges;
pub mod render;
pub mod slot;
pub mod strings;
pub mod style;
pub mod terminal;
pub mod tree;

pub use crate::dashboard::{Buffer, GlobalContext, Nesti, OutputOptions};
pub use crate::elements::color::Color;
pub use crate::elements::content::Content;
pub use crate::elements::number::{Integer, IntegerDelta, IntegerLike, IntegerUnit};
pub use crate::elements::prepared::Prepared;
pub use crate::elements::progress::Progress;
pub use crate::elements::size::{Bytes, Gigabytes, Kilobytes, Megabytes, Petabytes, Terabytes};
pub use crate::elements::text::Text;
pub use crate::elements::timer::{EndTimer, Timer, Truncate};
pub use crate::elements::Element;
pub use crate::render::{Glyphs, Margin};
pub use crate::slot::{
    ElementError, NumericValue, ProgressState, Slot, StoppedTimer, TimeComponent,
};
pub use crate::style::{Palette16, Styles, TextFg};
pub use crate::tree::PathTree;
