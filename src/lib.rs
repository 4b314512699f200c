//! Markdown slide decks: parsing a document into a title block and slides,
//! formatting a slide's body into styled lines, and stepping through the
//! slides.
pub mod text;
pub mod format;
pub mod presentation;
pub mod navigation;

pub use format::{Style, StyledLine, StyledSpan};
pub use navigation::{Command, Key, Navigation};
pub use presentation::{Presentation, Slide};
