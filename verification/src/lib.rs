//! Strips the `object wrapper { .. }` scaffold from the Scala code blocks of
//! a markdown document, leaving everything else of the document as it was.

pub mod event;
pub mod machine;
pub mod markdown;
pub mod pattern;
pub mod preprocessor;
pub mod stream;

pub use event::MdEvent;
pub use machine::TransformState;
pub use pattern::{is_wrapper_end, is_wrapper_start};
pub use preprocessor::{Chapter, PreprocessError, ScalaWrapper};
pub use stream::strip_wrappers;
