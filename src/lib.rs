//! Renders text templates whose `{% name %}` tags are filled from a layered
//! set of variables and whose `{@ path @}` tags take in the contents of other
//! files.

pub mod context;
pub mod parser;
pub mod render;
pub mod table;
pub mod text;

pub use context::{Context, Namespace, SerializedContext, GLOBAL_NS};
pub use parser::{parse_input, ParseError, Span, Token};
pub use render::{IncludeFile, Mold, RenderError, MAX_DEPTH};
