//! An mdbook preprocessor that turns fenced `mermaid` code blocks into raw
//! `<pre class="mermaid">` elements, leaving the rest of each chapter as it was.

pub mod token;
pub mod rewrite;
pub mod laws;
pub mod markdown;
pub mod plugin;

pub use markdown::{add_mermaid, rewrite_markdown, written_result, Extensions, Passed};
pub use plugin::Mermaid;
pub use rewrite::rewrite_tokens;
pub use token::{MermaidError, Token};
