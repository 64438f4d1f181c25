use vstd::prelude::*;

verus! {

/// The preprocessor: rewrites `mermaid` code blocks of every chapter for the
/// HTML renderer.
pub struct Mermaid;

impl Mermaid {
    /// The preprocessor's name.
    pub fn name(&self) -> (r: &'static str)
        ensures
            r@ == "mermaid"@,
    {
        "mermaid"
    }

    /// Whether the preprocessor runs for the renderer named `renderer`: only for
    /// `html`.
    pub fn supports_renderer(&self, renderer: &str) -> (r: bool)
        ensures
            r == (renderer@ == "html"@),
    {
        let name = String::from_str(renderer);
        let html = String::from_str("html");
        name.eq(&html)
    }
}

} // verus!
