//! An mdBook preprocessor that expands `<!-- KCL: ... -->` directives into
//! 3D model embeds or 2D image fallbacks.
use vstd::prelude::*;
use crate::text::same_text;

pub mod directive;
pub mod markdown;
pub mod text;
pub mod token;

verus! {

/// Why a chapter could not be transformed.
#[derive(Debug, Clone, Copy, PartialEq, Eq, Structural)]
pub enum KclError {
    /// A directive field has no `=` between its key and its value.
    MalformedField,
    /// The transformed events could not be written back as markdown.
    Render,
}

/// The KCL book's preprocessor.
#[derive(Default)]
pub struct Kcl;

impl Kcl {
    pub fn new() -> (r: Kcl)
        ensures
            r == Kcl,
    {
        Kcl
    }

    /// The name under which the preprocessor is configured.
    pub fn name(&self) -> (r: &'static str)
        ensures
            r@ == "kcl"@,
    {
        "kcl"
    }

    /// Only the HTML renderer shows the models.
    pub fn supports_renderer(&self, renderer: &str) -> (r: bool)
        ensures
            r == (renderer@ == "html"@),
    {
        same_text(renderer, "html")
    }
}

} // verus!
