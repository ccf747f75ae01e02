//! Position and span model shared by both scanner passes, the renderer
//! target enumeration, and the artifact record a rendered span resolves to.

use vstd::prelude::*;

use crate::errors::Error;
use crate::strutil::{ascii_lower, ascii_lower_string, str_eq_str};

verus! {

/// Enum covering all supported renderers
#[derive(Debug, Clone, Copy, PartialEq, Eq, Structural)]
pub enum SupportedRenderer {
    Tectonic,
    Latex,
    Markdown,
    Html,
}

/// The renderer a name selects, compared ASCII-case-insensitively.
pub open spec fn renderer_of(s: Seq<char>) -> Option<SupportedRenderer> {
    let l = ascii_lower(s);
    if l == "tectonic"@ {
        Some(SupportedRenderer::Tectonic)
    } else if l == "latex"@ {
        Some(SupportedRenderer::Latex)
    } else if l == "markdown"@ {
        Some(SupportedRenderer::Markdown)
    } else if l == "html"@ {
        Some(SupportedRenderer::Html)
    } else {
        None
    }
}

impl SupportedRenderer {
    /// Parse a renderer name as the host hands it over. The comparison
    /// folds case ASCII-wise: every casing of the known names (which
    /// are ASCII) is accepted, and a name that matches one of them only
    /// under a wider Unicode case folding is rejected.
    pub fn from_str(s: &str) -> (r: Result<SupportedRenderer, Error>)
        ensures
            renderer_of(s@) matches Some(x) ==> r == Ok::<SupportedRenderer, Error>(x),
            renderer_of(s@) is None ==> (r matches Err(e) && e matches Error::RendererNotSupported(t)
                && t@ == ascii_lower(s@)),
    {
        let low = ascii_lower_string(s);
        if str_eq_str(low.as_str(), "tectonic") {
            Ok(SupportedRenderer::Tectonic)
        } else if str_eq_str(low.as_str(), "latex") {
            Ok(SupportedRenderer::Latex)
        } else if str_eq_str(low.as_str(), "markdown") {
            Ok(SupportedRenderer::Markdown)
        } else if str_eq_str(low.as_str(), "html") {
            Ok(SupportedRenderer::Html)
        } else {
            Err(Error::RendererNotSupported(low))
        }
    }

    /// Whether mermaid code fences are left for the target to handle;
    /// for the other targets the caller strips the fence label instead.
    pub fn mermaid_passthrough(self) -> (b: bool)
        ensures
            b == (self is Html || self is Markdown),
    {
        match self {
            SupportedRenderer::Html | SupportedRenderer::Markdown => true,
            SupportedRenderer::Latex | SupportedRenderer::Tectonic => false,
        }
    }
}

/// A 1-based line/column position inside a source document.
#[derive(Debug, Clone, Copy, PartialEq, Eq, Structural)]
pub struct LiCo {
    /// Base 1 line number
    pub lineno: usize,
    /// Base 1 column number
    pub column: usize,
}

/// A content reference: the text a directive's body occupies, between
/// `start` and `end` inclusive.
#[derive(Debug, Clone)]
pub struct Content {
    /// Content between `start` and `end` including.
    pub s: String,
    /// From (including!)
    pub start: LiCo,
    /// Until (including!)
    pub end: LiCo,
}

/// Parsed content reference with a path to the replacement svg
#[derive(Debug, Clone)]
pub struct Replacement {
    pub content: Content,
    /// Intermediate representation if there is any, directly usable with
    /// native typesetting backends.
    pub intermediate: Option<String>,
    pub svg: String,
}

impl Replacement {
    /// The text a native typesetting target embeds: the intermediate form
    /// when the renderer produced one, else the original content.
    pub open spec fn intermediate_model(&self) -> Seq<char> {
        match self.intermediate {
            Some(i) => i@,
            None => self.content.s@,
        }
    }

    pub fn intermediate(&self) -> (r: &str)
        ensures
            r@ == self.intermediate_model(),
    {
        if let Some(ref intermediate) = self.intermediate {
            intermediate.as_str()
        } else {
            self.content.s.as_str()
        }
    }
}

} // verus!
