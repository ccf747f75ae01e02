//! Pure formatting of resolved artifacts into target markup: captioned
//! figures, numbered and unnumbered equation blocks, and inline
//! equations, for image-embedding targets and native typesetting targets.

use vstd::prelude::*;

use crate::strutil::{dec_of, usize_to_dec};
use crate::types::{Replacement, SupportedRenderer};

verus! {

/// The label a figure's reference key resolves to.
pub open spec fn spec_figure_label(head: Seq<char>, n: int) -> Seq<char> {
    "Figure "@ + head + dec_of(n)
}

/// The label a numbered equation's reference key resolves to.
pub open spec fn spec_equation_label(head: Seq<char>, n: int) -> Seq<char> {
    head + dec_of(n)
}

/// Build the figure label recorded in the reference table.
pub fn figure_label(head_num: &str, n: usize) -> (r: String)
    ensures
        r@ == spec_figure_label(head_num@, n as int),
{
    let mut out = String::from_str("Figure ");
    out.append(head_num);
    out.append(usize_to_dec(n).as_str());
    assert(out@ =~= spec_figure_label(head_num@, n as int));
    out
}

/// Build the equation label recorded in the reference table.
pub fn equation_label(head_num: &str, n: usize) -> (r: String)
    ensures
        r@ == spec_equation_label(head_num@, n as int),
{
    let mut out = String::from_str("");
    out.append(head_num);
    out.append(usize_to_dec(n).as_str());
    proof {
        reveal_strlit("");
    }
    assert(out@ =~= spec_equation_label(head_num@, n as int));
    out
}

/// A captioned figure for the given target: image-embedding targets get
/// an anchored figure element; native typesetting targets embed the
/// intermediate form between display-math delimiters.
pub open spec fn spec_format_figure(
    svg: Seq<char>,
    inter: Seq<char>,
    refer: Seq<char>,
    head: Seq<char>,
    n: int,
    title: Seq<char>,
    renderer: SupportedRenderer,
) -> Seq<char> {
    match renderer {
        SupportedRenderer::Html | SupportedRenderer::Markdown => "<figure id=\""@ + refer
            + "\" class=\"figure\">\n                    <object data=\"assets/"@ + svg
            + "\" type=\"image/svg+xml\"/></object>\n                    <figcaption>Figure "@
            + head + dec_of(n) + " "@ + title + "</figcaption>\n                </figure>"@,
        SupportedRenderer::Latex | SupportedRenderer::Tectonic => "\\["@ + inter + "\\]"@,
    }
}

pub fn format_figure(
    replacement: &Replacement,
    refer: &str,
    head_num: &str,
    figures_counter: usize,
    title: &str,
    renderer: SupportedRenderer,
) -> (r: String)
    ensures
        r@ == spec_format_figure(
            replacement.svg@,
            replacement.intermediate_model(),
            refer@,
            head_num@,
            figures_counter as int,
            title@,
            renderer,
        ),
{
    match renderer {
        SupportedRenderer::Html | SupportedRenderer::Markdown => {
            let mut out = String::from_str("<figure id=\"");
            out.append(refer);
            out.append("\" class=\"figure\">\n                    <object data=\"assets/");
            out.append(replacement.svg.as_str());
            out.append(
                "\" type=\"image/svg+xml\"/></object>\n                    <figcaption>Figure ",
            );
            out.append(head_num);
            out.append(usize_to_dec(figures_counter).as_str());
            out.append(" ");
            out.append(title);
            out.append("</figcaption>\n                </figure>");
            assert(out@ =~= spec_format_figure(
                replacement.svg@,
                replacement.intermediate_model(),
                refer@,
                head_num@,
                figures_counter as int,
                title@,
                renderer,
            ));
            out
        },
        SupportedRenderer::Latex | SupportedRenderer::Tectonic => {
            let mut out = String::from_str("\\[");
            out.append(replacement.intermediate());
            out.append("\\]");
            assert(out@ =~= spec_format_figure(
                replacement.svg@,
                replacement.intermediate_model(),
                refer@,
                head_num@,
                figures_counter as int,
                title@,
                renderer,
            ));
            out
        },
    }
}

/// A numbered equation block: an anchored element showing the rendered
/// image beside its number, or the native form for typesetting targets.
pub open spec fn spec_format_equation_block(
    svg: Seq<char>,
    inter: Seq<char>,
    refer: Seq<char>,
    head: Seq<char>,
    n: int,
    renderer: SupportedRenderer,
) -> Seq<char> {
    match renderer {
        SupportedRenderer::Html | SupportedRenderer::Markdown => "<div id=\""@ + refer
            + "\" class=\"equation\">\n                    <div class=\"equation_inner\">\n                        <object data=\"assets/"@
            + svg + "\" type=\"image/svg+xml\"></object>\n                    </div><span>("@
            + head + dec_of(n) + ")</span>\n                </div>"@,
        SupportedRenderer::Latex | SupportedRenderer::Tectonic => "\\["@ + inter + "\\]"@,
    }
}

pub fn format_equation_block(
    replacement: &Replacement,
    refer: &str,
    head_num: &str,
    equations_counter: usize,
    renderer: SupportedRenderer,
) -> (r: String)
    ensures
        r@ == spec_format_equation_block(
            replacement.svg@,
            replacement.intermediate_model(),
            refer@,
            head_num@,
            equations_counter as int,
            renderer,
        ),
{
    match renderer {
        SupportedRenderer::Html | SupportedRenderer::Markdown => {
            let mut out = String::from_str("<div id=\"");
            out.append(refer);
            out.append(
                "\" class=\"equation\">\n                    <div class=\"equation_inner\">\n                        <object data=\"assets/",
            );
            out.append(replacement.svg.as_str());
            out.append("\" type=\"image/svg+xml\"></object>\n                    </div><span>(");
            out.append(head_num);
            out.append(usize_to_dec(equations_counter).as_str());
            out.append(")</span>\n                </div>");
            assert(out@ =~= spec_format_equation_block(
                replacement.svg@,
                replacement.intermediate_model(),
                refer@,
                head_num@,
                equations_counter as int,
                renderer,
            ));
            out
        },
        SupportedRenderer::Latex | SupportedRenderer::Tectonic => {
            let mut out = String::from_str("\\[");
            out.append(replacement.intermediate());
            out.append("\\]");
            assert(out@ =~= spec_format_equation_block(
                replacement.svg@,
                replacement.intermediate_model(),
                refer@,
                head_num@,
                equations_counter as int,
                renderer,
            ));
            out
        },
    }
}

/// An unnumbered equation block, registering no reference.
pub open spec fn spec_format_equation(
    svg: Seq<char>,
    inter: Seq<char>,
    renderer: SupportedRenderer,
) -> Seq<char> {
    match renderer {
        SupportedRenderer::Html | SupportedRenderer::Markdown => (
        "<div class=\"equation\"><div class=\"equation_inner\"><object data=\"assets/"@ + svg
            + "\" type=\"image/svg+xml\"></object></div></div>\\n"@),
        SupportedRenderer::Latex | SupportedRenderer::Tectonic => "\\["@ + inter + "\\]"@,
    }
}

pub fn format_equation(replacement: &Replacement, renderer: SupportedRenderer) -> (r: String)
    ensures
        r@ == spec_format_equation(
            replacement.svg@,
            replacement.intermediate_model(),
            renderer,
        ),
{
    match renderer {
        SupportedRenderer::Html | SupportedRenderer::Markdown => {
            let mut out = String::from_str(
                "<div class=\"equation\"><div class=\"equation_inner\"><object data=\"assets/",
            );
            out.append(replacement.svg.as_str());
            out.append("\" type=\"image/svg+xml\"></object></div></div>\\n");
            assert(out@ =~= spec_format_equation(
                replacement.svg@,
                replacement.intermediate_model(),
                renderer,
            ));
            out
        },
        SupportedRenderer::Latex | SupportedRenderer::Tectonic => {
            let mut out = String::from_str("\\[");
            out.append(replacement.intermediate());
            out.append("\\]");
            assert(out@ =~= spec_format_equation(
                replacement.svg@,
                replacement.intermediate_model(),
                renderer,
            ));
            out
        },
    }
}

/// An inline equation: the rendered image inline, or the original span
/// between inline math delimiters for typesetting targets.
pub open spec fn spec_format_inline_equation(
    svg: Seq<char>,
    content: Seq<char>,
    renderer: SupportedRenderer,
) -> Seq<char> {
    match renderer {
        SupportedRenderer::Html | SupportedRenderer::Markdown => (
        "<object class=\"equation_inline\" data=\"assets/"@ + svg
            + "\" type=\"image/svg+xml\"></object>"@),
        SupportedRenderer::Latex | SupportedRenderer::Tectonic => "$"@ + content + "$"@,
    }
}

pub fn format_inline_equation(replacement: &Replacement, renderer: SupportedRenderer) -> (r:
    String)
    ensures
        r@ == spec_format_inline_equation(replacement.svg@, replacement.content.s@, renderer),
{
    match renderer {
        SupportedRenderer::Html | SupportedRenderer::Markdown => {
            let mut out = String::from_str("<object class=\"equation_inline\" data=\"assets/");
            out.append(replacement.svg.as_str());
            out.append("\" type=\"image/svg+xml\"></object>");
            assert(out@ =~= spec_format_inline_equation(
                replacement.svg@,
                replacement.content.s@,
                renderer,
            ));
            out
        },
        SupportedRenderer::Latex | SupportedRenderer::Tectonic => {
            let mut out = String::from_str("$");
            out.append(replacement.content.s.as_str());
            out.append("$");
            assert(out@ =~= spec_format_inline_equation(
                replacement.svg@,
                replacement.content.s@,
                renderer,
            ));
            out
        },
    }
}

} // verus!
