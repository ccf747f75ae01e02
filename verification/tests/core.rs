use mdbook_scientific::bibliography::load_bibliography_references;
use mdbook_scientific::errors::Error;
use mdbook_scientific::format::{
    equation_label, figure_label, format_equation, format_equation_block, format_figure,
    format_inline_equation,
};
use mdbook_scientific::fragments::{
    check_bib2xhtml_output, directive_plan, gnuplot_svg_script, gnuplot_tex_script, hash,
    inline_math_plan, parse_latex_error, render_actions, template_tex, with_ext, BackendKind,
    RenderActions,
};
use mdbook_scientific::reftable::RefTable;
use mdbook_scientific::types::{Content, LiCo, Replacement, SupportedRenderer};

fn sample_replacement() -> Replacement {
    Replacement {
        content: Content {
            s: String::from("x^2"),
            start: LiCo { lineno: 1, column: 1 },
            end: LiCo { lineno: 1, column: 4 },
        },
        intermediate: None,
        svg: String::from("abc.svg"),
    }
}

#[test]
fn hash_is_deterministic_and_short() {
    let a = hash("E = mc^2");
    let b = hash("E = mc^2");
    assert_eq!(a, b);
    assert_eq!(a.len(), 24);
    assert!(a.chars().all(|c| matches!(c, '0'..='9' | 'a'..='f')));
    let c = hash("E = mc^3");
    assert_ne!(a, c);
    assert_eq!(c.len(), 24);
}

#[test]
fn renderer_from_str_accepts_known_names_case_insensitively() {
    assert_eq!(
        SupportedRenderer::from_str("tectonic").unwrap(),
        SupportedRenderer::Tectonic
    );
    assert_eq!(
        SupportedRenderer::from_str("Tectonic").unwrap(),
        SupportedRenderer::Tectonic
    );
    assert_eq!(
        SupportedRenderer::from_str("HTML").unwrap(),
        SupportedRenderer::Html
    );
    assert_eq!(
        SupportedRenderer::from_str("markdown").unwrap(),
        SupportedRenderer::Markdown
    );
    assert_eq!(
        SupportedRenderer::from_str("latex").unwrap(),
        SupportedRenderer::Latex
    );
    match SupportedRenderer::from_str("EPUB") {
        Err(Error::RendererNotSupported(name)) => assert_eq!(name, "epub"),
        other => panic!("unexpected result: {:?}", other),
    }
}

#[test]
fn mermaid_passthrough_only_for_image_targets() {
    assert!(SupportedRenderer::Html.mermaid_passthrough());
    assert!(SupportedRenderer::Markdown.mermaid_passthrough());
    assert!(!SupportedRenderer::Latex.mermaid_passthrough());
    assert!(!SupportedRenderer::Tectonic.mermaid_passthrough());
}

#[test]
fn format_figure_html_exact() {
    let r = sample_replacement();
    let out = format_figure(&r, "refA", "2.", 2, "A caption", SupportedRenderer::Html);
    let expected = "<figure id=\"refA\" class=\"figure\">\n                    <object data=\"assets/abc.svg\" type=\"image/svg+xml\"/></object>\n                    <figcaption>Figure 2.2 A caption</figcaption>\n                </figure>";
    assert_eq!(out, expected);
}

#[test]
fn format_figure_latex_uses_intermediate_or_content() {
    let mut r = sample_replacement();
    let out = format_figure(&r, "refA", "2.", 2, "A caption", SupportedRenderer::Latex);
    assert_eq!(out, "\\[x^2\\]");
    r.intermediate = Some(String::from("\\sin x"));
    let out = format_figure(&r, "refA", "2.", 2, "A caption", SupportedRenderer::Tectonic);
    assert_eq!(out, "\\[\\sin x\\]");
}

#[test]
fn format_equation_block_html_exact() {
    let r = sample_replacement();
    let out = format_equation_block(&r, "eq1", "3.", 1, SupportedRenderer::Markdown);
    let expected = "<div id=\"eq1\" class=\"equation\">\n                    <div class=\"equation_inner\">\n                        <object data=\"assets/abc.svg\" type=\"image/svg+xml\"></object>\n                    </div><span>(3.1)</span>\n                </div>";
    assert_eq!(out, expected);
}

#[test]
fn format_equation_html_exact() {
    let r = sample_replacement();
    let out = format_equation(&r, SupportedRenderer::Html);
    let expected = "<div class=\"equation\"><div class=\"equation_inner\"><object data=\"assets/abc.svg\" type=\"image/svg+xml\"></object></div></div>\\n";
    assert_eq!(out, expected);
}

#[test]
fn format_inline_equation_exact() {
    let r = sample_replacement();
    let out = format_inline_equation(&r, SupportedRenderer::Html);
    let expected =
        "<object class=\"equation_inline\" data=\"assets/abc.svg\" type=\"image/svg+xml\"></object>";
    assert_eq!(out, expected);
    let out = format_inline_equation(&r, SupportedRenderer::Latex);
    assert_eq!(out, "$x^2$");
}

#[test]
fn labels_follow_head_number_and_counter() {
    assert_eq!(figure_label("2.", 2), "Figure 2.2");
    assert_eq!(figure_label("", 10), "Figure 10");
    assert_eq!(equation_label("4.", 3), "4.3");
}

#[test]
fn reftable_insert_get_and_overwrite() {
    let mut t = RefTable::new();
    assert!(t.get("a").is_none());
    t.insert(String::from("a"), String::from("Figure 1.1"));
    t.insert(String::from("b"), String::from("1.1"));
    assert_eq!(t.get("a").unwrap(), "Figure 1.1");
    assert_eq!(t.get("b").unwrap(), "1.1");
    // a key defined again keeps the last label (last-writer-wins)
    t.insert(String::from("a"), String::from("Figure 1.2"));
    assert_eq!(t.get("a").unwrap(), "Figure 1.2");
    assert!(t.get("c").is_none());
}

#[test]
fn with_ext_appends() {
    assert_eq!(with_ext("abc", ".svg"), "abc.svg");
}

#[test]
fn template_wraps_content_between_math_markers() {
    let t = template_tex("x^2\n");
    assert!(t.starts_with("\\documentclass[preview]{standalone}\n"));
    assert!(t.contains("$$x^2\n$$\n"));
    assert!(t.ends_with("\\end{document}\n"));
}

#[test]
fn gnuplot_scripts_name_their_outputs() {
    let s = gnuplot_tex_script("abc", "plot sin(x)\n");
    assert_eq!(
        s,
        "set output 'abc.tex'\nset terminal epslatex color standalone\nplot sin(x)\n"
    );
    let s = gnuplot_svg_script("abc", "plot sin(x)\n");
    assert_eq!(
        s,
        "set output 'abc.svg'\nset terminal svg\nset encoding utf8\nplot sin(x)\n"
    );
}

#[test]
fn directive_plan_selects_backend_and_zoom() {
    let p3 = vec![
        String::from("latex"),
        String::from("r"),
        String::from("t"),
    ];
    let p = directive_plan(&p3, "body");
    assert_eq!(p.backend, BackendKind::Latex);
    assert_eq!(p.zoom_tenths, 10);
    assert_eq!(p.tex_body.as_deref(), Some("body"));
    assert_eq!(p.name, hash("body"));

    let pg = vec![
        String::from("gnuplot"),
        String::from("r"),
        String::from("t"),
    ];
    let p = directive_plan(&pg, "body");
    assert_eq!(p.backend, BackendKind::Gnuplot);
    assert!(p.tex_body.is_none());

    let pe = vec![String::from("equation"), String::from("r")];
    let p = directive_plan(&pe, "body");
    assert_eq!(p.backend, BackendKind::Template);
    assert_eq!(p.zoom_tenths, 16);
    assert_eq!(p.tex_body.unwrap(), template_tex("body"));

    let p = inline_math_plan("x");
    assert_eq!(p.backend, BackendKind::Template);
    assert_eq!(p.zoom_tenths, 13);
}

#[test]
fn populated_cache_needs_no_work() {
    for backend in [
        BackendKind::Latex,
        BackendKind::Gnuplot,
        BackendKind::GnuplotOnly,
        BackendKind::Template,
    ] {
        let a = render_actions(backend, true, true, true);
        assert!(!a.write_tex);
        assert!(!a.run_gnuplot_to_tex);
        assert!(!a.run_latex);
        assert!(!a.run_dvisvgm);
        assert!(!a.run_gnuplot_to_svg);
    }
}

#[test]
fn cold_cache_runs_the_full_chain() {
    let a = render_actions(BackendKind::Template, false, false, false);
    assert_eq!(
        a,
        RenderActions {
            write_tex: true,
            run_gnuplot_to_tex: false,
            run_latex: true,
            run_dvisvgm: true,
            run_gnuplot_to_svg: false,
            read_intermediate: false,
        }
    );
    let a = render_actions(BackendKind::Gnuplot, false, false, false);
    assert!(a.run_gnuplot_to_tex && a.run_latex && a.run_dvisvgm && a.read_intermediate);
    let a = render_actions(BackendKind::GnuplotOnly, false, false, false);
    assert!(a.run_gnuplot_to_svg && !a.run_latex);
}

#[test]
fn latex_log_is_distilled_to_message_excerpt_and_line() {
    let log = "This is pdfTeX\n! Undefined control sequence.\nl.5 \\badcmd\n   x^2\n";
    let (msg, excerpt, lineno) = parse_latex_error(log);
    assert_eq!(msg, "Undefined control sequence.");
    assert_eq!(excerpt, "\\badcmd");
    assert_eq!(lineno, 5);
}

#[test]
fn latex_log_ignores_emergency_stop_and_keeps_defaults() {
    let log = "! Emergency stop.\nnothing else\n";
    let (msg, excerpt, lineno) = parse_latex_error(log);
    assert_eq!(msg, "");
    assert_eq!(excerpt, "");
    assert_eq!(lineno, usize::MAX);
}

#[test]
fn bib_output_is_cut_to_its_definition_list() {
    let stdout = "<html>\nhead\n<dl class=\"bib2xhtml\">\n<dt><a name=\"k1\">[1]</a></dt>\n<dd>Entry</dd>\n</dl>\n</html>\n";
    let out = check_bib2xhtml_output(stdout, "ok (no error messages to speak of... fine)").unwrap();
    assert_eq!(
        out,
        "<dl class=\"bib2xhtml\"><dt><a id=\"k1\">[1]</a></dt><dd>Entry</dd>"
    );
}

#[test]
fn bib_errors_abort() {
    match check_bib2xhtml_output("ignored", "found (2 error messages)") {
        Err(Error::InvalidBibliography(msg)) => assert!(msg.contains("error messages)")),
        other => panic!("unexpected result: {:?}", other),
    }
}

#[test]
fn bibliography_keys_are_numbered_in_order() {
    let bib = "@misc{alpha, title = {A}}\n@misc{beta, title = {B}}\n";
    let mut refs = RefTable::new();
    load_bibliography_references(bib, &mut refs).unwrap();
    assert_eq!(refs.get("alpha").unwrap(), "[1]");
    assert_eq!(refs.get("beta").unwrap(), "[2]");
}

#[test]
fn malformed_bibliography_is_reported() {
    // the entry breaks off before its value
    let mut refs = RefTable::new();
    let r = load_bibliography_references("@misc{k1, title = ", &mut refs);
    assert!(matches!(r, Err(Error::BibliographyParsingFailed(_))));
    assert!(refs.get("k1").is_none());
}

#[test]
fn guarded_bibliography_inputs_are_rejected() {
    // a text ending in an opening value delimiter is kept away from the
    // outside parser, whose value scan would misbehave on it
    let mut refs = RefTable::new();
    let r = load_bibliography_references("@comment{", &mut refs);
    assert!(matches!(r, Err(Error::BibliographyParsingFailed(_))));
    // so is one ending in a multi-byte character
    let r = load_bibliography_references("stray caf\u{e9}", &mut refs);
    assert!(matches!(r, Err(Error::BibliographyParsingFailed(_))));
}

#[test]
fn string_abbreviations_do_not_block_key_extraction() {
    // citation keys never need abbreviation expansion, so even a
    // self-referential definition is tolerated
    let bib = "@string{a = a}\n@misc{k1, title = a}\n";
    let mut refs = RefTable::new();
    load_bibliography_references(bib, &mut refs).unwrap();
    assert_eq!(refs.get("k1").unwrap(), "[1]");
}

#[test]
fn replacement_intermediate_falls_back_to_content() {
    let mut r = sample_replacement();
    assert_eq!(r.intermediate(), "x^2");
    r.intermediate = Some(String::from("ready"));
    assert_eq!(r.intermediate(), "ready");
}
