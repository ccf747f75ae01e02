use mdbook_scientific::block::{replace_blocks, scan_blocks, BlockItem, DirResolution};
use mdbook_scientific::errors::Error;
use mdbook_scientific::fragments::{hash, render_actions, BackendKind};
use mdbook_scientific::inline::{replace_inline_blocks, scan_inline, InlineLine, InlineSeg};
use mdbook_scientific::reftable::RefTable;
use mdbook_scientific::types::SupportedRenderer;

fn resolutions_from_bodies(items: &Vec<BlockItem>) -> Vec<DirResolution> {
    let mut res = Vec::new();
    for it in items.iter() {
        if let BlockItem::Dir { dir } = it {
            res.push(DirResolution::Rendered {
                body: dir.body.clone(),
                intermediate: None,
            });
        }
    }
    res
}

fn run_block_pass(
    doc: &str,
    head: &str,
    renderer: SupportedRenderer,
) -> (String, Vec<String>, Vec<String>, RefTable) {
    let items = scan_blocks(doc);
    let res = resolutions_from_bodies(&items);
    let mut used: Vec<String> = Vec::new();
    let mut refs = RefTable::new();
    let (out, warnings) = replace_blocks(&items, &res, head, renderer, &mut used, &mut refs);
    (out, warnings, used, refs)
}

#[test]
fn block_scan_records_exact_body_spans() {
    // the body occupies lines 5 through 7, each indented two spaces
    let doc = "a\nb\nc\n$$latex, refA, Cap\n  x^2\n  y\n  z\n$$\n";
    let items = scan_blocks(doc);
    assert_eq!(items.len(), 4);
    match &items[3] {
        BlockItem::Dir { dir } => {
            assert_eq!(
                dir.params,
                vec!["latex".to_string(), "refA".to_string(), "Cap".to_string()]
            );
            assert_eq!(dir.body, "x^2\ny\nz\n");
            assert_eq!(dir.start.lineno, 5);
            assert_eq!(dir.start.column, 3);
            assert_eq!(dir.end.lineno, 7);
            assert_eq!(dir.end.column, 3);
        }
        other => panic!("expected a directive, got {:?}", other),
    }
}

#[test]
fn empty_body_span_degenerates_to_marker_lines() {
    // the single-line shorthand has no body lines: the span is its own line
    let items = scan_blocks("first\n$$equation, keyA$$\n");
    match &items[1] {
        BlockItem::Dir { dir } => {
            assert_eq!(dir.start.lineno, 2);
            assert_eq!(dir.end.lineno, 2);
        }
        other => panic!("expected a directive, got {:?}", other),
    }
}

#[test]
fn block_pass_numbers_figures_and_registers_references() {
    let doc = "intro\n$$latex, refA, First\nx^2\n$$\n$$latex, refB, Second\ny\n$$\nend\n";
    let (out, warnings, used, refs) = run_block_pass(doc, "2.", SupportedRenderer::Html);
    assert!(warnings.is_empty());
    assert_eq!(refs.get("refA").unwrap(), "Figure 2.1");
    assert_eq!(refs.get("refB").unwrap(), "Figure 2.2");
    let svg_a = format!("{}.svg", hash("x^2\n"));
    let svg_b = format!("{}.svg", hash("y\n"));
    assert_eq!(used, vec![svg_a.clone(), svg_b.clone()]);
    assert!(out.starts_with("intro\n<figure id=\"refA\" class=\"figure\">"));
    assert!(out.contains(&format!("assets/{}", svg_a)));
    assert!(out.contains("<figcaption>Figure 2.2 Second</figcaption>"));
    assert!(out.ends_with("</figure>\nend"));
}

#[test]
fn block_pass_numbers_equations_separately() {
    let doc = "$$equation, eqA\na\n$$\n$$equ, eqB\nb\n$$\n$$equation\nc\n$$\n";
    let (out, _warnings, used, refs) = run_block_pass(doc, "3.", SupportedRenderer::Html);
    assert_eq!(refs.get("eqA").unwrap(), "3.1");
    assert_eq!(refs.get("eqB").unwrap(), "3.2");
    assert_eq!(used.len(), 3);
    assert!(out.contains("<div id=\"eqA\" class=\"equation\">"));
    assert!(out.contains("<span>(3.2)</span>"));
    // the third directive has no reference key: unnumbered
    assert!(out.contains("<div class=\"equation\"><div class=\"equation_inner\">"));
}

#[test]
fn single_line_shorthand_matches_two_line_form() {
    // the shorthand's body is empty and is resolved from a fragment
    // file; hand both forms the same resolved body
    let single_items = scan_blocks("$$equation, keyA$$\n");
    assert_eq!(single_items.len(), 1);
    match &single_items[0] {
        BlockItem::Dir { dir } => {
            assert_eq!(dir.params, vec!["equation".to_string(), "keyA".to_string()]);
            assert_eq!(dir.body, "");
        }
        other => panic!("expected a directive, got {:?}", other),
    }
    let body = "E=mc^2\n";
    let res = vec![DirResolution::Rendered {
        body: body.to_string(),
        intermediate: None,
    }];
    let mut used1: Vec<String> = Vec::new();
    let mut refs1 = RefTable::new();
    let (out1, _) = replace_blocks(
        &single_items,
        &res,
        "4.",
        SupportedRenderer::Html,
        &mut used1,
        &mut refs1,
    );

    let two_items = scan_blocks("$$equation, keyA\nE=mc^2\n$$\n");
    let res2 = resolutions_from_bodies(&two_items);
    let mut used2: Vec<String> = Vec::new();
    let mut refs2 = RefTable::new();
    let (out2, _) = replace_blocks(
        &two_items,
        &res2,
        "4.",
        SupportedRenderer::Html,
        &mut used2,
        &mut refs2,
    );

    assert_eq!(out1, out2);
    assert_eq!(used1, used2);
    assert_eq!(refs1.get("keyA").unwrap(), "4.1");
    assert_eq!(refs2.get("keyA").unwrap(), "4.1");
    // the cached artifact means the renderer backend is never invoked
    let a = render_actions(BackendKind::Template, true, true, true);
    assert!(!a.run_latex && !a.run_dvisvgm && !a.write_tex);
}

#[test]
fn block_pass_is_repeatable() {
    let doc = "intro\n$$equation, eqA\nx\n$$\nend\n";
    let first = run_block_pass(doc, "1.", SupportedRenderer::Html);
    let second = run_block_pass(doc, "1.", SupportedRenderer::Html);
    assert_eq!(first.0, second.0);
    assert_eq!(first.2, second.2);
}

#[test]
fn missing_fragment_is_skipped_with_warning() {
    let items = scan_blocks("before\n$$equation, ghost$$\nafter\n");
    let res = vec![DirResolution::Missing];
    let mut used: Vec<String> = Vec::new();
    let mut refs = RefTable::new();
    let (out, warnings) =
        replace_blocks(&items, &res, "1.", SupportedRenderer::Html, &mut used, &mut refs);
    assert_eq!(out, "before\nafter");
    assert_eq!(warnings, vec!["ghost".to_string()]);
    assert!(used.is_empty());
    assert!(refs.get("ghost").is_none());
}

#[test]
fn unclosed_directive_is_dropped() {
    let items = scan_blocks("a\n$$latex, refA, Cap\nbody\n");
    assert_eq!(items.len(), 1);
    assert!(matches!(&items[0], BlockItem::Pass { line } if line == "a"));
}

#[test]
fn inline_math_is_substituted_outside_code_fences_only() {
    let doc = "see $x^2$ here\n```\n$x^2$\n```\n";
    let lines = scan_inline(doc);
    let refs = RefTable::new();
    let mut used: Vec<String> = Vec::new();
    let (out, maths) =
        replace_inline_blocks(&lines, &refs, SupportedRenderer::Html, &mut used).unwrap();
    let svg = format!("{}.svg", hash("x^2"));
    let expected_obj = format!(
        "<object class=\"equation_inline\" data=\"assets/{}\" type=\"image/svg+xml\"></object>",
        svg
    );
    let expected = format!("see {} here\n```\n$x^2$\n```", expected_obj);
    assert_eq!(out, expected);
    assert_eq!(maths, vec!["x^2".to_string()]);
    assert_eq!(used, vec![svg]);
}

#[test]
fn pre_tags_suppress_scanning() {
    let doc = "<pre>\n$x$\n</pre>\n$y$\n";
    let lines = scan_inline(doc);
    assert!(matches!(&lines[0], InlineLine::Verbatim { .. }));
    assert!(matches!(&lines[1], InlineLine::Verbatim { .. }));
    assert!(matches!(&lines[2], InlineLine::Verbatim { .. }));
    match &lines[3] {
        InlineLine::Segs { segs } => {
            assert!(matches!(&segs[1], InlineSeg::Math { text, .. } if text == "y"));
        }
        other => panic!("expected segments, got {:?}", other),
    }
}

#[test]
fn backticks_hide_markers() {
    let doc = "a `$` b $x$\n";
    let lines = scan_inline(doc);
    let refs = RefTable::new();
    let mut used: Vec<String> = Vec::new();
    let (out, maths) =
        replace_inline_blocks(&lines, &refs, SupportedRenderer::Latex, &mut used).unwrap();
    // for typesetting targets the math span is re-wrapped in `$`,
    // substituted in place
    assert_eq!(out, "a `$` b $x$");
    assert_eq!(maths, vec!["x".to_string()]);
}

#[test]
fn odd_marker_count_closes_at_end_of_line() {
    let doc = "cost $5\n";
    let lines = scan_inline(doc);
    match &lines[0] {
        InlineLine::Segs { segs } => {
            assert_eq!(segs.len(), 2);
            assert!(matches!(&segs[0], InlineSeg::Lit { text } if text == "cost "));
            assert!(matches!(&segs[1], InlineSeg::Math { text, .. } if text == "5"));
        }
        other => panic!("expected segments, got {:?}", other),
    }
}

#[test]
fn reference_round_trip_through_both_passes() {
    // the directive is the second figure of document "2"
    let doc = "$$latex, refX, Other\na\n$$\n$$latex, refA, Caption\nx^2\n$$\n";
    let (_out, _warn, _used, refs) = run_block_pass(doc, "2.", SupportedRenderer::Html);
    assert_eq!(refs.get("refA").unwrap(), "Figure 2.2");

    let inline_doc = "as shown in $ref:fig:refA$.\n";
    let lines = scan_inline(inline_doc);
    let mut used: Vec<String> = Vec::new();
    let (out, maths) =
        replace_inline_blocks(&lines, &refs, SupportedRenderer::Html, &mut used).unwrap();
    assert_eq!(
        out,
        "as shown in <a class=\"fig_ref\" href='#refA'>Figure 2.2</a>."
    );
    assert!(maths.is_empty());
    assert!(used.is_empty());
}

#[test]
fn bib_and_equ_references_use_their_anchors() {
    let mut refs = RefTable::new();
    refs.insert("knuth".to_string(), "[3]".to_string());
    refs.insert("eqA".to_string(), "2.1".to_string());
    let lines = scan_inline("$ref:bib:knuth$ and $ref:equ:eqA$\n");
    let mut used: Vec<String> = Vec::new();
    let (out, _) =
        replace_inline_blocks(&lines, &refs, SupportedRenderer::Html, &mut used).unwrap();
    assert!(out.contains("<a class=\"bib_ref\" href='bibliography.html#knuth'>[3]</a>"));
    assert!(out.contains("<a class=\"equ_ref\" href='#eqA'>Eq. (2.1)</a>"));
}

#[test]
fn unknown_reference_kind_fails_without_mutation() {
    let doc = "$ref:foo:x$\n";
    let lines = scan_inline(doc);
    let refs = RefTable::new();
    let mut used: Vec<String> = Vec::new();
    used.push("pre-existing.svg".to_string());
    let r = replace_inline_blocks(&lines, &refs, SupportedRenderer::Html, &mut used);
    match r {
        Err(Error::UnknownReferenceKind { kind, lineno }) => {
            assert_eq!(kind, "foo");
            assert_eq!(lineno, 1);
        }
        other => panic!("unexpected result: {:?}", other),
    }
    // the used-artifact list is untouched on failure
    assert_eq!(used, vec!["pre-existing.svg".to_string()]);
}

#[test]
fn wrong_reference_arg_count_fails() {
    let lines = scan_inline("$ref:fig$\n");
    let refs = RefTable::new();
    let mut used: Vec<String> = Vec::new();
    let r = replace_inline_blocks(&lines, &refs, SupportedRenderer::Html, &mut used);
    match r {
        Err(Error::UnexpectedReferenceArgCount { count, lineno }) => {
            assert_eq!(count, 1);
            assert_eq!(lineno, 1);
        }
        other => panic!("unexpected result: {:?}", other),
    }
}

#[test]
fn missing_reference_key_fails() {
    let lines = scan_inline("$ref:fig:nope$\n");
    let refs = RefTable::new();
    let mut used: Vec<String> = Vec::new();
    let r = replace_inline_blocks(&lines, &refs, SupportedRenderer::Html, &mut used);
    match r {
        Err(Error::InvalidReference { to, lineno }) => {
            assert_eq!(to, "nope");
            assert_eq!(lineno, 1);
        }
        other => panic!("unexpected result: {:?}", other),
    }
}

#[test]
fn passthrough_lines_are_trimmed() {
    let (out, _, _, _) = run_block_pass("  padded  \nplain\n", "1.", SupportedRenderer::Html);
    assert_eq!(out, "padded\nplain");
}

#[test]
fn directive_bodies_are_trimmed_per_line() {
    let items = scan_blocks("$$equation, k\n  spaced  \n$$\n");
    match &items[0] {
        BlockItem::Dir { dir } => assert_eq!(dir.body, "spaced\n"),
        other => panic!("expected a directive, got {:?}", other),
    }
}

#[test]
fn unrecognized_directive_kind_falls_back_to_plain_equation() {
    let doc = "$$diagram, keyD, Title\nx\n$$\n";
    let (out, _, used, refs) = run_block_pass(doc, "1.", SupportedRenderer::Html);
    // the fallback renders an unnumbered equation and registers nothing
    assert!(out.starts_with("<div class=\"equation\"><div class=\"equation_inner\">"));
    assert!(refs.get("keyD").is_none());
    assert_eq!(used.len(), 1);
}

#[test]
fn bare_marker_pair_line_opens_a_directive() {
    // a bare `$$` line while nothing is open is an opener whose
    // parameter list is empty after the markers are stripped
    let items = scan_blocks("$$\nx\n$$\n");
    assert_eq!(items.len(), 1);
    match &items[0] {
        BlockItem::Dir { dir } => {
            assert_eq!(dir.params, vec![String::new()]);
            assert_eq!(dir.body, "x\n");
        }
        other => panic!("expected a directive, got {:?}", other),
    }
}

#[test]
fn whole_line_math_span() {
    let lines = scan_inline("$x^2$\n");
    match &lines[0] {
        InlineLine::Segs { segs } => {
            assert_eq!(segs.len(), 3);
            assert!(matches!(&segs[0], InlineSeg::Lit { text } if text.is_empty()));
            assert!(matches!(&segs[1], InlineSeg::Math { text, .. } if text == "x^2"));
            assert!(matches!(&segs[2], InlineSeg::Lit { text } if text.is_empty()));
        }
        other => panic!("expected segments, got {:?}", other),
    }
}

#[test]
fn empty_documents_pass_through() {
    let items = scan_blocks("");
    assert!(items.is_empty());
    let res: Vec<DirResolution> = Vec::new();
    let mut used: Vec<String> = Vec::new();
    let mut refs = RefTable::new();
    let (out, warnings) =
        replace_blocks(&items, &res, "1.", SupportedRenderer::Html, &mut used, &mut refs);
    assert_eq!(out, "");
    assert!(warnings.is_empty());

    let lines = scan_inline("");
    let (out, maths) =
        replace_inline_blocks(&lines, &refs, SupportedRenderer::Html, &mut used).unwrap();
    assert_eq!(out, "");
    assert!(maths.is_empty());
}
