//! Cross-function properties of the two passes, stated and proved over
//! the same spec functions the public contracts use.

use vstd::prelude::*;

use crate::block::{
    assemble_fold, assemble_step, scan_blocks_spec, is_figure_params, BlockItemModel,
    BlockOutState, DirModel, DirResolutionModel,
};
use crate::format::spec_figure_label;
use crate::inline::{
    fig_anchor, inline_line_step, seg_result, InlineErrModel, LineModel, SegModel,
};
use crate::strutil::starts_with;
use crate::types::SupportedRenderer;

verus! {

/// Re-running the whole block pass on the same document with the same
/// resolved bodies produces the same items, output text, references and
/// used artifacts: both passes are functions of their inputs, and the
/// contracts of `scan_blocks` and `replace_blocks` pin their results to
/// exactly these functions. Together with the fact that a populated
/// cache schedules no outside work (`lemma_cached_no_render`), a second
/// build over unchanged content is byte-identical and render-free.
pub proof fn lemma_block_pass_repeatable(
    src1: Seq<char>,
    src2: Seq<char>,
    res1: Seq<DirResolutionModel>,
    res2: Seq<DirResolutionModel>,
    head: Seq<char>,
    renderer: SupportedRenderer,
    init: BlockOutState,
    n: int,
)
    requires
        src1 == src2,
        res1 == res2,
    ensures
        scan_blocks_spec(src1) == scan_blocks_spec(src2),
        assemble_fold(scan_blocks_spec(src1), res1, head, renderer, init, n) == assemble_fold(
            scan_blocks_spec(src2),
            res2,
            head,
            renderer,
            init,
            n,
        ),
{
}

/// Reference round-trip: the label a figure directive registers is
/// exactly what an inline `$ref:fig:key$` span later resolves to. When
/// the assembly pass processes a figure directive with reference key
/// `d.params[1]` as the next figure (the counter standing at
/// `st.figs`), the new table maps that key to the figure label built
/// from the heading number and the new counter value, and resolving a
/// figure reference with that key against the new table substitutes the
/// anchor showing precisely that label.
pub proof fn lemma_reference_round_trip(
    st: BlockOutState,
    d: DirModel,
    res: Seq<DirResolutionModel>,
    head: Seq<char>,
    renderer: SupportedRenderer,
    lineno: int,
)
    requires
        is_figure_params(d.params),
        0 <= st.ri < res.len(),
        res[st.ri] is Rendered,
    ensures
        ({
            let st2 = assemble_step(st, BlockItemModel::Dir { d }, res, head, renderer);
            let label = spec_figure_label(head, st.figs + 1);
            st2.refs.contains_key(d.params[1]) && st2.refs[d.params[1]] == label && seg_result(
                (SegModel::RefParts { parts: seq!["fig"@, d.params[1]] }),
                st2.refs,
                lineno,
                renderer,
            ) == Ok::<Seq<char>, InlineErrModel>(fig_anchor(d.params[1], label))
        }),
{
    let st2 = assemble_step(st, BlockItemModel::Dir { d }, res, head, renderer);
    let label = spec_figure_label(head, st.figs + 1);
    assert(st2.refs == st.refs.insert(d.params[1], label));
    assert(seq!["fig"@, d.params[1]].len() == 2);
    assert(seq!["fig"@, d.params[1]][0] == "fig"@);
    assert(seq!["fig"@, d.params[1]][1] == d.params[1]);
}

/// The single-line directive shorthand is equivalent to the two-line
/// form with the same resolved content: the assembly step reads only a
/// directive's parameter list and its resolution, never the scanned
/// body or span, so two directives whose parameter lists agree produce
/// identical output, references and used artifacts from the same state
/// and resolution. The shorthand `$$kind, key$$` and the opening line
/// `$$kind, key` parse to the same parameter list, so handing both the
/// same body content gives byte-identical results.
pub proof fn lemma_shorthand_equivalent(
    st: BlockOutState,
    d1: DirModel,
    d2: DirModel,
    res: Seq<DirResolutionModel>,
    head: Seq<char>,
    renderer: SupportedRenderer,
)
    requires
        d1.params == d2.params,
    ensures
        assemble_step(st, BlockItemModel::Dir { d: d1 }, res, head, renderer) == assemble_step(
            st,
            BlockItemModel::Dir { d: d2 },
            res,
            head,
            renderer,
        ),
{
}

/// Inside a fenced or raw code region, a line that is not itself a
/// fence or tag line is passed through verbatim, unscanned: an inline
/// math span there is left exactly as written. Outside any code region
/// the scanner partitions the line, and a math segment is substituted
/// by its inline-equation markup (see `seg_result`).
pub proof fn lemma_code_region_verbatim(line: Seq<char>)
    requires
        !starts_with(line, "```"@),
        !starts_with(line, "<pre"@),
        !starts_with(line, "</pre>"@),
    ensures
        inline_line_step(true, line) == (true, LineModel::Verbatim { line }),
{
}

/// An inline reference whose kind is not `fig`, `bib` or `equ` fails
/// with the unknown-reference-kind error naming that kind and line.
/// By the contract of `replace_inline_blocks`, a pass that fails this
/// way leaves the used-artifact list untouched, and it never writes the
/// reference table at all.
pub proof fn lemma_unknown_reference_kind(
    kind: Seq<char>,
    key: Seq<char>,
    refs: Map<Seq<char>, Seq<char>>,
    lineno: int,
    renderer: SupportedRenderer,
)
    requires
        kind != "fig"@,
        kind != "bib"@,
        kind != "equ"@,
    ensures
        seg_result((SegModel::RefParts { parts: seq![kind, key] }), refs, lineno, renderer)
            == Err::<Seq<char>, InlineErrModel>(InlineErrModel::UnknownKind { kind, lineno }),
{
    assert(seq![kind, key].len() == 2);
    assert(seq![kind, key][0] == kind);
}

} // verus!
