//! The block directive scanner: the per-line state machine that
//! recognizes `$$`-delimited directives with exact line/column tracking,
//! and the assembly pass that turns scanned items and resolved bodies
//! into output text, reference entries and the used-artifact list.

use vstd::prelude::*;

use crate::format::{
    figure_label, format_equation, format_equation_block, format_figure, equation_label,
    spec_equation_label, spec_figure_label, spec_format_equation, spec_format_equation_block,
    spec_format_figure,
};
use crate::fragments::{hash, hash_id, with_ext};
use crate::reftable::RefTable;
use crate::types::{Content, LiCo, Replacement, SupportedRenderer};
use crate::strutil::{
    count_leading_ws, ends_with, join_lines, join_nl, leading_ws_count, lines_spec, replace_spec,
    split_lines, splitn3, splitn3_spec, starts_with, str_ends_with, str_eq_str, str_replace,
    str_starts_with, trim, trim_spec,
};

verus! {

/// A directive recognized by the block scanner: its parsed parameter
/// list (kind, then optional reference key and title), the body text
/// accumulated between the markers (empty for the single-line form),
/// and the exact source region the body occupies — its first and last
/// lines, or the directive's own marker lines when there is no body.
#[derive(Debug, Clone)]
pub struct BlockDirective {
    pub params: Vec<String>,
    pub body: String,
    pub start: LiCo,
    pub end: LiCo,
}

/// One item of the scanned document: a passthrough line, kept trimmed as
/// the scanner emits it, or a directive to resolve and render.
#[derive(Debug, Clone)]
pub enum BlockItem {
    Pass { line: String },
    Dir { dir: BlockDirective },
}

/// Mathematical model of a scanned directive.
pub struct DirModel {
    pub params: Seq<Seq<char>>,
    pub body: Seq<char>,
    pub start: LiCo,
    pub end: LiCo,
}

/// Mathematical model of a scanned item.
pub enum BlockItemModel {
    Pass { line: Seq<char> },
    Dir { d: DirModel },
}

impl BlockItem {
    pub open spec fn model(self) -> BlockItemModel {
        match self {
            BlockItem::Pass { line } => BlockItemModel::Pass { line: line@ },
            BlockItem::Dir { dir } => BlockItemModel::Dir {
                d: DirModel {
                    params: dir.params.deep_view(),
                    body: dir.body@,
                    start: dir.start,
                    end: dir.end,
                },
            },
        }
    }
}

/// The models of a sequence of scanned items.
pub open spec fn items_model(items: Seq<BlockItem>) -> Seq<BlockItemModel> {
    items.map_values(|it: BlockItem| it.model())
}

/// The parameters parsed from an opening line: split at the first two
/// commas, each part trimmed and with every `$$` removed.
pub open spec fn parse_params_spec(p: Seq<char>) -> Seq<Seq<char>> {
    splitn3_spec(p).map_values(|x: Seq<char>| replace_spec(trim_spec(x), "$$"@, ""@))
}

/// An open directive awaiting its closing marker: where and with what
/// parameter line it opened, and the source region its body lines have
/// covered so far.
pub struct PendingModel {
    pub opened: LiCo,
    pub param: Seq<char>,
    pub body_span: Option<(LiCo, LiCo)>,
}

/// The block scanner's state between lines: the items emitted so far,
/// the open directive if there is one, and the body accumulated since
/// it opened.
pub struct BlockScanState {
    pub items: Seq<BlockItemModel>,
    pub pending: Option<PendingModel>,
    pub body: Seq<char>,
}

pub open spec fn block_scan_init() -> BlockScanState {
    BlockScanState { items: Seq::<BlockItemModel>::empty(), pending: None, body: Seq::<char>::empty() }
}

/// One line of the block scan. A line not starting with the marker is
/// body text when a directive is open, else a passthrough line. A line
/// that both starts and ends with the marker and is longer than a bare
/// marker pair opens a directive and closes it at once (the single-line
/// shorthand, whose body is empty). Any other marker line closes the
/// open directive, or opens one when none is open. Positions are the
/// 1-based line number and the 1-based column after leading whitespace.
///
/// A directive's recorded span is the exact source region its body
/// occupies: the first and last body lines. When there is no body line
/// (the single-line shorthand, or an empty two-line body whose content
/// is loaded from a file), the span degenerates to the directive's own
/// marker lines.
pub open spec fn block_step(st: BlockScanState, raw: Seq<char>, lineno: int) -> BlockScanState {
    let line = trim_spec(raw);
    let loco = LiCo {
        lineno: lineno as usize,
        column: (count_leading_ws(raw) + 1) as usize,
    };
    if !starts_with(line, "$$"@) {
        match st.pending {
            Some(p) => BlockScanState {
                items: st.items,
                pending: Some(
                    PendingModel {
                        opened: p.opened,
                        param: p.param,
                        body_span: (match p.body_span {
                            None => Some((loco, loco)),
                            Some(sp) => Some((sp.0, loco)),
                        }),
                    },
                ),
                body: st.body + line + "\n"@,
            },
            None => BlockScanState {
                items: st.items.push(BlockItemModel::Pass { line }),
                pending: st.pending,
                body: st.body,
            },
        }
    } else {
        let opened = ends_with(line, "$$"@) && line.len() > 3;
        let pend = if opened {
            Some(PendingModel { opened: loco, param: line, body_span: None })
        } else {
            st.pending
        };
        let bd = if opened {
            Seq::<char>::empty()
        } else {
            st.body
        };
        match pend {
            Some(pl) => {
                let span = match pl.body_span {
                    Some(sp) => sp,
                    None => (pl.opened, loco),
                };
                BlockScanState {
                    items: st.items.push(
                        BlockItemModel::Dir {
                            d: DirModel {
                                params: parse_params_spec(pl.param),
                                body: bd,
                                start: span.0,
                                end: span.1,
                            },
                        },
                    ),
                    pending: None,
                    body: Seq::<char>::empty(),
                }
            },
            None => BlockScanState {
                items: st.items,
                pending: Some(PendingModel { opened: loco, param: line, body_span: None }),
                body: bd,
            },
        }
    }
}

/// The scanner's state after the first `n` lines, numbered from 1.
pub open spec fn block_scan(lines: Seq<Seq<char>>, n: int) -> BlockScanState
    decreases n,
{
    if n <= 0 {
        block_scan_init()
    } else {
        block_step(block_scan(lines, n - 1), lines[n - 1], n)
    }
}

/// The items the block scanner emits for a whole document. A directive
/// still open at the end of the document is dropped.
pub open spec fn scan_blocks_spec(src: Seq<char>) -> Seq<BlockItemModel> {
    block_scan(lines_spec(src), lines_spec(src).len() as int).items
}

pub proof fn lemma_lines_bounds(s: Seq<char>)
    ensures
        lines_spec(s).len() <= s.len() + 1,
        forall|j: int|
            0 <= j < lines_spec(s).len() ==> (#[trigger] lines_spec(s)[j]).len() <= s.len(),
    decreases s.len(),
{
    crate::strutil::lemma_find_at_bounds(s, '\n', 0);
    if s.len() > 0 {
        let i = crate::strutil::find_at(s, '\n', 0);
        if 0 <= i && i < s.len() {
            lemma_lines_bounds(s.skip(i + 1));
        }
    }
}

/// The model of an open directive held by the scanner loop: the opening
/// position and parameter line, plus the body span gathered so far.
pub open spec fn pending_model(
    p: Option<(LiCo, String)>,
    span: Option<(LiCo, LiCo)>,
) -> Option<PendingModel> {
    match p {
        Some(x) => Some(PendingModel { opened: x.0, param: x.1@, body_span: span }),
        None => None,
    }
}

/// Scan a whole document into passthrough lines and directives.
#[verifier::loop_isolation(false)]
pub fn scan_blocks(source: &str) -> (r: Vec<BlockItem>)
    requires
        source@.len() < usize::MAX,
    ensures
        items_model(r@) == scan_blocks_spec(source@),
{
    proof {
        reveal_strlit("$$");
        lemma_lines_bounds(source@);
    }
    let lines = split_lines(source);
    let ghost lv = lines.deep_view();
    let mut items: Vec<BlockItem> = Vec::new();
    let mut pending: Option<(LiCo, String)> = None;
    let mut span_acc: Option<(LiCo, LiCo)> = None;
    let mut body = String::new();
    let mut i: usize = 0;
    proof {
        assert(items_model(items@) =~= block_scan(lv, 0).items);
    }
    while i < lines.len()
        invariant
            0 <= i <= lines.len(),
            items_model(items@) == block_scan(lv, i as int).items,
            pending_model(pending, span_acc) == block_scan(lv, i as int).pending,
            body@ == block_scan(lv, i as int).body,
        decreases lines.len() - i,
    {
        let ghost st = block_scan(lv, i as int);
        let raw: &str = lines[i].as_str();
        proof {
            assert(raw@ == lv[i as int]);
            assert(raw@.len() <= source@.len());
        }
        let lw = leading_ws_count(raw);
        let line: &str = trim(raw);
        let loco = LiCo { lineno: i + 1, column: lw + 1 };
        if !str_starts_with(line, "$$") {
            if pending.is_some() {
                body.append(line);
                body.append("\n");
                span_acc = match span_acc {
                    None => Some((loco, loco)),
                    Some(sp) => Some((sp.0, loco)),
                };
            } else {
                items.push(BlockItem::Pass { line: line.to_owned() });
                proof {
                    assert(items_model(items@) =~= st.items.push(
                        BlockItemModel::Pass { line: line@ },
                    ));
                }
            }
        } else {
            let single = str_ends_with(line, "$$") && line.unicode_len() > 3;
            if single {
                pending = Some((loco, line.to_owned()));
                span_acc = None;
                body = String::new();
            }
            let cur = pending;
            pending = None;
            let cur_span = span_acc;
            span_acc = None;
            match cur {
                Some(opener) => {
                    let opened_at: LiCo = opener.0;
                    let param: String = opener.1;
                    let span: (LiCo, LiCo) = match cur_span {
                        Some(sp) => sp,
                        None => (opened_at, loco),
                    };
                    let raw_parts = splitn3(param.as_str());
                    let mut params: Vec<String> = Vec::new();
                    let mut j: usize = 0;
                    while j < raw_parts.len()
                        invariant
                            0 <= j <= raw_parts.len(),
                            params.len() == j,
                            forall|k: int|
                                0 <= k < j ==> params.deep_view()[k] == replace_spec(
                                    trim_spec(splitn3_spec(param@)[k]),
                                    "$$"@,
                                    ""@,
                                ),
                        decreases raw_parts.len() - j,
                    {
                        let part = str_replace(trim(raw_parts[j].as_str()), "$$", "");
                        proof {
                            assert(raw_parts[j as int]@ == raw_parts.deep_view()[j as int]);
                            assert(raw_parts[j as int]@ == splitn3_spec(param@)[j as int]);
                        }
                        let ghost pv = params@;
                        let ghost pdv = params.deep_view();
                        params.push(part);
                        proof {
                            assert forall|k: int| 0 <= k <= j implies params.deep_view()[k]
                                == replace_spec(
                                trim_spec(splitn3_spec(param@)[k]),
                                "$$"@,
                                ""@,
                            ) by {
                                assert(params.deep_view()[k] == params@[k].deep_view());
                                if k < j {
                                    assert(params@[k] == pv[k]);
                                    assert(pdv[k] == pv[k].deep_view());
                                } else {
                                    assert(params@[k] == part);
                                }
                            }
                        }
                        j = j + 1;
                    }
                    proof {
                        assert forall|k: int|
                            0 <= k < params.deep_view().len() implies params.deep_view()[k]
                            == parse_params_spec(param@)[k] by {
                            assert(parse_params_spec(param@)[k] == replace_spec(
                                trim_spec(splitn3_spec(param@)[k]),
                                "$$"@,
                                ""@,
                            ));
                        }
                        assert(params.deep_view() =~= parse_params_spec(param@));
                    }
                    let done_body = body;
                    body = String::new();
                    items.push(
                        BlockItem::Dir {
                            dir: BlockDirective {
                                params,
                                body: done_body,
                                start: span.0,
                                end: span.1,
                            },
                        },
                    );
                    proof {
                        assert(items_model(items@) =~= block_scan(lv, i + 1).items);
                    }
                },
                None => {
                    pending = Some((loco, line.to_owned()));
                },
            }
        }
        proof {
            assert(block_scan(lv, i + 1) == block_step(st, lv[i as int], i + 1));
        }
        i = i + 1;
    }
    proof {
        assert(lv.len() == lines_spec(source@).len());
    }
    items
}

/// How a directive's body was resolved before rendering: the body as
/// scanned, or loaded from the external fragment file when the scanned
/// body was empty; `Missing` when that file does not exist, which skips
/// the directive with a warning. The intermediate form is what the plot
/// backend read back, if any.
#[derive(Debug, Clone)]
pub enum DirResolution {
    Missing,
    Rendered { body: String, intermediate: Option<String> },
}

/// Mathematical model of a resolution.
pub enum DirResolutionModel {
    Missing,
    Rendered { body: Seq<char>, intermediate: Option<Seq<char>> },
}

impl DirResolution {
    pub open spec fn model(self) -> DirResolutionModel {
        match self {
            DirResolution::Missing => DirResolutionModel::Missing,
            DirResolution::Rendered { body, intermediate } => DirResolutionModel::Rendered {
                body: body@,
                intermediate: match intermediate {
                    Some(i) => Some(i@),
                    None => None,
                },
            },
        }
    }
}

/// The models of a sequence of resolutions.
pub open spec fn res_model(rs: Seq<DirResolution>) -> Seq<DirResolutionModel> {
    rs.map_values(|r: DirResolution| r.model())
}

/// Whether the parameters select a captioned figure: exactly a named
/// rendering kind, a reference key and a title.
pub open spec fn is_figure_params(params: Seq<Seq<char>>) -> bool {
    params.len() == 3 && (params[0] == "latex"@ || params[0] == "gnuplot"@ || params[0]
        == "gnuplotonly"@)
}

/// The reference key of a numbered equation directive; empty for every
/// other shape, which renders as an unnumbered equation.
pub open spec fn numbered_refer(params: Seq<Seq<char>>) -> Seq<char> {
    if params.len() == 2 && (params[0] == "equation"@ || params[0] == "equ"@) {
        params[1]
    } else {
        Seq::<char>::empty()
    }
}

/// The assembly pass's state: output lines so far, the per-document
/// figure and equation counters, the reference table, the used-artifact
/// list, the names of fragment files found missing, and how many
/// resolutions have been consumed.
pub struct BlockOutState {
    pub outputs: Seq<Seq<char>>,
    pub figs: int,
    pub equs: int,
    pub refs: Map<Seq<char>, Seq<char>>,
    pub used: Seq<Seq<char>>,
    pub warnings: Seq<Seq<char>>,
    pub ri: int,
}

/// The assembly pass's starting state over a given reference table and
/// used-artifact list: counters at zero, nothing emitted.
pub open spec fn assemble_init(
    used0: Seq<Seq<char>>,
    refs0: Map<Seq<char>, Seq<char>>,
) -> BlockOutState {
    BlockOutState {
        outputs: Seq::<Seq<char>>::empty(),
        figs: 0,
        equs: 0,
        refs: refs0,
        used: used0,
        warnings: Seq::<Seq<char>>::empty(),
        ri: 0,
    }
}

/// One item of the assembly pass. A passthrough line is emitted as is.
/// A directive consumes its resolution: a missing fragment file only
/// records a warning; otherwise the artifact name is the body's content
/// hash, the artifact is recorded as used, and the directive becomes a
/// captioned figure, a numbered equation block (each registering its
/// reference label), or an unnumbered equation block.
pub open spec fn assemble_step(
    st: BlockOutState,
    item: BlockItemModel,
    res: Seq<DirResolutionModel>,
    head: Seq<char>,
    renderer: SupportedRenderer,
) -> BlockOutState {
    match item {
        BlockItemModel::Pass { line } => BlockOutState {
            outputs: st.outputs.push(line),
            figs: st.figs,
            equs: st.equs,
            refs: st.refs,
            used: st.used,
            warnings: st.warnings,
            ri: st.ri,
        },
        BlockItemModel::Dir { d } => match res[st.ri] {
            DirResolutionModel::Missing => BlockOutState {
                outputs: st.outputs,
                figs: st.figs,
                equs: st.equs,
                refs: st.refs,
                used: st.used,
                warnings: st.warnings.push(
                    if d.params.len() >= 2 {
                        d.params[1]
                    } else {
                        Seq::<char>::empty()
                    },
                ),
                ri: st.ri + 1,
            },
            DirResolutionModel::Rendered { body, intermediate } => {
                let svg = hash_id(body) + ".svg"@;
                let inter = match intermediate {
                    Some(i) => i,
                    None => body,
                };
                if is_figure_params(d.params) {
                    BlockOutState {
                        outputs: st.outputs.push(
                            spec_format_figure(
                                svg,
                                inter,
                                d.params[1],
                                head,
                                st.figs + 1,
                                d.params[2],
                                renderer,
                            ),
                        ),
                        figs: st.figs + 1,
                        equs: st.equs,
                        refs: st.refs.insert(d.params[1], spec_figure_label(head, st.figs + 1)),
                        used: st.used.push(svg),
                        warnings: st.warnings,
                        ri: st.ri + 1,
                    }
                } else if numbered_refer(d.params).len() > 0 {
                    BlockOutState {
                        outputs: st.outputs.push(
                            spec_format_equation_block(
                                svg,
                                inter,
                                numbered_refer(d.params),
                                head,
                                st.equs + 1,
                                renderer,
                            ),
                        ),
                        figs: st.figs,
                        equs: st.equs + 1,
                        refs: st.refs.insert(
                            numbered_refer(d.params),
                            spec_equation_label(head, st.equs + 1),
                        ),
                        used: st.used.push(svg),
                        warnings: st.warnings,
                        ri: st.ri + 1,
                    }
                } else {
                    BlockOutState {
                        outputs: st.outputs.push(spec_format_equation(svg, inter, renderer)),
                        figs: st.figs,
                        equs: st.equs,
                        refs: st.refs,
                        used: st.used.push(svg),
                        warnings: st.warnings,
                        ri: st.ri + 1,
                    }
                }
            },
        },
    }
}

/// The assembly state after the first `n` items.
pub open spec fn assemble_fold(
    items: Seq<BlockItemModel>,
    res: Seq<DirResolutionModel>,
    head: Seq<char>,
    renderer: SupportedRenderer,
    init: BlockOutState,
    n: int,
) -> BlockOutState
    decreases n,
{
    if n <= 0 {
        init
    } else {
        assemble_step(assemble_fold(items, res, head, renderer, init, n - 1), items[n - 1], res, head, renderer)
    }
}

/// How many of the items are directives.
pub open spec fn dir_count(items: Seq<BlockItemModel>) -> int
    decreases items.len(),
{
    if items.len() == 0 {
        0
    } else {
        (if items[0] is Dir {
            1int
        } else {
            0int
        }) + dir_count(items.drop_first())
    }
}

proof fn lemma_dir_count_push(items: Seq<BlockItemModel>, x: BlockItemModel)
    ensures
        dir_count(items.push(x)) == dir_count(items) + (if x is Dir {
            1int
        } else {
            0int
        }),
    decreases items.len(),
{
    let p = items.push(x);
    if items.len() == 0 {
        assert(p[0] == x);
        assert(p.drop_first() =~= Seq::<BlockItemModel>::empty());
        assert(dir_count(Seq::<BlockItemModel>::empty()) == 0);
    } else {
        assert(p[0] == items[0]);
        assert(p.drop_first() =~= items.drop_first().push(x));
        lemma_dir_count_push(items.drop_first(), x);
    }
}

proof fn lemma_dir_count_nonneg(items: Seq<BlockItemModel>)
    ensures
        0 <= dir_count(items) <= items.len(),
    decreases items.len(),
{
    if items.len() > 0 {
        lemma_dir_count_nonneg(items.drop_first());
    }
}

proof fn lemma_dir_count_take_step(items: Seq<BlockItemModel>, i: int)
    requires
        0 <= i < items.len(),
    ensures
        dir_count(items.take(i + 1)) == dir_count(items.take(i)) + (if items[i] is Dir {
            1int
        } else {
            0int
        }),
{
    assert(items.take(i + 1) =~= items.take(i).push(items[i]));
    lemma_dir_count_push(items.take(i), items[i]);
}

proof fn lemma_dir_count_take_mono(items: Seq<BlockItemModel>, a: int, b: int)
    requires
        0 <= a <= b <= items.len(),
    ensures
        dir_count(items.take(a)) <= dir_count(items.take(b)),
    decreases b - a,
{
    if a < b {
        lemma_dir_count_take_mono(items, a + 1, b);
        lemma_dir_count_take_step(items, a);
    }
}

proof fn lemma_fold_ri(
    items: Seq<BlockItemModel>,
    res: Seq<DirResolutionModel>,
    head: Seq<char>,
    renderer: SupportedRenderer,
    init: BlockOutState,
    n: int,
)
    requires
        0 <= n <= items.len(),
    ensures
        assemble_fold(items, res, head, renderer, init, n).ri == init.ri + dir_count(
            items.take(n),
        ),
    decreases n,
{
    if n == 0 {
        assert(items.take(0) =~= Seq::<BlockItemModel>::empty());
    } else {
        lemma_fold_ri(items, res, head, renderer, init, n - 1);
        lemma_dir_count_take_step(items, n - 1);
    }
}

/// Assemble the scanned items of one document into its output text,
/// using the resolved body of each directive in order. Mutates the
/// reference table and the used-artifact list exactly as the fold over
/// the items says; returns the document text (lines joined with
/// newlines) and the names of fragment files found missing, for the
/// caller to warn about.
#[verifier::loop_isolation(false)]
pub fn replace_blocks(
    items: &Vec<BlockItem>,
    resolutions: &Vec<DirResolution>,
    head_num: &str,
    renderer: SupportedRenderer,
    used_fragments: &mut Vec<String>,
    references: &mut RefTable,
) -> (r: (String, Vec<String>))
    requires
        resolutions@.len() == dir_count(items_model(items@)),
    ensures
        ({
            let fin = assemble_fold(
                items_model(items@),
                res_model(resolutions@),
                head_num@,
                renderer,
                assemble_init(old(used_fragments).deep_view(), old(references)@),
                items@.len() as int,
            );
            r.0@ == join_nl(fin.outputs) && r.1.deep_view() == fin.warnings
                && final(used_fragments).deep_view() == fin.used
                && final(references)@ == fin.refs
        }),
{
    let ghost im = items_model(items@);
    let ghost rm = res_model(resolutions@);
    let ghost init = assemble_init(used_fragments.deep_view(), references@);
    let rn: usize = resolutions.len();
    let mut out_lines: Vec<String> = Vec::new();
    let mut warnings: Vec<String> = Vec::new();
    let mut figs: usize = 0;
    let mut equs: usize = 0;
    let mut ri: usize = 0;
    let mut i: usize = 0;
    proof {
        assert(out_lines.deep_view() =~= Seq::<Seq<char>>::empty());
        assert(warnings.deep_view() =~= Seq::<Seq<char>>::empty());
    }
    while i < items.len()
        invariant
            0 <= i <= items.len(),
            figs <= i,
            equs <= i,
            0 <= ri,
            ri as int == assemble_fold(im, rm, head_num@, renderer, init, i as int).ri,
            out_lines.deep_view() == assemble_fold(im, rm, head_num@, renderer, init, i as int).outputs,
            warnings.deep_view() == assemble_fold(im, rm, head_num@, renderer, init, i as int).warnings,
            figs as int == assemble_fold(im, rm, head_num@, renderer, init, i as int).figs,
            equs as int == assemble_fold(im, rm, head_num@, renderer, init, i as int).equs,
            used_fragments.deep_view() == assemble_fold(im, rm, head_num@, renderer, init, i as int).used,
            references@ == assemble_fold(im, rm, head_num@, renderer, init, i as int).refs,
        decreases items.len() - i,
    {
        let ghost st = assemble_fold(im, rm, head_num@, renderer, init, i as int);
        proof {
            assert(im[i as int] == items@[i as int].model());
            lemma_fold_ri(im, rm, head_num@, renderer, init, i as int);
        }
        match &items[i] {
            BlockItem::Pass { line } => {
                let ghost pre = out_lines.deep_view();
                out_lines.push(line.clone());
                proof {
                    assert(out_lines.deep_view() =~= pre.push(line@));
                }
            },
            BlockItem::Dir { dir } => {
                proof {
                    lemma_fold_ri(im, rm, head_num@, renderer, init, items@.len() as int);
                    lemma_dir_count_take_step(im, i as int);
                    lemma_dir_count_take_mono(im, i + 1, im.len() as int);
                    assert(im.take(im.len() as int) =~= im);
                    assert(ri < rn);
                    assert(rm[ri as int] == resolutions@[ri as int].model());
                }
                match &resolutions[ri] {
                    DirResolution::Missing => {
                        let name = if dir.params.len() >= 2 {
                            dir.params[1].clone()
                        } else {
                            String::new()
                        };
                        let ghost pre = warnings.deep_view();
                        warnings.push(name);
                        proof {
                            if dir.params.len() >= 2 {
                                assert(dir.params@[1].deep_view() == dir.params.deep_view()[1]);
                                assert(warnings.deep_view() =~= pre.push(dir.params.deep_view()[1]));
                            } else {
                                assert(warnings.deep_view() =~= pre.push(Seq::<char>::empty()));
                            }
                        }
                        ri = ri + 1;
                    },
                    DirResolution::Rendered { body, intermediate } => {
                        let svg = with_ext(hash(body.as_str()).as_str(), ".svg");
                        let ghost pre_used = used_fragments.deep_view();
                        used_fragments.push(svg.clone());
                        proof {
                            assert(used_fragments.deep_view() =~= pre_used.push(
                                hash_id(body@) + ".svg"@,
                            ));
                        }
                        let inter_copy: Option<String> = match intermediate {
                            Some(s) => Some(s.clone()),
                            None => None,
                        };
                        let replacement = Replacement {
                            content: Content { s: body.clone(), start: dir.start, end: dir.end },
                            intermediate: inter_copy,
                            svg,
                        };
                        let is_fig = dir.params.len() == 3 && (str_eq_str(
                            dir.params[0].as_str(),
                            "latex",
                        ) || str_eq_str(dir.params[0].as_str(), "gnuplot") || str_eq_str(
                            dir.params[0].as_str(),
                            "gnuplotonly",
                        ));
                        proof {
                            assert(dir.params.deep_view().len() == dir.params@.len());
                            if dir.params@.len() >= 3 {
                                assert(dir.params@[0].deep_view() == dir.params.deep_view()[0]);
                                assert(dir.params@[1].deep_view() == dir.params.deep_view()[1]);
                                assert(dir.params@[2].deep_view() == dir.params.deep_view()[2]);
                            } else if dir.params@.len() == 2 {
                                assert(dir.params@[0].deep_view() == dir.params.deep_view()[0]);
                                assert(dir.params@[1].deep_view() == dir.params.deep_view()[1]);
                            }
                            assert(is_fig == is_figure_params(dir.params.deep_view()));
                        }
                        if is_fig {
                            figs = figs + 1;
                            references.insert(dir.params[1].clone(), figure_label(head_num, figs));
                            let ghost pre = out_lines.deep_view();
                            out_lines.push(
                                format_figure(
                                    &replacement,
                                    dir.params[1].as_str(),
                                    head_num,
                                    figs,
                                    dir.params[2].as_str(),
                                    renderer,
                                ),
                            );
                            proof {
                                assert(out_lines.deep_view() =~= pre.push(
                                    spec_format_figure(
                                        hash_id(body@) + ".svg"@,
                                        match rm[ri as int]->Rendered_intermediate {
                                            Some(x) => x,
                                            None => body@,
                                        },
                                        dir.params.deep_view()[1],
                                        head_num@,
                                        figs as int,
                                        dir.params.deep_view()[2],
                                        renderer,
                                    ),
                                ));
                            }
                        } else {
                            let numbered = dir.params.len() == 2 && (str_eq_str(
                                dir.params[0].as_str(),
                                "equation",
                            ) || str_eq_str(dir.params[0].as_str(), "equ")) && dir.params[1].as_str().unicode_len() > 0;
                            proof {
                                assert(numbered == (numbered_refer(dir.params.deep_view()).len()
                                    > 0));
                            }
                            if numbered {
                                equs = equs + 1;
                                references.insert(
                                    dir.params[1].clone(),
                                    equation_label(head_num, equs),
                                );
                                let ghost pre = out_lines.deep_view();
                                out_lines.push(
                                    format_equation_block(
                                        &replacement,
                                        dir.params[1].as_str(),
                                        head_num,
                                        equs,
                                        renderer,
                                    ),
                                );
                                proof {
                                    assert(out_lines.deep_view() =~= pre.push(
                                        spec_format_equation_block(
                                            hash_id(body@) + ".svg"@,
                                            match rm[ri as int]->Rendered_intermediate {
                                                Some(x) => x,
                                                None => body@,
                                            },
                                            dir.params.deep_view()[1],
                                            head_num@,
                                            equs as int,
                                            renderer,
                                        ),
                                    ));
                                }
                            } else {
                                let ghost pre = out_lines.deep_view();
                                out_lines.push(format_equation(&replacement, renderer));
                                proof {
                                    assert(out_lines.deep_view() =~= pre.push(
                                        spec_format_equation(
                                            hash_id(body@) + ".svg"@,
                                            match rm[ri as int]->Rendered_intermediate {
                                                Some(x) => x,
                                                None => body@,
                                            },
                                            renderer,
                                        ),
                                    ));
                                }
                            }
                        }
                        ri = ri + 1;
                    },
                }
            },
        }
        proof {
            assert(assemble_fold(im, rm, head_num@, renderer, init, i + 1) == assemble_step(
                st,
                im[i as int],
                rm,
                head_num@,
                renderer,
            ));
        }
        i = i + 1;
    }
    proof {
        assert(im.len() == items@.len());
    }
    (join_lines(&out_lines), warnings)
}

} // verus!
