//! The inline span scanner: walks each line of an already block-processed
//! document, skips fenced and raw code regions, partitions scannable
//! lines at unescaped `$` markers outside inline code, and substitutes
//! each odd segment as a reference link or an inline equation.
//!
//! A line with an odd number of markers follows the permissive policy:
//! the open span is closed at end of line. This is the one deliberately
//! flexible point of the scanner's grammar; the strict alternative would
//! reject the line instead.

use vstd::prelude::*;

use crate::errors::Error;
use crate::format::spec_format_inline_equation;
use crate::fragments::{hash, hash_id, with_ext};
use crate::reftable::RefTable;
use crate::types::{Content, LiCo, Replacement, SupportedRenderer};
use crate::strutil::{
    concat_strings, concat_texts, join_lines, join_nl, lines_spec, split_char, split_char_exec,
    split_lines, starts_with, str_starts_with,
};

verus! {

/// One segment of a scannable line: literal text between markers, a
/// reference expression (the colon-separated parts after the `ref:`
/// prefix), or inline math content. `start` is the 1-based column of
/// the segment's first character; `end` is the 1-based column of its
/// last character (less than `start` for an empty segment).
#[derive(Debug, Clone)]
pub enum InlineSeg {
    Lit { text: String },
    RefParts { parts: Vec<String>, start: usize, end: usize },
    Math { text: String, start: usize, end: usize },
}

/// One line of the scanned document: passed through verbatim (marker
/// lines of code regions and every line inside one), or partitioned into
/// segments.
#[derive(Debug, Clone)]
pub enum InlineLine {
    Verbatim { line: String },
    Segs { segs: Vec<InlineSeg> },
}

/// Mathematical model of a segment.
pub enum SegModel {
    Lit { text: Seq<char> },
    RefParts { parts: Seq<Seq<char>> },
    Math { text: Seq<char> },
}

/// Mathematical model of a scanned line.
pub enum LineModel {
    Verbatim { line: Seq<char> },
    Segs { segs: Seq<SegModel> },
}

impl InlineSeg {
    pub open spec fn model(self) -> SegModel {
        match self {
            InlineSeg::Lit { text } => SegModel::Lit { text: text@ },
            InlineSeg::RefParts { parts, start, end } => SegModel::RefParts {
                parts: parts.deep_view(),
            },
            InlineSeg::Math { text, start, end } => SegModel::Math { text: text@ },
        }
    }
}

impl InlineLine {
    pub open spec fn model(self) -> LineModel {
        match self {
            InlineLine::Verbatim { line } => LineModel::Verbatim { line: line@ },
            InlineLine::Segs { segs } => LineModel::Segs {
                segs: segs@.map_values(|s: InlineSeg| s.model()),
            },
        }
    }
}

/// The models of the scanned lines.
pub open spec fn lines_model(lines: Seq<InlineLine>) -> Seq<LineModel> {
    lines.map_values(|l: InlineLine| l.model())
}

/// The character positions of every `$` that stands outside inline code,
/// scanning from `i` with backtick state `in_tick`; a backtick toggles
/// the state even inside an open math span.
pub open spec fn dollar_indices(line: Seq<char>, i: int, in_tick: bool) -> Seq<int>
    decreases line.len() - i when i <= line.len()
{
    if i >= line.len() {
        Seq::<int>::empty()
    } else if line[i] == '$' && !in_tick {
        seq![i] + dollar_indices(line, i + 1, in_tick)
    } else {
        dollar_indices(line, i + 1, (in_tick != (line[i] == '`')))
    }
}

/// The segment boundaries of a line: a sentinel before the first
/// character, every marker position, and the position after the last
/// character.
pub open spec fn seg_bounds(line: Seq<char>) -> Seq<int> {
    seq![-1int] + dollar_indices(line, 0, false) + seq![line.len() as int]
}

/// What an odd segment's text means: a reference expression when it
/// starts with the reserved prefix, else inline math.
pub open spec fn classify_expr(text: Seq<char>) -> SegModel {
    if starts_with(text, "ref:"@) {
        SegModel::RefParts { parts: split_char(text, ':').drop_first() }
    } else {
        SegModel::Math { text }
    }
}

/// The `w`-th segment of a line with boundaries `v`: the text between
/// the boundaries (markers excluded), literal at even positions.
pub open spec fn seg_at(line: Seq<char>, v: Seq<int>, w: int) -> SegModel {
    let lo = if v[w] + 1 <= v[w + 1] {
        v[w] + 1
    } else {
        v[w + 1]
    };
    let text = line.subrange(lo, v[w + 1]);
    if w % 2 == 0 {
        SegModel::Lit { text }
    } else {
        classify_expr(text)
    }
}

/// All segments of a scannable line.
pub open spec fn segs_of_line(line: Seq<char>) -> Seq<SegModel> {
    let v = seg_bounds(line);
    Seq::new((v.len() - 1) as nat, |w: int| seg_at(line, v, w))
}

/// One line of the inline scan: fence and raw-tag lines toggle or set
/// the code-region state and pass through verbatim, as does every line
/// inside a code region; other lines are partitioned into segments.
pub open spec fn inline_line_step(in_code: bool, line: Seq<char>) -> (bool, LineModel) {
    if starts_with(line, "```"@) {
        (!in_code, LineModel::Verbatim { line })
    } else if starts_with(line, "<pre"@) {
        (true, LineModel::Verbatim { line })
    } else if starts_with(line, "</pre>"@) {
        (false, LineModel::Verbatim { line })
    } else if in_code {
        (in_code, LineModel::Verbatim { line })
    } else {
        (in_code, LineModel::Segs { segs: segs_of_line(line) })
    }
}

/// The scanner's code-region state and emitted lines after `n` lines.
pub open spec fn inline_scan_fold(lines: Seq<Seq<char>>, n: int) -> (bool, Seq<LineModel>)
    decreases n,
{
    if n <= 0 {
        (false, Seq::<LineModel>::empty())
    } else {
        let p = inline_scan_fold(lines, n - 1);
        let s = inline_line_step(p.0, lines[n - 1]);
        (s.0, p.1.push(s.1))
    }
}

/// The scanned lines of a whole document.
pub open spec fn scan_inline_spec(src: Seq<char>) -> Seq<LineModel> {
    inline_scan_fold(lines_spec(src), lines_spec(src).len() as int).1
}

proof fn lemma_dollar_indices_bounds(line: Seq<char>, i: int, in_tick: bool)
    requires
        0 <= i <= line.len(),
    ensures
        forall|k: int|
            0 <= k < dollar_indices(line, i, in_tick).len() ==> i <= #[trigger] dollar_indices(
                line,
                i,
                in_tick,
            )[k] < line.len(),
    decreases line.len() - i,
{
    if i < line.len() {
        if line[i] == '$' && !in_tick {
            lemma_dollar_indices_bounds(line, i + 1, in_tick);
            let rest = dollar_indices(line, i + 1, in_tick);
            assert(dollar_indices(line, i, in_tick) == seq![i] + rest);
            assert forall|k: int|
                0 <= k < dollar_indices(line, i, in_tick).len() implies i <= #[trigger] dollar_indices(
                line,
                i,
                in_tick,
            )[k] < line.len() by {
                if k == 0 {
                    assert(dollar_indices(line, i, in_tick)[0] == i);
                } else {
                    assert(0 <= k - 1 < rest.len());
                    assert(dollar_indices(line, i, in_tick)[k] == rest[k - 1]);
                    assert(i + 1 <= rest[k - 1] < line.len());
                }
            }
        } else {
            lemma_dollar_indices_bounds(line, i + 1, (in_tick != (line[i] == '`')));
            assert forall|k: int|
                0 <= k < dollar_indices(line, i, in_tick).len() implies i <= #[trigger] dollar_indices(
                line,
                i,
                in_tick,
            )[k] < line.len() by {
                assert(dollar_indices(line, i, in_tick)[k] == dollar_indices(
                    line,
                    i + 1,
                    (in_tick != (line[i] == '`')),
                )[k]);
            }
        }
    }
}

/// Scan a whole document into verbatim lines and segment lists.
#[verifier::loop_isolation(false)]
pub fn scan_inline(source: &str) -> (r: Vec<InlineLine>)
    requires
        source@.len() < usize::MAX,
    ensures
        lines_model(r@) == scan_inline_spec(source@),
{
    proof {
        reveal_strlit("```");
        reveal_strlit("<pre");
        reveal_strlit("</pre>");
        reveal_strlit("ref:");
        crate::block::lemma_lines_bounds(source@);
    }
    let lines = split_lines(source);
    let ghost lv = lines.deep_view();
    let mut out: Vec<InlineLine> = Vec::new();
    let mut in_code: bool = false;
    let mut i: usize = 0;
    proof {
        assert(lines_model(out@) =~= Seq::<LineModel>::empty());
    }
    while i < lines.len()
        invariant
            0 <= i <= lines.len(),
            lines_model(out@) == inline_scan_fold(lv, i as int).1,
            in_code == inline_scan_fold(lv, i as int).0,
        decreases lines.len() - i,
    {
        let ghost st = inline_scan_fold(lv, i as int);
        let line: &str = lines[i].as_str();
        proof {
            assert(line@ == lv[i as int]);
            assert(line@.len() <= source@.len());
        }
        let ghost pre = lines_model(out@);
        if str_starts_with(line, "```") {
            in_code = !in_code;
            out.push(InlineLine::Verbatim { line: line.to_owned() });
            proof {
                assert(lines_model(out@) =~= pre.push(LineModel::Verbatim { line: line@ }));
            }
        } else if str_starts_with(line, "<pre") {
            in_code = true;
            out.push(InlineLine::Verbatim { line: line.to_owned() });
            proof {
                assert(lines_model(out@) =~= pre.push(LineModel::Verbatim { line: line@ }));
            }
        } else if str_starts_with(line, "</pre>") {
            in_code = false;
            out.push(InlineLine::Verbatim { line: line.to_owned() });
            proof {
                assert(lines_model(out@) =~= pre.push(LineModel::Verbatim { line: line@ }));
            }
        } else if in_code {
            out.push(InlineLine::Verbatim { line: line.to_owned() });
            proof {
                assert(lines_model(out@) =~= pre.push(LineModel::Verbatim { line: line@ }));
            }
        } else {
            let segs = scan_line_segments(line);
            out.push(InlineLine::Segs { segs });
            proof {
                assert(lines_model(out@) =~= pre.push(
                    LineModel::Segs { segs: segs_of_line(line@) },
                ));
            }
        }
        proof {
            assert(inline_scan_fold(lv, i + 1) == (
                inline_line_step(st.0, lv[i as int]).0,
                st.1.push(inline_line_step(st.0, lv[i as int]).1),
            ));
        }
        i = i + 1;
    }
    proof {
        assert(lv.len() == lines_spec(source@).len());
    }
    out
}

/// The mapped integer positions of collected marker indices.
pub open spec fn idxs(v: Seq<usize>) -> Seq<int> {
    v.map_values(|x: usize| x as int)
}

/// Partition one scannable line into its segments.
#[verifier::loop_isolation(false)]
fn scan_line_segments(line: &str) -> (r: Vec<InlineSeg>)
    requires
        line@.len() < usize::MAX,
    ensures
        r@.map_values(|s: InlineSeg| s.model()) == segs_of_line(line@),
{
    proof {
        reveal_strlit("ref:");
    }
    let n: usize = line.unicode_len();
    // collect the marker positions outside inline code
    let mut ds: Vec<usize> = Vec::new();
    let mut in_tick: bool = false;
    let mut j: usize = 0;
    proof {
        assert(idxs(ds@) =~= Seq::<int>::empty());
        assert(idxs(ds@) + dollar_indices(line@, 0, false) =~= dollar_indices(line@, 0, false));
    }
    while j < n
        invariant
            0 <= j <= n,
            idxs(ds@) + dollar_indices(line@, j as int, in_tick) == dollar_indices(
                line@,
                0,
                false,
            ),
        decreases n - j,
    {
        let c = line.get_char(j);
        if c == '$' && !in_tick {
            let ghost dpre = idxs(ds@);
            ds.push(j);
            proof {
                assert(idxs(ds@) =~= dpre.push(j as int));
                assert(dollar_indices(line@, j as int, in_tick) == seq![j as int]
                    + dollar_indices(line@, j + 1, in_tick));
                assert(idxs(ds@) + dollar_indices(line@, j + 1, in_tick) =~= dpre + (seq![
                    j as int,
                ] + dollar_indices(line@, j + 1, in_tick)));
            }
        } else {
            let ghost t0 = in_tick;
            if c == '`' {
                in_tick = !in_tick;
            }
            proof {
                assert(in_tick == (t0 != (line@[j as int] == '`')));
                assert(dollar_indices(line@, j as int, t0) == dollar_indices(
                    line@,
                    j + 1,
                    in_tick,
                ));
            }
        }
        j = j + 1;
    }
    proof {
        assert(dollar_indices(line@, n as int, in_tick) =~= Seq::<int>::empty());
        assert(idxs(ds@) + Seq::<int>::empty() =~= idxs(ds@));
        assert(idxs(ds@) == dollar_indices(line@, 0, false));
        lemma_dollar_indices_bounds(line@, 0, false);
    }
    // boundaries: the markers and the end of the line
    let mut bounds: Vec<usize> = ds;
    bounds.push(n);
    let ghost v = seg_bounds(line@);
    proof {
        assert(v.len() == bounds@.len() + 1);
        assert(v[0] == -1);
        assert forall|w: int| 1 <= w < v.len() implies v[w] == bounds@[w - 1] as int by {
            if w < v.len() - 1 {
                assert(v[w] == dollar_indices(line@, 0, false)[w - 1]);
                assert(idxs(ds@)[w - 1] == ds@[w - 1] as int);
            }
        }
        assert forall|w: int| 0 <= w < bounds@.len() implies bounds@[w] as int <= n by {
            if w < bounds@.len() - 1 {
                assert(dollar_indices(line@, 0, false)[w] < line@.len());
            }
        }
    }
    // cut the line at the boundaries
    let mut segs: Vec<InlineSeg> = Vec::new();
    let mut w: usize = 0;
    while w < bounds.len()
        invariant
            0 <= w <= bounds.len(),
            segs.len() == w,
            forall|k: int|
                0 <= k < w ==> segs@.map_values(|s: InlineSeg| s.model())[k] == seg_at(
                    line@,
                    v,
                    k,
                ),
        decreases bounds.len() - w,
    {
        let hi: usize = bounds[w];
        let lo: usize = if w == 0 {
            0
        } else {
            if bounds[w - 1] + 1 <= hi {
                bounds[w - 1] + 1
            } else {
                hi
            }
        };
        proof {
            assert(v[w + 1] == hi as int);
            if w == 0 {
                assert(v[0] + 1 == 0);
                assert(0 <= hi as int);
            } else {
                assert(v[w as int] == bounds@[w - 1] as int);
            }
        }
        let text: &str = line.substring_char(lo, hi);
        let even = w % 2 == 0;
        let ghost expected = seg_at(line@, v, w as int);
        if even {
            segs.push(InlineSeg::Lit { text: text.to_owned() });
        } else {
            if str_starts_with(text, "ref:") {
                let mut parts = split_char_exec(text, ':');
                let ghost allp = parts.deep_view();
                parts.remove(0);
                proof {
                    assert(parts.deep_view() =~= allp.drop_first());
                }
                segs.push(InlineSeg::RefParts { parts, start: lo + 1, end: hi });
            } else {
                segs.push(InlineSeg::Math { text: text.to_owned(), start: lo + 1, end: hi });
            }
        }
        proof {
            assert forall|k: int| 0 <= k < w + 1 implies segs@.map_values(
                |s: InlineSeg| s.model(),
            )[k] == seg_at(line@, v, k) by {
                if k == w {
                    assert(segs@[k] == segs@.last());
                }
            }
        }
        w = w + 1;
    }
    proof {
        assert(segs@.map_values(|s: InlineSeg| s.model()) =~= segs_of_line(line@));
    }
    segs
}

/// Mathematical model of the errors the inline pass can raise.
pub enum InlineErrModel {
    UnknownKind { kind: Seq<char>, lineno: int },
    ArgCount { count: int, lineno: int },
    Invalid { to: Seq<char>, lineno: int },
}

/// Whether an error value carries exactly what the model says.
pub open spec fn err_matches(e: Error, m: InlineErrModel) -> bool {
    match m {
        InlineErrModel::UnknownKind { kind, lineno } => (e matches Error::UnknownReferenceKind {
            kind: k2,
            lineno: l2,
        } && k2@ == kind && l2 as int == lineno),
        InlineErrModel::ArgCount { count, lineno } => (e matches
            Error::UnexpectedReferenceArgCount { count: c2, lineno: l2 } && c2 as int == count
            && l2 as int == lineno),
        InlineErrModel::Invalid { to, lineno } => (e matches Error::InvalidReference {
            to: t2,
            lineno: l2,
        } && t2@ == to && l2 as int == lineno),
    }
}

/// The hyperlink substituted for a figure reference.
pub open spec fn fig_anchor(key: Seq<char>, label: Seq<char>) -> Seq<char> {
    "<a class=\"fig_ref\" href='#"@ + key + "'>"@ + label + "</a>"@
}

/// The hyperlink substituted for a bibliography reference.
pub open spec fn bib_anchor(key: Seq<char>, label: Seq<char>) -> Seq<char> {
    "<a class=\"bib_ref\" href='bibliography.html#"@ + key + "'>"@ + label + "</a>"@
}

/// The hyperlink substituted for an equation reference.
pub open spec fn equ_anchor(key: Seq<char>, label: Seq<char>) -> Seq<char> {
    "<a class=\"equ_ref\" href='#"@ + key + "'>Eq. ("@ + label + ")</a>"@
}

fn build_fig_anchor(key: &str, label: &str) -> (r: String)
    ensures
        r@ == fig_anchor(key@, label@),
{
    let mut out = String::from_str("<a class=\"fig_ref\" href='#");
    out.append(key);
    out.append("'>");
    out.append(label);
    out.append("</a>");
    assert(out@ =~= fig_anchor(key@, label@));
    out
}

fn build_bib_anchor(key: &str, label: &str) -> (r: String)
    ensures
        r@ == bib_anchor(key@, label@),
{
    let mut out = String::from_str("<a class=\"bib_ref\" href='bibliography.html#");
    out.append(key);
    out.append("'>");
    out.append(label);
    out.append("</a>");
    assert(out@ =~= bib_anchor(key@, label@));
    out
}

fn build_equ_anchor(key: &str, label: &str) -> (r: String)
    ensures
        r@ == equ_anchor(key@, label@),
{
    let mut out = String::from_str("<a class=\"equ_ref\" href='#");
    out.append(key);
    out.append("'>Eq. (");
    out.append(label);
    out.append(")</a>");
    assert(out@ =~= equ_anchor(key@, label@));
    out
}

/// What one segment becomes. Literal text passes through. A reference
/// needs exactly a kind and a key; the kind must be `fig`, `bib` or
/// `equ`, and the key must be in the table; the substitute is the
/// kind's anchor showing the recorded label. Math becomes the inline
/// equation markup of its content-addressed artifact.
pub open spec fn seg_result(
    seg: SegModel,
    refs: Map<Seq<char>, Seq<char>>,
    lineno: int,
    renderer: SupportedRenderer,
) -> Result<Seq<char>, InlineErrModel> {
    match seg {
        SegModel::Lit { text } => Ok(text),
        SegModel::Math { text } => Ok(
            spec_format_inline_equation(hash_id(text) + ".svg"@, text, renderer),
        ),
        SegModel::RefParts { parts } => {
            if parts.len() != 2 {
                Err(InlineErrModel::ArgCount { count: parts.len() as int, lineno })
            } else if parts[0] == "fig"@ {
                if refs.contains_key(parts[1]) {
                    Ok(fig_anchor(parts[1], refs[parts[1]]))
                } else {
                    Err(InlineErrModel::Invalid { to: parts[1], lineno })
                }
            } else if parts[0] == "bib"@ {
                if refs.contains_key(parts[1]) {
                    Ok(bib_anchor(parts[1], refs[parts[1]]))
                } else {
                    Err(InlineErrModel::Invalid { to: parts[1], lineno })
                }
            } else if parts[0] == "equ"@ {
                if refs.contains_key(parts[1]) {
                    Ok(equ_anchor(parts[1], refs[parts[1]]))
                } else {
                    Err(InlineErrModel::Invalid { to: parts[1], lineno })
                }
            } else {
                Err(InlineErrModel::UnknownKind { kind: parts[0], lineno })
            }
        },
    }
}

/// The artifact a segment uses: the content-addressed image of a math
/// span, nothing otherwise.
pub open spec fn seg_used(seg: SegModel) -> Seq<Seq<char>> {
    match seg {
        SegModel::Math { text } => seq![hash_id(text) + ".svg"@],
        _ => Seq::<Seq<char>>::empty(),
    }
}

/// The math content a segment asks the renderer backend for.
pub open spec fn seg_math(seg: SegModel) -> Seq<Seq<char>> {
    match seg {
        SegModel::Math { text } => seq![text],
        _ => Seq::<Seq<char>>::empty(),
    }
}

/// The first `n` segments of a line folded: their substitutes, the
/// artifacts they use, and their math contents; the first failing
/// segment's error wins.
pub open spec fn segs_fold(
    segs: Seq<SegModel>,
    refs: Map<Seq<char>, Seq<char>>,
    lineno: int,
    renderer: SupportedRenderer,
    n: int,
) -> Result<(Seq<Seq<char>>, Seq<Seq<char>>, Seq<Seq<char>>), InlineErrModel>
    decreases n,
{
    if n <= 0 {
        Ok((Seq::<Seq<char>>::empty(), Seq::<Seq<char>>::empty(), Seq::<Seq<char>>::empty()))
    } else {
        match segs_fold(segs, refs, lineno, renderer, n - 1) {
            Err(e) => Err(e),
            Ok(acc) => match seg_result(segs[n - 1], refs, lineno, renderer) {
                Err(e) => Err(e),
                Ok(out) => Ok(
                    (
                        acc.0.push(out),
                        acc.1 + seg_used(segs[n - 1]),
                        acc.2 + seg_math(segs[n - 1]),
                    ),
                ),
            },
        }
    }
}

/// What one scanned line becomes: a verbatim line passes through; a
/// partitioned line is its segments' substitutes concatenated back in
/// place, so a substituted span sits exactly where the original span
/// stood.
pub open spec fn line_result(
    lm: LineModel,
    refs: Map<Seq<char>, Seq<char>>,
    lineno: int,
    renderer: SupportedRenderer,
) -> Result<(Seq<char>, Seq<Seq<char>>, Seq<Seq<char>>), InlineErrModel> {
    match lm {
        LineModel::Verbatim { line } => Ok(
            (line, Seq::<Seq<char>>::empty(), Seq::<Seq<char>>::empty()),
        ),
        LineModel::Segs { segs } => match segs_fold(segs, refs, lineno, renderer, segs.len() as int) {
            Err(e) => Err(e),
            Ok(acc) => Ok((concat_texts(acc.0), acc.1, acc.2)),
        },
    }
}

/// The first `n` lines folded, lines numbered from 1.
pub open spec fn inline_out_fold(
    lms: Seq<LineModel>,
    refs: Map<Seq<char>, Seq<char>>,
    renderer: SupportedRenderer,
    n: int,
) -> Result<(Seq<Seq<char>>, Seq<Seq<char>>, Seq<Seq<char>>), InlineErrModel>
    decreases n,
{
    if n <= 0 {
        Ok((Seq::<Seq<char>>::empty(), Seq::<Seq<char>>::empty(), Seq::<Seq<char>>::empty()))
    } else {
        match inline_out_fold(lms, refs, renderer, n - 1) {
            Err(e) => Err(e),
            Ok(acc) => match line_result(lms[n - 1], refs, n, renderer) {
                Err(e) => Err(e),
                Ok(lr) => Ok((acc.0.push(lr.0), acc.1 + lr.1, acc.2 + lr.2)),
            },
        }
    }
}

/// The whole inline pass over scanned lines: the final document text,
/// the artifacts used, and the math contents to render — or the first
/// error in document order.
pub open spec fn replace_inline_spec(
    lms: Seq<LineModel>,
    refs: Map<Seq<char>, Seq<char>>,
    renderer: SupportedRenderer,
) -> Result<(Seq<char>, Seq<Seq<char>>, Seq<Seq<char>>), InlineErrModel> {
    match inline_out_fold(lms, refs, renderer, lms.len() as int) {
        Err(e) => Err(e),
        Ok(acc) => Ok((join_nl(acc.0), acc.1, acc.2)),
    }
}

proof fn lemma_segs_fold_err_persists(
    segs: Seq<SegModel>,
    refs: Map<Seq<char>, Seq<char>>,
    lineno: int,
    renderer: SupportedRenderer,
    a: int,
    b: int,
)
    requires
        0 <= a <= b,
        segs_fold(segs, refs, lineno, renderer, a) is Err,
    ensures
        segs_fold(segs, refs, lineno, renderer, b) == segs_fold(segs, refs, lineno, renderer, a),
    decreases b - a,
{
    if a < b {
        lemma_segs_fold_err_persists(segs, refs, lineno, renderer, a, b - 1);
    }
}

proof fn lemma_out_fold_err_persists(
    lms: Seq<LineModel>,
    refs: Map<Seq<char>, Seq<char>>,
    renderer: SupportedRenderer,
    a: int,
    b: int,
)
    requires
        0 <= a <= b,
        inline_out_fold(lms, refs, renderer, a) is Err,
    ensures
        inline_out_fold(lms, refs, renderer, b) == inline_out_fold(lms, refs, renderer, a),
    decreases b - a,
{
    if a < b {
        lemma_out_fold_err_persists(lms, refs, renderer, a, b - 1);
    }
}

/// Substitute every inline span of an already scanned document. On
/// success the result is the final text and the math contents the
/// caller must render, and the used-artifact list has grown by exactly
/// the math artifacts in document order. On the first failing segment
/// the error is returned and the used-artifact list is untouched.
#[verifier::loop_isolation(false)]
pub fn replace_inline_blocks(
    lines: &Vec<InlineLine>,
    references: &RefTable,
    renderer: SupportedRenderer,
    used_fragments: &mut Vec<String>,
) -> (r: Result<(String, Vec<String>), Error>)
    ensures
        replace_inline_spec(lines_model(lines@), references@, renderer) matches Ok(f) ==> (
        r matches Ok(p) && p.0@ == f.0 && p.1.deep_view() == f.2
            && final(used_fragments).deep_view() == old(used_fragments).deep_view() + f.1),
        replace_inline_spec(lines_model(lines@), references@, renderer) matches Err(m) ==> (
        r matches Err(e) && err_matches(e, m) && final(used_fragments)@ == old(used_fragments)@),
{
    proof {
        reveal_strlit("fig");
        reveal_strlit("bib");
        reveal_strlit("equ");
    }
    let ghost lms = lines_model(lines@);
    let ghost refs = references@;
    let mut outs: Vec<String> = Vec::new();
    let mut used_new: Vec<String> = Vec::new();
    let mut maths: Vec<String> = Vec::new();
    let mut i: usize = 0;
    proof {
        assert(outs.deep_view() =~= Seq::<Seq<char>>::empty());
        assert(used_new.deep_view() =~= Seq::<Seq<char>>::empty());
        assert(maths.deep_view() =~= Seq::<Seq<char>>::empty());
    }
    while i < lines.len()
        invariant
            0 <= i <= lines.len(),
            inline_out_fold(lms, refs, renderer, i as int) == Ok::<
                (Seq<Seq<char>>, Seq<Seq<char>>, Seq<Seq<char>>),
                InlineErrModel,
            >((outs.deep_view(), used_new.deep_view(), maths.deep_view())),
        decreases lines.len() - i,
    {
        let ghost acc = (outs.deep_view(), used_new.deep_view(), maths.deep_view());
        proof {
            assert(lms[i as int] == lines@[i as int].model());
        }
        let lineno: usize = i + 1;
        match &lines[i] {
            InlineLine::Verbatim { line } => {
                let ghost pre = outs.deep_view();
                outs.push(line.clone());
                proof {
                    assert(outs.deep_view() =~= pre.push(line@));
                    assert(used_new.deep_view() + Seq::<Seq<char>>::empty() =~= used_new.deep_view());
                    assert(maths.deep_view() + Seq::<Seq<char>>::empty() =~= maths.deep_view());
                }
            },
            InlineLine::Segs { segs } => {
                let ghost sm = segs@.map_values(|s: InlineSeg| s.model());
                let mut souts: Vec<String> = Vec::new();
                let mut uline: Vec<String> = Vec::new();
                let mut mline: Vec<String> = Vec::new();
                let mut w: usize = 0;
                proof {
                    assert(souts.deep_view() =~= Seq::<Seq<char>>::empty());
                    assert(uline.deep_view() =~= Seq::<Seq<char>>::empty());
                    assert(mline.deep_view() =~= Seq::<Seq<char>>::empty());
                }
                while w < segs.len()
                    invariant
                        0 <= w <= segs.len(),
                        segs_fold(sm, refs, lineno as int, renderer, w as int) == Ok::<
                            (Seq<Seq<char>>, Seq<Seq<char>>, Seq<Seq<char>>),
                            InlineErrModel,
                        >((souts.deep_view(), uline.deep_view(), mline.deep_view())),
                    decreases segs.len() - w,
                {
                    let ghost sacc = (souts.deep_view(), uline.deep_view(), mline.deep_view());
                    proof {
                        assert(sm[w as int] == segs@[w as int].model());
                    }
                    match &segs[w] {
                        InlineSeg::Lit { text } => {
                            let ghost pre = souts.deep_view();
                            souts.push(text.clone());
                            proof {
                                assert(souts.deep_view() =~= pre.push(text@));
                                assert(uline.deep_view() + seg_used(sm[w as int])
                                    =~= uline.deep_view());
                                assert(mline.deep_view() + seg_math(sm[w as int])
                                    =~= mline.deep_view());
                            }
                        },
                        InlineSeg::RefParts { parts, start, end } => {
                            proof {
                                if parts@.len() >= 1 {
                                    assert(parts@[0].deep_view() == parts.deep_view()[0]);
                                }
                                if parts@.len() >= 2 {
                                    assert(parts@[1].deep_view() == parts.deep_view()[1]);
                                }
                            }
                            let ghost m: InlineErrModel;
                            if parts.len() != 2 {
                                let e = Error::UnexpectedReferenceArgCount {
                                    count: parts.len(),
                                    lineno,
                                };
                                proof {
                                    m = InlineErrModel::ArgCount {
                                        count: parts.deep_view().len() as int,
                                        lineno: lineno as int,
                                    };
                                    assert(seg_result(sm[w as int], refs, lineno as int, renderer)
                                        == Err::<Seq<char>, InlineErrModel>(m));
                                    assert(segs_fold(sm, refs, lineno as int, renderer, w + 1)
                                        == Err::<
                                        (Seq<Seq<char>>, Seq<Seq<char>>, Seq<Seq<char>>),
                                        InlineErrModel,
                                    >(m));
                                    lemma_segs_fold_err_persists(
                                        sm,
                                        refs,
                                        lineno as int,
                                        renderer,
                                        w + 1,
                                        sm.len() as int,
                                    );
                                    assert(line_result(lms[i as int], refs, lineno as int, renderer)
                                        == Err::<
                                        (Seq<char>, Seq<Seq<char>>, Seq<Seq<char>>),
                                        InlineErrModel,
                                    >(m));
                                    assert(inline_out_fold(lms, refs, renderer, i + 1) == Err::<
                                        (Seq<Seq<char>>, Seq<Seq<char>>, Seq<Seq<char>>),
                                        InlineErrModel,
                                    >(m));
                                    lemma_out_fold_err_persists(
                                        lms,
                                        refs,
                                        renderer,
                                        i + 1,
                                        lms.len() as int,
                                    );
                                    assert(err_matches(e, m));
                                }
                                return Err(e);
                            }
                            let kind: &String = &parts[0];
                            let key: &String = &parts[1];
                            let looked: Option<String> = references.get(key.as_str());
                            let known = crate::strutil::str_eq_str(kind.as_str(), "fig")
                                || crate::strutil::str_eq_str(kind.as_str(), "bib")
                                || crate::strutil::str_eq_str(kind.as_str(), "equ");
                            if !known {
                                let e = Error::UnknownReferenceKind { kind: kind.clone(), lineno };
                                proof {
                                    m = InlineErrModel::UnknownKind {
                                        kind: kind@,
                                        lineno: lineno as int,
                                    };
                                    assert(seg_result(sm[w as int], refs, lineno as int, renderer)
                                        == Err::<Seq<char>, InlineErrModel>(m));
                                    lemma_segs_fold_err_persists(
                                        sm,
                                        refs,
                                        lineno as int,
                                        renderer,
                                        w + 1,
                                        sm.len() as int,
                                    );
                                    assert(inline_out_fold(lms, refs, renderer, i + 1) == Err::<
                                        (Seq<Seq<char>>, Seq<Seq<char>>, Seq<Seq<char>>),
                                        InlineErrModel,
                                    >(m));
                                    lemma_out_fold_err_persists(
                                        lms,
                                        refs,
                                        renderer,
                                        i + 1,
                                        lms.len() as int,
                                    );
                                    assert(err_matches(e, m));
                                }
                                return Err(e);
                            }
                            match looked {
                                Some(label) => {
                                    let anchor = if crate::strutil::str_eq_str(
                                        kind.as_str(),
                                        "fig",
                                    ) {
                                        build_fig_anchor(key.as_str(), label.as_str())
                                    } else if crate::strutil::str_eq_str(kind.as_str(), "bib") {
                                        build_bib_anchor(key.as_str(), label.as_str())
                                    } else {
                                        build_equ_anchor(key.as_str(), label.as_str())
                                    };
                                    let ghost pre = souts.deep_view();
                                    souts.push(anchor);
                                    proof {
                                        assert(souts.deep_view() =~= pre.push(
                                            seg_result(
                                                sm[w as int],
                                                refs,
                                                lineno as int,
                                                renderer,
                                            )->Ok_0,
                                        ));
                                        assert(uline.deep_view() + seg_used(sm[w as int])
                                            =~= uline.deep_view());
                                        assert(mline.deep_view() + seg_math(sm[w as int])
                                            =~= mline.deep_view());
                                    }
                                },
                                None => {
                                    let e = Error::InvalidReference { to: key.clone(), lineno };
                                    proof {
                                        m = InlineErrModel::Invalid {
                                            to: key@,
                                            lineno: lineno as int,
                                        };
                                        assert(seg_result(
                                            sm[w as int],
                                            refs,
                                            lineno as int,
                                            renderer,
                                        ) == Err::<Seq<char>, InlineErrModel>(m));
                                        lemma_segs_fold_err_persists(
                                            sm,
                                            refs,
                                            lineno as int,
                                            renderer,
                                            w + 1,
                                            sm.len() as int,
                                        );
                                        assert(inline_out_fold(lms, refs, renderer, i + 1)
                                            == Err::<
                                            (Seq<Seq<char>>, Seq<Seq<char>>, Seq<Seq<char>>),
                                            InlineErrModel,
                                        >(m));
                                        lemma_out_fold_err_persists(
                                            lms,
                                            refs,
                                            renderer,
                                            i + 1,
                                            lms.len() as int,
                                        );
                                        assert(err_matches(e, m));
                                    }
                                    return Err(e);
                                },
                            }
                        },
                        InlineSeg::Math { text, start, end } => {
                            let svg = with_ext(hash(text.as_str()).as_str(), ".svg");
                            let replacement = Replacement {
                                content: Content {
                                    s: text.clone(),
                                    start: LiCo { lineno, column: *start },
                                    end: LiCo { lineno, column: *end },
                                },
                                intermediate: None,
                                svg: svg.clone(),
                            };
                            let ghost spre = souts.deep_view();
                            let ghost upre = uline.deep_view();
                            let ghost mpre = mline.deep_view();
                            souts.push(
                                crate::format::format_inline_equation(&replacement, renderer),
                            );
                            uline.push(svg);
                            mline.push(text.clone());
                            proof {
                                assert(souts.deep_view() =~= spre.push(
                                    spec_format_inline_equation(
                                        hash_id(text@) + ".svg"@,
                                        text@,
                                        renderer,
                                    ),
                                ));
                                assert(uline.deep_view() =~= upre + seg_used(sm[w as int]));
                                assert(mline.deep_view() =~= mpre + seg_math(sm[w as int]));
                            }
                        },
                    }
                    proof {
                        assert(segs_fold(sm, refs, lineno as int, renderer, w + 1) == Ok::<
                            (Seq<Seq<char>>, Seq<Seq<char>>, Seq<Seq<char>>),
                            InlineErrModel,
                        >((souts.deep_view(), uline.deep_view(), mline.deep_view())));
                    }
                    w = w + 1;
                }
                let ghost upre = used_new.deep_view();
                let ghost mpre = maths.deep_view();
                let ghost opre = outs.deep_view();
                let ghost slv = souts.deep_view();
                let ghost ulv = uline.deep_view();
                let ghost mlv = mline.deep_view();
                outs.push(concat_strings(&souts));
                used_new.append(&mut uline);
                maths.append(&mut mline);
                proof {
                    assert(sm.len() == segs@.len());
                    assert(line_result(lms[i as int], refs, lineno as int, renderer) == Ok::<
                        (Seq<char>, Seq<Seq<char>>, Seq<Seq<char>>),
                        InlineErrModel,
                    >((concat_texts(slv), ulv, mlv)));
                    assert(outs.deep_view() =~= opre.push(concat_texts(slv)));
                    assert(used_new.deep_view() =~= upre + ulv);
                    assert(maths.deep_view() =~= mpre + mlv);
                }
            },
        }
        proof {
            assert(inline_out_fold(lms, refs, renderer, i + 1) == Ok::<
                (Seq<Seq<char>>, Seq<Seq<char>>, Seq<Seq<char>>),
                InlineErrModel,
            >((outs.deep_view(), used_new.deep_view(), maths.deep_view())));
        }
        i = i + 1;
    }
    proof {
        assert(lms.len() == lines@.len());
    }
    let text = join_lines(&outs);
    let mut k: usize = 0;
    let ghost ubase = used_fragments.deep_view();
    while k < used_new.len()
        invariant
            0 <= k <= used_new.len(),
            used_fragments.deep_view() == ubase + used_new.deep_view().take(k as int),
        decreases used_new.len() - k,
    {
        let ghost pre = used_fragments.deep_view();
        used_fragments.push(used_new[k].clone());
        proof {
            assert(used_fragments.deep_view() =~= pre.push(used_new.deep_view()[k as int]));
            assert(used_fragments.deep_view() =~= ubase + used_new.deep_view().take(k + 1));
        }
        k = k + 1;
    }
    proof {
        assert(used_new.deep_view().take(used_new.len() as int) =~= used_new.deep_view());
    }
    Ok((text, maths))
}

} // verus!
