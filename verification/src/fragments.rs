//! Content-addressed naming of rendered fragments, the plan of outside
//! work a directive needs, and the pure halves of the renderer backends:
//! the LaTeX wrapper template, the gnuplot scripts, the LaTeX error-log
//! parser, and the bibliography output filter.

use vstd::prelude::*;

use sha2::Digest;

use crate::errors::Error;
use crate::strutil::{
    all_digits, contains_seq, dec_val, find_at, find_char_from, parse_usize, parse_usize_spec,
    replace_spec, split_nl, split_nl_exec, starts_with, str_contains, str_eq_str, str_match_at,
    str_replace, str_starts_with, trim, trim_spec,
};

verus! {

/// The 64 lowercase hexadecimal digits of the SHA-256 digest of a text's
/// UTF-8 bytes.
pub uninterp spec fn sha256_hex_of(s: Seq<char>) -> Seq<char>;

/// Whether a character is a lowercase hexadecimal digit, the alphabet
/// content-addressed identifiers are written in.
pub open spec fn is_lower_hex(c: char) -> bool {
    ('0' <= c && c <= '9') || ('a' <= c && c <= 'f')
}

/// Relies on `sha2::Sha256` and generic-array's `LowerHex` formatting:
/// the digest of the input's bytes is 32 bytes, written as 64 lowercase
/// hexadecimal characters (digits and `a`-`f` only) with every byte
/// zero-padded to two digits.
#[verifier::external_body]
fn sha256_hex(input: &str) -> (r: String)
    ensures
        r@ == sha256_hex_of(input@),
        r@.len() == 64,
        forall|i: int| 0 <= i < r@.len() ==> is_lower_hex(#[trigger] r@[i]),
        vstd::string::string_is_ascii(&r),
{
    let mut sh = sha2::Sha256::new();
    sh.update(input.as_bytes());
    format!("{:x}", sh.finalize())
}

/// The content-addressed identifier of a text: its SHA-256 hex digest
/// truncated to 24 characters.
pub open spec fn hash_id(s: Seq<char>) -> Seq<char> {
    sha256_hex_of(s).take(24)
}

/// Convert input string to 24 character hash
pub fn hash(input: &str) -> (r: String)
    ensures
        r@ == hash_id(input@),
        r@.len() == 24,
        forall|i: int| 0 <= i < r@.len() ==> is_lower_hex(#[trigger] r@[i]),
{
    let h = sha256_hex(input);
    let cut = h.as_str().substring_ascii(0, 24);
    assert(cut@ =~= hash_id(input@));
    assert forall|i: int| 0 <= i < cut@.len() implies is_lower_hex(#[trigger] cut@[i]) by {
        assert(cut@[i] == h@[i]);
    }
    cut.to_owned()
}

/// `identify` is deterministic: the identifier is a function of the exact
/// content alone, so two calls on identical text always agree. (That
/// differing texts receive differing identifiers holds only with
/// overwhelming probability and is not a statement of this model.)
pub proof fn lemma_hash_deterministic(a: Seq<char>, b: Seq<char>)
    requires
        a == b,
    ensures
        hash_id(a) == hash_id(b),
{
}

/// A file name with an extension appended.
pub fn with_ext(name: &str, ext: &str) -> (r: String)
    ensures
        r@ == name@ + ext@,
{
    name.to_owned().concat(ext)
}

/// The standalone LaTeX document wrapped around equation content, the
/// content standing between the display-math markers.
pub open spec fn template_spec(c: Seq<char>) -> Seq<char> {
    "\\documentclass[preview]{standalone}\n\\usepackage{amsmath}\n\\usepackage{amssymb}\n\\begin{document}\n$$"@
        + c
        + "$$\n\\end{document}\n"@
}

/// Wrap equation content in the standalone LaTeX template.
pub fn template_tex(content: &str) -> (r: String)
    ensures
        r@ == template_spec(content@),
{
    let mut out = String::from_str(
        "\\documentclass[preview]{standalone}\n\\usepackage{amsmath}\n\\usepackage{amssymb}\n\\begin{document}\n$$",
    );
    out.append(content);
    out.append("$$\n\\end{document}\n");
    assert(out@ =~= template_spec(content@));
    out
}

/// The gnuplot script that renders plot content to a LaTeX fragment
/// named `<name>.tex`, as it is piped to the tool.
pub open spec fn gnuplot_tex_script_spec(name: Seq<char>, body: Seq<char>) -> Seq<char> {
    "set output '"@ + name + ".tex'\n"@ + "set terminal epslatex color standalone\n"@ + body
}

pub fn gnuplot_tex_script(name: &str, body: &str) -> (r: String)
    ensures
        r@ == gnuplot_tex_script_spec(name@, body@),
{
    let mut out = String::from_str("set output '");
    out.append(name);
    out.append(".tex'\n");
    out.append("set terminal epslatex color standalone\n");
    out.append(body);
    assert(out@ =~= gnuplot_tex_script_spec(name@, body@));
    out
}

/// The gnuplot script that renders plot content straight to
/// `<name>.svg`, as it is piped to the tool.
pub open spec fn gnuplot_svg_script_spec(name: Seq<char>, body: Seq<char>) -> Seq<char> {
    "set output '"@ + name + ".svg'\n"@ + "set terminal svg\n"@ + "set encoding utf8\n"@ + body
}

pub fn gnuplot_svg_script(name: &str, body: &str) -> (r: String)
    ensures
        r@ == gnuplot_svg_script_spec(name@, body@),
{
    let mut out = String::from_str("set output '");
    out.append(name);
    out.append(".svg'\n");
    out.append("set terminal svg\n");
    out.append("set encoding utf8\n");
    out.append(body);
    assert(out@ =~= gnuplot_svg_script_spec(name@, body@));
    out
}

/// Which renderer backend a directive's parameters select.
#[derive(Debug, Clone, Copy, PartialEq, Eq, Structural)]
pub enum BackendKind {
    /// The body is a complete LaTeX document rendered as written.
    Latex,
    /// The body is a gnuplot script rendered through the LaTeX backend.
    Gnuplot,
    /// The body is a gnuplot script rendered straight to an image.
    GnuplotOnly,
    /// The body is equation content wrapped in the standalone template;
    /// this is also the fallback for unrecognized parameter lists.
    Template,
}

/// The backend a parameter list selects: the three named kinds need
/// exactly kind, reference key and title; everything else falls back to
/// the generic equation template.
pub open spec fn backend_of(params: Seq<Seq<char>>) -> BackendKind {
    if params.len() == 3 && params[0] == "latex"@ {
        BackendKind::Latex
    } else if params.len() == 3 && params[0] == "gnuplot"@ {
        BackendKind::Gnuplot
    } else if params.len() == 3 && params[0] == "gnuplotonly"@ {
        BackendKind::GnuplotOnly
    } else {
        BackendKind::Template
    }
}

/// Everything the outside tools need to render one directive: the
/// content-addressed name, the backend, the text to place in the
/// `.tex` file when one must be written, and the zoom handed to the
/// image conversion, in tenths.
#[derive(Debug, Clone)]
pub struct RenderPlan {
    pub backend: BackendKind,
    /// Content hash of the body; the artifact files are `<name>.tex`,
    /// `<name>.dvi`, `<name>.svg` under the fragment directory.
    pub name: String,
    /// What `<name>.tex` holds when this plan writes it: the raw body
    /// for the LaTeX backend, the template-wrapped body for the
    /// equation backend, nothing for the gnuplot backends (the tool
    /// writes the file itself).
    pub tex_body: Option<String>,
    /// Zoom for the DVI-to-SVG conversion, in tenths.
    pub zoom_tenths: u8,
}

/// The plan for a block directive with the given parsed parameters and
/// resolved body.
pub fn directive_plan(params: &Vec<String>, body: &str) -> (p: RenderPlan)
    ensures
        p.backend == backend_of(params.deep_view()),
        p.name@ == hash_id(body@),
        p.zoom_tenths == (if backend_of(params.deep_view()) is Template {
            16int
        } else {
            10int
        }),
        p.backend is Latex ==> (p.tex_body matches Some(t) && t@ == body@),
        p.backend is Template ==> (p.tex_body matches Some(t) && t@ == template_spec(body@)),
        (p.backend is Gnuplot || p.backend is GnuplotOnly ==> p.tex_body is None),
{
    let name = hash(body);
    let three = params.len() == 3;
    if three && str_eq_str(params[0].as_str(), "latex") {
        RenderPlan { backend: BackendKind::Latex, name, tex_body: Some(body.to_owned()), zoom_tenths: 10 }
    } else if three && str_eq_str(params[0].as_str(), "gnuplot") {
        RenderPlan { backend: BackendKind::Gnuplot, name, tex_body: None, zoom_tenths: 10 }
    } else if three && str_eq_str(params[0].as_str(), "gnuplotonly") {
        RenderPlan { backend: BackendKind::GnuplotOnly, name, tex_body: None, zoom_tenths: 10 }
    } else {
        RenderPlan {
            backend: BackendKind::Template,
            name,
            tex_body: Some(template_tex(body)),
            zoom_tenths: 16,
        }
    }
}

/// The plan for an inline math span: always the equation template, at
/// the smaller inline zoom.
pub fn inline_math_plan(body: &str) -> (p: RenderPlan)
    ensures
        p.backend is Template,
        p.name@ == hash_id(body@),
        p.zoom_tenths == 13,
        p.tex_body matches Some(t) && t@ == template_spec(body@),
{
    RenderPlan {
        backend: BackendKind::Template,
        name: hash(body),
        tex_body: Some(template_tex(body)),
        zoom_tenths: 13,
    }
}

/// Which pieces of outside work a render needs, given which artifact
/// files already exist. Existing files are reused: this is what makes
/// repeated builds over unchanged content backend-invocation-free.
#[derive(Debug, Clone, Copy, PartialEq, Eq, Structural)]
pub struct RenderActions {
    /// Write the planned `.tex` file.
    pub write_tex: bool,
    /// Pipe the body to gnuplot to produce the `.tex` file.
    pub run_gnuplot_to_tex: bool,
    /// Run the LaTeX tool on the `.tex` file to produce the `.dvi`.
    pub run_latex: bool,
    /// Run the DVI-to-SVG conversion.
    pub run_dvisvgm: bool,
    /// Pipe the body to gnuplot to produce the `.svg` file directly.
    pub run_gnuplot_to_svg: bool,
    /// Read the produced `.tex` back as the intermediate form.
    pub read_intermediate: bool,
}

/// The actions a backend performs given which of `<name>.tex`,
/// `<name>.dvi` and `<name>.svg` already exist on disk.
pub open spec fn render_actions_spec(
    backend: BackendKind,
    tex_exists: bool,
    dvi_exists: bool,
    svg_exists: bool,
) -> RenderActions {
    match backend {
        BackendKind::Latex | BackendKind::Template => RenderActions {
            write_tex: !tex_exists,
            run_gnuplot_to_tex: false,
            run_latex: !dvi_exists,
            run_dvisvgm: !svg_exists,
            run_gnuplot_to_svg: false,
            read_intermediate: false,
        },
        BackendKind::Gnuplot => RenderActions {
            write_tex: false,
            run_gnuplot_to_tex: !tex_exists,
            run_latex: !svg_exists && !dvi_exists,
            run_dvisvgm: !svg_exists,
            run_gnuplot_to_svg: false,
            read_intermediate: true,
        },
        BackendKind::GnuplotOnly => RenderActions {
            write_tex: false,
            run_gnuplot_to_tex: false,
            run_latex: false,
            run_dvisvgm: false,
            run_gnuplot_to_svg: !svg_exists,
            read_intermediate: false,
        },
    }
}

pub fn render_actions(
    backend: BackendKind,
    tex_exists: bool,
    dvi_exists: bool,
    svg_exists: bool,
) -> (a: RenderActions)
    ensures
        a == render_actions_spec(backend, tex_exists, dvi_exists, svg_exists),
{
    match backend {
        BackendKind::Latex | BackendKind::Template => RenderActions {
            write_tex: !tex_exists,
            run_gnuplot_to_tex: false,
            run_latex: !dvi_exists,
            run_dvisvgm: !svg_exists,
            run_gnuplot_to_svg: false,
            read_intermediate: false,
        },
        BackendKind::Gnuplot => RenderActions {
            write_tex: false,
            run_gnuplot_to_tex: !tex_exists,
            run_latex: !svg_exists && !dvi_exists,
            run_dvisvgm: !svg_exists,
            run_gnuplot_to_svg: false,
            read_intermediate: true,
        },
        BackendKind::GnuplotOnly => RenderActions {
            write_tex: false,
            run_gnuplot_to_tex: false,
            run_latex: false,
            run_dvisvgm: false,
            run_gnuplot_to_svg: !svg_exists,
            read_intermediate: false,
        },
    }
}

/// Once every artifact of a content hash exists, a rebuild performs no
/// outside work at all: rendering over a populated cache is free, for
/// every backend. The intermediate form of a plot is still read back,
/// which touches no rendering tool.
pub proof fn lemma_cached_no_render(backend: BackendKind)
    ensures
        !render_actions_spec(backend, true, true, true).write_tex,
        !render_actions_spec(backend, true, true, true).run_gnuplot_to_tex,
        !render_actions_spec(backend, true, true, true).run_latex,
        !render_actions_spec(backend, true, true, true).run_dvisvgm,
        !render_actions_spec(backend, true, true, true).run_gnuplot_to_svg,
{
}

/// One step of the LaTeX error-log fold: a line `! <message>` keeps the
/// message, a line `l.<num> <excerpt>` keeps the parsed line number and
/// the excerpt; lines mentioning `Emergency stop` are ignored.
pub open spec fn latex_err_step(
    acc: (Seq<char>, Seq<char>, int),
    l: Seq<char>,
) -> (Seq<char>, Seq<char>, int) {
    if !((starts_with(l, "! "@) || starts_with(l, "l."@)) && !contains_seq(l, "Emergency stop"@)) {
        acc
    } else if starts_with(l, "! "@) {
        (l.skip(2), acc.1, acc.2)
    } else {
        let striped = l.skip(2);
        let i = find_at(striped, ' ', 0);
        let first = if i == striped.len() {
            trim_spec(striped)
        } else {
            trim_spec(striped.subrange(0, i))
        };
        let v = parse_usize_spec(first);
        (
            acc.0,
            if i < striped.len() {
                trim_spec(striped.skip(i + 1))
            } else {
                acc.1
            },
            if v is Some {
                v->0
            } else {
                acc.2
            },
        )
    }
}

/// The fold over the first `n` log lines, starting from empty message
/// and excerpt and the largest line number.
pub open spec fn latex_err_fold(ls: Seq<Seq<char>>, n: int) -> (Seq<char>, Seq<char>, int)
    decreases n,
{
    if n <= 0 {
        (Seq::<char>::empty(), Seq::<char>::empty(), usize::MAX as int)
    } else {
        latex_err_step(latex_err_fold(ls, n - 1), ls[n - 1])
    }
}

/// Distill a LaTeX failure log into the error message, the offending
/// source excerpt, and the reported line number, as the whole log's fold.
#[verifier::loop_isolation(false)]
pub fn parse_latex_error(log: &str) -> (er: (String, String, usize))
    ensures
        ({
            let f = latex_err_fold(split_nl(log@), split_nl(log@).len() as int);
            er.0@ == f.0 && er.1@ == f.1 && er.2 as int == f.2
        }),
{
    proof {
        reveal_strlit("! ");
        reveal_strlit("l.");
    }
    let ls = split_nl_exec(log);
    let mut msg = String::new();
    let mut excerpt = String::new();
    let mut lineno: usize = usize::MAX;
    let mut i: usize = 0;
    while i < ls.len()
        invariant
            0 <= i <= ls.len(),
            (msg@, excerpt@, lineno as int) == latex_err_fold(ls.deep_view(), i as int),
        decreases ls.len() - i,
    {
        let l: &str = ls[i].as_str();
        let ghost lv = ls.deep_view()[i as int];
        let is_bang = str_starts_with(l, "! ");
        let is_lnum = str_starts_with(l, "l.");
        let emergency = str_contains(l, "Emergency stop");
        if (is_bang || is_lnum) && !emergency {
            if is_bang {
                let n: usize = l.unicode_len();
                msg = l.substring_char(2, n).to_owned();
                proof {
                    assert(msg@ =~= lv.skip(2));
                }
            } else {
                let n: usize = l.unicode_len();
                let striped = l.substring_char(2, n);
                proof {
                    assert(striped@ =~= lv.skip(2));
                }
                let m: usize = striped.unicode_len();
                let sp: usize = find_char_from(striped, ' ', 0);
                let first = if sp == m {
                    trim(striped)
                } else {
                    trim(striped.substring_char(0, sp))
                };
                if let Some(v) = parse_usize(first) {
                    lineno = v;
                } else {
                    proof {
                        assert(parse_usize_spec(first@) is None);
                    }
                }
                if sp < m {
                    excerpt = trim(striped.substring_char(sp + 1, m)).to_owned();
                    proof {
                        assert(striped@.subrange(sp + 1, m as int) =~= striped@.skip(sp + 1));
                    }
                }
            }
        }
        proof {
            assert(latex_err_fold(ls.deep_view(), i + 1) == latex_err_step(
                latex_err_fold(ls.deep_view(), i as int),
                lv,
            ));
        }
        i = i + 1;
    }
    (msg, excerpt, lineno)
}

/// Lines from the start marker of the bibliography list onward, the
/// marker line kept.
pub open spec fn skip_to_dl(ls: Seq<Seq<char>>) -> Seq<Seq<char>>
    decreases ls.len(),
{
    if ls.len() == 0 {
        Seq::<Seq<char>>::empty()
    } else if ls[0] == "<dl class=\"bib2xhtml\">"@ {
        ls
    } else {
        skip_to_dl(ls.drop_first())
    }
}

/// Lines up to but excluding the closing marker of the list.
pub open spec fn take_to_enddl(ls: Seq<Seq<char>>) -> Seq<Seq<char>>
    decreases ls.len(),
{
    if ls.len() == 0 {
        Seq::<Seq<char>>::empty()
    } else if ls[0] == "</dl>"@ {
        Seq::<Seq<char>>::empty()
    } else {
        seq![ls[0]] + take_to_enddl(ls.drop_first())
    }
}

/// The kept lines concatenated, each with its name anchors rewritten to
/// id anchors.
pub open spec fn concat_anchored(ls: Seq<Seq<char>>) -> Seq<char>
    decreases ls.len(),
{
    if ls.len() == 0 {
        Seq::<char>::empty()
    } else {
        replace_spec(ls[0], "<a name=\""@, "<a id=\""@) + concat_anchored(ls.drop_first())
    }
}

/// The bibliography markup distilled from the conversion tool's output:
/// its definition list, with anchors rewritten.
pub open spec fn bib_html_of(out: Seq<char>) -> Seq<char> {
    concat_anchored(take_to_enddl(skip_to_dl(split_nl(out))))
}

proof fn lemma_skip_to_dl_at(ls: Seq<Seq<char>>, k: int)
    requires
        0 <= k <= ls.len(),
        forall|j: int| 0 <= j < k ==> ls[j] != "<dl class=\"bib2xhtml\">"@,
        k < ls.len() ==> ls[k] == "<dl class=\"bib2xhtml\">"@,
    ensures
        skip_to_dl(ls) =~= ls.skip(k),
    decreases k,
{
    if ls.len() == 0 {
    } else if k == 0 {
        assert(ls.skip(0) =~= ls);
    } else {
        lemma_skip_to_dl_at(ls.drop_first(), k - 1);
        assert(ls.drop_first().skip(k - 1) =~= ls.skip(k));
    }
}

proof fn lemma_take_to_enddl_range(ls: Seq<Seq<char>>, k: int, i: int)
    requires
        0 <= k <= i <= ls.len(),
        forall|j: int| k <= j < i ==> ls[j] != "</dl>"@,
        i < ls.len() ==> ls[i] == "</dl>"@,
    ensures
        take_to_enddl(ls.skip(k)) =~= ls.subrange(k, i),
    decreases i - k,
{
    let suf = ls.skip(k);
    if k == i {
        if i < ls.len() {
            assert(suf[0] == ls[i]);
        }
    } else {
        assert(suf.len() > 0);
        assert(suf[0] == ls[k]);
        assert(suf[0] != "</dl>"@);
        lemma_take_to_enddl_range(ls, k + 1, i);
        assert(suf.drop_first() =~= ls.skip(k + 1));
        assert(take_to_enddl(suf) == seq![suf[0]] + take_to_enddl(suf.drop_first()));
        assert(seq![ls[k]] + ls.subrange(k + 1, i) =~= ls.subrange(k, i));
    }
}

proof fn lemma_concat_anchored_push(ls: Seq<Seq<char>>, x: Seq<char>)
    ensures
        concat_anchored(ls.push(x)) == concat_anchored(ls) + replace_spec(
            x,
            "<a name=\""@,
            "<a id=\""@,
        ),
    decreases ls.len(),
{
    reveal_strlit("<a name=\"");
    reveal_strlit("<a id=\"");
    if ls.len() == 0 {
        assert(ls.push(x)[0] == x);
        assert(ls.push(x).drop_first() =~= Seq::<Seq<char>>::empty());
        assert(concat_anchored(Seq::<Seq<char>>::empty()) == Seq::<char>::empty());
        assert(concat_anchored(ls.push(x)) =~= replace_spec(x, "<a name=\""@, "<a id=\""@));
        assert(concat_anchored(ls) + replace_spec(x, "<a name=\""@, "<a id=\""@) =~= replace_spec(
            x,
            "<a name=\""@,
            "<a id=\""@,
        ));
    } else {
        lemma_concat_anchored_push(ls.drop_first(), x);
        assert(ls.push(x).drop_first() =~= ls.drop_first().push(x));
        assert(ls.push(x)[0] == ls[0]);
        assert(concat_anchored(ls.push(x)) == replace_spec(ls[0], "<a name=\""@, "<a id=\""@)
            + concat_anchored(ls.drop_first().push(x)));
        assert(concat_anchored(ls) + replace_spec(x, "<a name=\""@, "<a id=\""@) =~= replace_spec(
            ls[0],
            "<a name=\""@,
            "<a id=\""@,
        ) + (concat_anchored(ls.drop_first()) + replace_spec(x, "<a name=\""@, "<a id=\""@)));
    }
}

/// Distill the bibliography conversion tool's output: its standard
/// error aborts the build when it reports errors; otherwise the
/// definition list is cut out of its standard output, with name anchors
/// rewritten as id anchors.
#[verifier::loop_isolation(false)]
pub fn check_bib2xhtml_output(out_text: &str, err_text: &str) -> (r: Result<String, Error>)
    ensures
        contains_seq(err_text@, "error messages)"@) ==> (r matches Err(e) && e matches
            Error::InvalidBibliography(m) && m@ == err_text@),
        !contains_seq(err_text@, "error messages)"@) ==> (r matches Ok(h) && h@ == bib_html_of(
            out_text@,
        )),
{
    proof {
        reveal_strlit("<a name=\"");
        reveal_strlit("<a id=\"");
    }
    if str_contains(err_text, "error messages)") {
        return Err(Error::InvalidBibliography(err_text.to_owned()));
    }
    let ls = split_nl_exec(out_text);
    let ghost lsv = ls.deep_view();
    let n = ls.len();
    let mut k: usize = 0;
    while k < n && !str_eq_str(ls[k].as_str(), "<dl class=\"bib2xhtml\">")
        invariant
            0 <= k <= n,
            forall|j: int| 0 <= j < k ==> lsv[j] != "<dl class=\"bib2xhtml\">"@,
        decreases n - k,
    {
        k = k + 1;
    }
    proof {
        lemma_skip_to_dl_at(lsv, k as int);
    }
    let mut out = String::new();
    let mut i: usize = k;
    while i < n && !str_eq_str(ls[i].as_str(), "</dl>")
        invariant
            k <= i <= n,
            forall|j: int| k <= j < i ==> lsv[j] != "</dl>"@,
            out@ == concat_anchored(lsv.subrange(k as int, i as int)),
        decreases n - i,
    {
        let piece = str_replace(ls[i].as_str(), "<a name=\"", "<a id=\"");
        out.append(piece.as_str());
        proof {
            lemma_concat_anchored_push(lsv.subrange(k as int, i as int), lsv[i as int]);
            assert(lsv.subrange(k as int, i + 1) =~= lsv.subrange(k as int, i as int).push(
                lsv[i as int],
            ));
        }
        i = i + 1;
    }
    proof {
        lemma_take_to_enddl_range(lsv, k as int, i as int);
        assert(bib_html_of(out_text@) == concat_anchored(take_to_enddl(skip_to_dl(lsv))));
        assert(take_to_enddl(skip_to_dl(lsv)) =~= lsv.subrange(k as int, i as int));
    }
    Ok(out)
}

} // verus!
