//! Bibliography support: citation keys are read from the BibTeX source
//! and numbered into the reference table, so that `$ref:bib:key$` spans
//! resolve; the conversion tool's output is filtered elsewhere.

use vstd::prelude::*;

use crate::errors::Error;
use crate::reftable::RefTable;
use crate::strutil::{dec_of, usize_to_dec};

verus! {

/// The citation keys of a BibTeX text, in file order, when its entries
/// parse; nothing when they do not. Parsing is a function of the text
/// alone. Only entry structure is read — string abbreviations are left
/// unexpanded, which citation keys never need.
pub uninterp spec fn bibtex_keys_of(s: Seq<char>) -> Option<Seq<Seq<char>>>;

/// The texts the outside BibTeX parser is trusted on: empty, or ending
/// in a single-byte character other than `{` and `"`. The parser scans
/// a `{`- or `"`-delimited value to the end of the input when it is
/// never closed, and at the very end it slices blindly: a text ending
/// in an opening delimiter underflows the slice bounds, and one ending
/// in a multi-byte character can be sliced off a character boundary.
/// Both panic, so such texts are kept away from the call and rejected
/// by the caller instead. Ordinary bibliography files end with `}` or a
/// newline and pass.
pub open spec fn bibtex_input_guarded(s: Seq<char>) -> bool {
    s.len() == 0 || ((s[s.len() - 1] as u32) < 128 && s[s.len() - 1] != '{' && s[s.len() - 1]
        != '"')
}

/// Whether the text may be handed to the outside BibTeX parser.
pub fn bibtex_input_guard(src: &str) -> (b: bool)
    ensures
        b == bibtex_input_guarded(src@),
{
    let n: usize = src.unicode_len();
    if n == 0 {
        return true;
    }
    let c = src.get_char(n - 1);
    (c as u32) < 128 && c != '{' && c != '"'
}

/// Relies on `nom_bibtex::Bibtex::raw_parse`: a pure, deterministic
/// parse of the text's entries that succeeds exactly when they are
/// well-formed, yielding bibliography entries in file order with their
/// citation keys. `raw_parse` is used instead of the full parse so that
/// string abbreviations are never expanded: expansion recurses through
/// self-referential `@string` definitions without cycle detection and
/// would not return. The `requires` keeps out the texts on which the
/// parser's value scanning panics (see `bibtex_input_guarded`). The
/// error is carried as its debug text (its display form recurses into
/// itself).
#[verifier::external_body]
fn bibtex_citation_keys(src: &str) -> (r: Result<Vec<String>, String>)
    requires
        bibtex_input_guarded(src@),
    ensures
        r is Ok <==> bibtex_keys_of(src@) is Some,
        r matches Ok(keys) ==> keys.deep_view() == bibtex_keys_of(src@)->0,
{
    match nom_bibtex::Bibtex::raw_parse(src) {
        Ok(entries) => {
            let mut keys: Vec<String> = Vec::new();
            for entry in entries {
                if let nom_bibtex::Entry::Bibliography(_t, key, _tags) = entry {
                    keys.push(key);
                }
            }
            Ok(keys)
        },
        Err(e) => Err(format!("{:?}", e)),
    }
}

/// The label of the bibliography entry at 0-based position `i`.
pub open spec fn bib_label(i: int) -> Seq<char> {
    "["@ + dec_of(i + 1) + "]"@
}

fn build_bib_label(i: usize) -> (r: String)
    requires
        i < usize::MAX,
    ensures
        r@ == bib_label(i as int),
{
    let mut out = String::from_str("[");
    out.append(usize_to_dec(i + 1).as_str());
    out.append("]");
    assert(out@ =~= bib_label(i as int));
    out
}

/// The reference table after the first `n` citation keys are numbered.
pub open spec fn bib_refs_fold(
    keys: Seq<Seq<char>>,
    refs0: Map<Seq<char>, Seq<char>>,
    n: int,
) -> Map<Seq<char>, Seq<char>>
    decreases n,
{
    if n <= 0 {
        refs0
    } else {
        bib_refs_fold(keys, refs0, n - 1).insert(keys[n - 1], bib_label(n - 1))
    }
}

/// Number every citation key of a BibTeX text into the reference table,
/// in file order: the first entry resolves to `[1]`, the second to
/// `[2]`, and so on. A text outside the parser's trusted domain (see
/// `bibtex_input_guarded`) or one whose entries do not parse changes
/// nothing and reports the failure.
#[verifier::loop_isolation(false)]
pub fn load_bibliography_references(bibtex_src: &str, references: &mut RefTable) -> (r: Result<
    (),
    Error,
>)
    ensures
        !bibtex_input_guarded(bibtex_src@) ==> (r matches Err(e) && e is
            BibliographyParsingFailed && final(references)@ == old(references)@),
        bibtex_input_guarded(bibtex_src@) && bibtex_keys_of(bibtex_src@) is Some ==> (r is Ok
            && final(references)@ == bib_refs_fold(
            bibtex_keys_of(bibtex_src@)->0,
            old(references)@,
            bibtex_keys_of(bibtex_src@)->0.len() as int,
        )),
        bibtex_input_guarded(bibtex_src@) && bibtex_keys_of(bibtex_src@) is None ==> (r matches
            Err(e) && e is BibliographyParsingFailed && final(references)@ == old(references)@),
{
    if !bibtex_input_guard(bibtex_src) {
        return Err(
            Error::BibliographyParsingFailed(
                "bibliography text ends in an unterminated value delimiter or a non-ASCII character".to_owned(),
            ),
        );
    }
    match bibtex_citation_keys(bibtex_src) {
        Err(msg) => Err(Error::BibliographyParsingFailed(msg)),
        Ok(keys) => {
            let ghost kv = keys.deep_view();
            let mut i: usize = 0;
            while i < keys.len()
                invariant
                    0 <= i <= keys.len(),
                    references@ == bib_refs_fold(kv, old(references)@, i as int),
                decreases keys.len() - i,
            {
                proof {
                    assert(keys@[i as int].deep_view() == kv[i as int]);
                }
                references.insert(keys[i].clone(), build_bib_label(i));
                i = i + 1;
            }
            Ok(())
        },
    }
}

} // verus!
