use vstd::prelude::*;

use crate::html::{indent_fits, indent_html_checked, lines_of, render_lines};

verus! {

/// Why a file could not be converted.
#[derive(Debug)]
pub enum ConversionError {
    Io(String),
    Markdown(String),
    Custom(String),
}

impl ConversionError {
    /// The human-readable form of this error.
    pub fn message(&self) -> (r: String)
        ensures
            match self {
                ConversionError::Io(e) => r@ == "IO error: "@ + e@,
                ConversionError::Markdown(e) => r@ == "Markdown error: "@ + e@,
                ConversionError::Custom(e) => r@ == "Error: "@ + e@,
            },
    {
        match self {
            ConversionError::Io(e) => {
                let mut m = String::new();
                m.append("IO error: ");
                m.append(e.as_str());
                m
            }
            ConversionError::Markdown(e) => {
                let mut m = String::new();
                m.append("Markdown error: ");
                m.append(e.as_str());
                m
            }
            ConversionError::Custom(e) => {
                let mut m = String::new();
                m.append("Error: ");
                m.append(e.as_str());
                m
            }
        }
    }
}

/// The HTML that GitHub-flavored markdown rendering produces for a source
/// text, with dangerous raw HTML and protocols allowed through; the
/// rendering is a function of the source text alone.
pub uninterp spec fn gfm_html_of(src: Seq<char>) -> Seq<char>;

/// Relies on `markdown::to_html_with_options` with `Options::gfm()` plus
/// `allow_dangerous_html` and `allow_dangerous_protocol`: the compiled
/// HTML depends only on the source text, and the call always succeeds —
/// the library constructs an error only in its MDX constructs, which the
/// GFM options leave off.  The error arm maps the message's `reason`
/// field through, for the shape of the signature alone.
#[verifier::external_body]
fn markdown_to_html_gfm(src: &str) -> (r: Result<String, String>)
    ensures
        r is Ok,
        r matches Ok(h) ==> h@ == gfm_html_of(src@),
{
    let mut options = markdown::Options::gfm();
    options.compile.allow_dangerous_html = true;
    options.compile.allow_dangerous_protocol = true;
    markdown::to_html_with_options(src, &options).map_err(|m| m.reason)
}

/// The head block of a converted document: fixed meta tags and the title.
pub open spec fn head_of(title: Seq<char>) -> Seq<char> {
    "    <meta charset=\"UTF-8\">\n    <meta name=\"viewport\" content=\"width=device-width, initial-scale=1.0\">\n    <title>"@
        + title + "</title>"@
}

/// A full converted document: the fixed skeleton around a head block and
/// an indented body.
pub open spec fn document_of(title: Seq<char>, body: Seq<char>) -> Seq<char> {
    "<!DOCTYPE html>\n<html lang=\"en\">\n<head>\n"@ + head_of(title) + "\n</head>\n<body>\n"@
        + body + "</body>\n</html>"@
}

/// Wrap an already-rendered HTML body, re-indented by four spaces, in the
/// fixed document skeleton; the indent pass reports the bodies it cannot
/// carry through.
pub fn html_page(title: &str, body_html: &str) -> (r: Result<String, ConversionError>)
    ensures
        match r {
            Ok(doc) => indent_fits(lines_of(body_html@), 4) && (render_lines(
                lines_of(body_html@),
                4,
            ) matches Some(b) && doc@ == document_of(title@, b)),
            Err(e) => e is Custom && !indent_fits(lines_of(body_html@), 4),
        },
{
    match indent_html_checked(body_html, 4) {
        Option::Some(body) => {
            let mut doc = String::new();
            doc.append("<!DOCTYPE html>\n<html lang=\"en\">\n<head>\n");
            doc.append(
                "    <meta charset=\"UTF-8\">\n    <meta name=\"viewport\" content=\"width=device-width, initial-scale=1.0\">\n    <title>",
            );
            doc.append(title);
            doc.append("</title>");
            doc.append("\n</head>\n<body>\n");
            doc.append(body.as_str());
            doc.append("</body>\n</html>");
            proof {
                assert(doc@ =~= document_of(title@, body@));
            }
            Ok(doc)
        }
        Option::None => Err(ConversionError::Custom("indentation underflow".to_owned())),
    }
}

/// Convert one markdown source text into a full HTML document titled with
/// the file stem: GitHub-flavored rendering, then re-indentation, then the
/// fixed skeleton.  The rendering step itself never fails, so the one
/// failure is a body whose re-indentation the indent pass cannot carry.
pub fn markdown_document(title: &str, markdown_src: &str) -> (r: Result<String, ConversionError>)
    ensures
        match r {
            Ok(doc) => indent_fits(lines_of(gfm_html_of(markdown_src@)), 4) && (render_lines(
                lines_of(gfm_html_of(markdown_src@)),
                4,
            ) matches Some(b) && doc@ == document_of(title@, b)),
            Err(e) => e is Custom && !indent_fits(lines_of(gfm_html_of(markdown_src@)), 4),
        },
{
    match markdown_to_html_gfm(markdown_src) {
        Ok(html) => html_page(title, html.as_str()),
        Err(m) => Err(ConversionError::Markdown(m)),
    }
}

/// Whether a file name carries the `md` extension, as `Path::extension`
/// reads it: the part after the last dot, provided the dot is not the
/// leading character.
pub open spec fn is_md_name(name: Seq<char>) -> bool {
    exists|d: int|
        0 < d < name.len() && name[d] == '.' && (forall|j: int| d < j < name.len() ==> name[j] != '.')
            && #[trigger] name.skip(d + 1) =~= "md"@
}

/// Decide whether a directory entry's file name names a markdown source.
pub fn is_markdown_filename(name: &str) -> (r: bool)
    ensures
        r == is_md_name(name@),
{
    let cs = crate::text::chars_of_str(name);
    let mut d: usize = cs.len();
    let mut i: usize = 0;
    while i < cs.len()
        invariant
            i <= cs.len(),
            cs@ == name@,
            d == cs.len() || (d < i && cs@[d as int] == '.'),
            forall|j: int| d < j < i ==> cs@[j] != '.',
            d == cs.len() ==> forall|j: int| 0 <= j < i ==> cs@[j] != '.',
        decreases cs.len() - i,
    {
        if cs[i] == '.' {
            d = i;
        }
        i = i + 1;
    }
    proof {
        reveal_strlit("md");
    }
    if d == cs.len() || d == 0 {
        proof {
            assert forall|dd: int| 0 < dd < name@.len() implies name@[dd] != '.' by {
            }
        }
        return false;
    }
    let ok = cs.len() - d == 3 && cs[d + 1] == 'm' && cs[d + 2] == 'd';
    proof {
        if ok {
            assert(name@.skip(d + 1) =~= "md"@);
        } else {
            assert forall|dd: int|
                0 < dd < name@.len() && name@[dd] == '.' && (forall|j: int|
                    dd < j < name@.len() ==> name@[j] != '.') implies !(#[trigger] name@.skip(
                dd + 1,
            ) =~= "md"@) by {
                assert(dd == d) by {
                    if dd < d as int {
                        assert(name@[d as int] == '.');
                    }
                }
                if name@.skip(dd + 1) =~= "md"@ {
                    assert(name@.skip(dd + 1).len() == 2);
                    assert(name@[d + 1] == 'm' && name@[d + 2] == 'd') by {
                        assert(name@.skip(d + 1)[0] == name@[d + 1]);
                        assert(name@.skip(d + 1)[1] == name@[d + 2]);
                    }
                }
            }
        }
    }
    ok
}

} // verus!
