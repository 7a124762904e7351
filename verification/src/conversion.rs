//! Which input files are PDFs, which formats are supported, and what
//! converting a file to PDF amounts to.
use vstd::prelude::*;
use vstd::string::StringExecFns;
use vstd::utf8::{encode_utf8_decode_utf8, is_ascii_chars};

use crate::path_text::{
    chars_of, extension, lemma_same_separators_extension, path_extension, same_separators,
};

verus! {

broadcast use vstd::string::group_string_axioms;

/// How a file with a given (lower-case) extension is handled.
#[derive(Clone, Copy, Debug, PartialEq, Eq, Structural)]
pub enum ExtensionKind {
    /// A PDF, which needs no conversion.
    Pdf,
    /// A word-processing document.
    Document,
    /// A presentation.
    Presentation,
    /// A spreadsheet.
    Spreadsheet,
    /// A raster or vector image.
    Image,
    /// Anything else.
    Unsupported,
}

/// The external program that would turn a file into a PDF.
#[derive(Clone, Copy, Debug, PartialEq, Eq, Structural)]
pub enum ConversionTool {
    /// Office documents, presentations and spreadsheets.
    LibreOffice,
    /// Images.
    ImageMagick,
}

/// Why a file was not turned into a PDF.
#[derive(Debug)]
pub enum ConversionError {
    /// The (lower-case) extension belongs to no supported format.
    UnsupportedFormat { extension: String },
    /// The format is supported, but converting it requires `tool`, which is
    /// not available.
    ToolRequired { extension: String, tool: ConversionTool },
}

pub open spec fn is_document_extension(e: Seq<char>) -> bool {
    ||| e == "doc"@
    ||| e == "docx"@
    ||| e == "docm"@
    ||| e == "dot"@
    ||| e == "dotm"@
    ||| e == "dotx"@
    ||| e == "odt"@
    ||| e == "ott"@
    ||| e == "rtf"@
    ||| e == "pages"@
}

pub open spec fn is_presentation_extension(e: Seq<char>) -> bool {
    ||| e == "ppt"@
    ||| e == "pptx"@
    ||| e == "pptm"@
    ||| e == "pot"@
    ||| e == "potm"@
    ||| e == "potx"@
    ||| e == "odp"@
    ||| e == "otp"@
    ||| e == "key"@
}

pub open spec fn is_spreadsheet_extension(e: Seq<char>) -> bool {
    ||| e == "xls"@
    ||| e == "xlsx"@
    ||| e == "xlsm"@
    ||| e == "xlsb"@
    ||| e == "ods"@
    ||| e == "ots"@
    ||| e == "csv"@
    ||| e == "tsv"@
    ||| e == "numbers"@
}

pub open spec fn is_image_extension(e: Seq<char>) -> bool {
    ||| e == "jpg"@
    ||| e == "jpeg"@
    ||| e == "png"@
    ||| e == "gif"@
    ||| e == "bmp"@
    ||| e == "tiff"@
    ||| e == "tif"@
    ||| e == "webp"@
    ||| e == "svg"@
}

/// The kind of a lower-case extension; `pdf` is checked first, then the
/// document, presentation, spreadsheet and image lists in that order.
pub open spec fn extension_kind(e: Seq<char>) -> ExtensionKind {
    if e == "pdf"@ {
        ExtensionKind::Pdf
    } else if is_document_extension(e) {
        ExtensionKind::Document
    } else if is_presentation_extension(e) {
        ExtensionKind::Presentation
    } else if is_spreadsheet_extension(e) {
        ExtensionKind::Spreadsheet
    } else if is_image_extension(e) {
        ExtensionKind::Image
    } else {
        ExtensionKind::Unsupported
    }
}

/// The tool that converts files of kind `k` to PDF, if any does.
pub open spec fn tool_for(k: ExtensionKind) -> Option<ConversionTool> {
    match k {
        ExtensionKind::Document | ExtensionKind::Presentation | ExtensionKind::Spreadsheet => Some(
            ConversionTool::LibreOffice,
        ),
        ExtensionKind::Image => Some(ConversionTool::ImageMagick),
        _ => None,
    }
}

/// `c` with the ASCII letters `A`..`Z` mapped to `a`..`z`.
pub open spec fn ascii_lower(c: char) -> char {
    if 'A' <= c && c <= 'Z' {
        ((c as u32) + 32) as char
    } else {
        c
    }
}

/// `s` with its ASCII upper-case letters made lower-case.
pub open spec fn ascii_lowercase(s: Seq<char>) -> Seq<char> {
    s.map_values(|c: char| ascii_lower(c))
}

/// `c` with the ASCII letters `a`..`z` mapped to `A`..`Z`.
pub open spec fn ascii_upper(c: char) -> char {
    if 'a' <= c && c <= 'z' {
        ((c as u32) - 32) as char
    } else {
        c
    }
}

/// `s` with its ASCII lower-case letters made upper-case.
pub open spec fn ascii_uppercase(s: Seq<char>) -> Seq<char> {
    s.map_values(|c: char| ascii_upper(c))
}

/// `a` and `b` are equal once ASCII letters are compared without case.
pub open spec fn eq_ignore_ascii_case(a: Seq<char>, b: Seq<char>) -> bool {
    &&& a.len() == b.len()
    &&& forall|i: int| 0 <= i < a.len() ==> ascii_lower(a[i]) == ascii_lower(b[i])
}

/// What `str::to_lowercase` gives for the characters `s`.
pub uninterp spec fn unicode_lowercase(s: Seq<char>) -> Seq<char>;

/// Calls `str::to_lowercase`. Its result is named `unicode_lowercase`, a
/// function of the characters alone (Unicode's lower-case mapping, which
/// may change a string's length); the one fact stated of it is the one
/// std's documentation gives for ASCII text, which `to_lowercase` lower-cases
/// as `to_ascii_lowercase` does.
#[verifier::external_body]
fn to_lowercase(s: &str) -> (r: String)
    ensures
        r@ == unicode_lowercase(s@),
        is_ascii_chars(s@) ==> r@ == ascii_lowercase(s@),
{
    s.to_lowercase()
}

/// The lower-cased extension of a path, or the empty text when it has none.
pub open spec fn lowered_extension(p: Seq<char>) -> Seq<char> {
    match path_extension(p) {
        Some(e) => unicode_lowercase(e),
        None => Seq::empty(),
    }
}

/// The path names a PDF: its extension is `pdf` in any ASCII case.
pub open spec fn names_pdf(p: Seq<char>) -> bool {
    match path_extension(p) {
        Some(e) => eq_ignore_ascii_case(e, "pdf"@),
        None => false,
    }
}

/// The path has an extension whose lower-cased form is of a supported kind.
pub open spec fn names_supported(p: Seq<char>) -> bool {
    match path_extension(p) {
        Some(e) => extension_kind(unicode_lowercase(e)) != ExtensionKind::Unsupported,
        None => false,
    }
}

/// `r` is what converting the file `path`, whose lower-cased extension is
/// `ext`, gives: the path itself for a PDF, the tool it would take for a
/// convertible format, and the format refused otherwise.
pub open spec fn conversion_result(
    path: Seq<char>,
    ext: Seq<char>,
    r: Result<String, ConversionError>,
) -> bool {
    match tool_for(extension_kind(ext)) {
        Some(t) => r matches Err(ConversionError::ToolRequired { extension, tool }) && extension@
            == ext && tool == t,
        None => if extension_kind(ext) == ExtensionKind::Pdf {
            r matches Ok(out) && out@ == path
        } else {
            r matches Err(ConversionError::UnsupportedFormat { extension }) && extension@ == ext
        },
    }
}

/// `a` and `b` hold the same characters.
fn str_eq(a: &str, b: &str) -> (r: bool)
    ensures
        r == (a@ == b@),
{
    let x = a.as_bytes();
    let y = b.as_bytes();
    proof {
        encode_utf8_decode_utf8(a@);
        encode_utf8_decode_utf8(b@);
    }
    if x.len() != y.len() {
        return false;
    }
    let mut i: usize = 0;
    while i < x.len()
        invariant
            i <= x@.len(),
            x@.len() == y@.len(),
            forall|k: int| 0 <= k < i ==> x@[k] == y@[k],
            a@ == b@ ==> x@ == y@,
        decreases x@.len() - i,
    {
        if x[i] != y[i] {
            return false;
        }
        i = i + 1;
    }
    assert(x@ =~= y@);
    true
}

/// The kind of the lower-case extension `ext`.
pub fn classify_extension(ext: &str) -> (k: ExtensionKind)
    ensures
        k == extension_kind(ext@),
{
    if str_eq(ext, "pdf") {
        ExtensionKind::Pdf
    } else if str_eq(ext, "doc") || str_eq(ext, "docx") || str_eq(ext, "docm") || str_eq(ext, "dot")
        || str_eq(ext, "dotm") || str_eq(ext, "dotx") || str_eq(ext, "odt") || str_eq(ext, "ott")
        || str_eq(ext, "rtf") || str_eq(ext, "pages") {
        ExtensionKind::Document
    } else if str_eq(ext, "ppt") || str_eq(ext, "pptx") || str_eq(ext, "pptm") || str_eq(ext, "pot")
        || str_eq(ext, "potm") || str_eq(ext, "potx") || str_eq(ext, "odp") || str_eq(ext, "otp")
        || str_eq(ext, "key") {
        ExtensionKind::Presentation
    } else if str_eq(ext, "xls") || str_eq(ext, "xlsx") || str_eq(ext, "xlsm") || str_eq(ext, "xlsb")
        || str_eq(ext, "ods") || str_eq(ext, "ots") || str_eq(ext, "csv") || str_eq(ext, "tsv")
        || str_eq(ext, "numbers") {
        ExtensionKind::Spreadsheet
    } else if str_eq(ext, "jpg") || str_eq(ext, "jpeg") || str_eq(ext, "png") || str_eq(ext, "gif")
        || str_eq(ext, "bmp") || str_eq(ext, "tiff") || str_eq(ext, "tif") || str_eq(ext, "webp")
        || str_eq(ext, "svg") {
        ExtensionKind::Image
    } else {
        ExtensionKind::Unsupported
    }
}

/// Check if a file is a PDF (no conversion needed): its extension is `pdf`,
/// compared without regard to ASCII case.
pub fn is_pdf(path: &str) -> (r: bool)
    ensures
        r == names_pdf(path@),
{
    proof {
        reveal_strlit("pdf");
    }
    match extension(path) {
        None => false,
        Some(ext) => {
            let e = chars_of(ext);
            if e.len() != 3 {
                return false;
            }
            let r = (e[0] == 'p' || e[0] == 'P') && (e[1] == 'd' || e[1] == 'D') && (e[2] == 'f'
                || e[2] == 'F');
            proof {
                let pdf = "pdf"@;
                assert(pdf[0] == 'p' && pdf[1] == 'd' && pdf[2] == 'f');
                if r {
                    assert forall|i: int| 0 <= i < 3 implies ascii_lower(e@[i]) == ascii_lower(
                        pdf[i],
                    ) by {}
                } else {
                    if eq_ignore_ascii_case(e@, pdf) {
                        assert(ascii_lower(e@[0]) == ascii_lower(pdf[0]));
                        assert(ascii_lower(e@[1]) == ascii_lower(pdf[1]));
                        assert(ascii_lower(e@[2]) == ascii_lower(pdf[2]));
                    }
                }
            }
            r
        },
    }
}

/// An extension that is `pdf` up to ASCII case is ASCII text whose ASCII
/// lower-casing is `pdf`.
proof fn lemma_pdf_extension_lowers(e: Seq<char>)
    requires
        eq_ignore_ascii_case(e, "pdf"@),
    ensures
        is_ascii_chars(e),
        ascii_lowercase(e) == "pdf"@,
{
    reveal_strlit("pdf");
    let pdf = "pdf"@;
    assert(ascii_lower(e[0]) == ascii_lower(pdf[0]));
    assert(ascii_lower(e[1]) == ascii_lower(pdf[1]));
    assert(ascii_lower(e[2]) == ascii_lower(pdf[2]));
    assert(ascii_lowercase(e) =~= pdf);
}

/// The empty text is no supported extension.
proof fn lemma_empty_extension_unsupported()
    ensures
        extension_kind(Seq::empty()) == ExtensionKind::Unsupported,
{
    reveal_strlit("pdf");
    assert("pdf"@.len() > 0);
    reveal_strlit("doc");
    assert("doc"@.len() > 0);
    reveal_strlit("docx");
    assert("docx"@.len() > 0);
    reveal_strlit("docm");
    assert("docm"@.len() > 0);
    reveal_strlit("dot");
    assert("dot"@.len() > 0);
    reveal_strlit("dotm");
    assert("dotm"@.len() > 0);
    reveal_strlit("dotx");
    assert("dotx"@.len() > 0);
    reveal_strlit("odt");
    assert("odt"@.len() > 0);
    reveal_strlit("ott");
    assert("ott"@.len() > 0);
    reveal_strlit("rtf");
    assert("rtf"@.len() > 0);
    reveal_strlit("pages");
    assert("pages"@.len() > 0);
    reveal_strlit("ppt");
    assert("ppt"@.len() > 0);
    reveal_strlit("pptx");
    assert("pptx"@.len() > 0);
    reveal_strlit("pptm");
    assert("pptm"@.len() > 0);
    reveal_strlit("pot");
    assert("pot"@.len() > 0);
    reveal_strlit("potm");
    assert("potm"@.len() > 0);
    reveal_strlit("potx");
    assert("potx"@.len() > 0);
    reveal_strlit("odp");
    assert("odp"@.len() > 0);
    reveal_strlit("otp");
    assert("otp"@.len() > 0);
    reveal_strlit("key");
    assert("key"@.len() > 0);
    reveal_strlit("xls");
    assert("xls"@.len() > 0);
    reveal_strlit("xlsx");
    assert("xlsx"@.len() > 0);
    reveal_strlit("xlsm");
    assert("xlsm"@.len() > 0);
    reveal_strlit("xlsb");
    assert("xlsb"@.len() > 0);
    reveal_strlit("ods");
    assert("ods"@.len() > 0);
    reveal_strlit("ots");
    assert("ots"@.len() > 0);
    reveal_strlit("csv");
    assert("csv"@.len() > 0);
    reveal_strlit("tsv");
    assert("tsv"@.len() > 0);
    reveal_strlit("numbers");
    assert("numbers"@.len() > 0);
    reveal_strlit("jpg");
    assert("jpg"@.len() > 0);
    reveal_strlit("jpeg");
    assert("jpeg"@.len() > 0);
    reveal_strlit("png");
    assert("png"@.len() > 0);
    reveal_strlit("gif");
    assert("gif"@.len() > 0);
    reveal_strlit("bmp");
    assert("bmp"@.len() > 0);
    reveal_strlit("tiff");
    assert("tiff"@.len() > 0);
    reveal_strlit("tif");
    assert("tif"@.len() > 0);
    reveal_strlit("webp");
    assert("webp"@.len() > 0);
    reveal_strlit("svg");
    assert("svg"@.len() > 0);
}

/// Law: a path's format is supported exactly when converting it does not
/// refuse that format.
pub proof fn lemma_supported_iff_convertible(path: Seq<char>, r: Result<String, ConversionError>)
    requires
        conversion_result(path, lowered_extension(path), r),
    ensures
        names_supported(path) <==> !(r matches Err(ConversionError::UnsupportedFormat { .. })),
{
    if path_extension(path) is None {
        lemma_empty_extension_unsupported();
    }
}

/// Check if a file extension is supported (either PDF or convertible).
pub fn is_supported_extension(path: &str) -> (r: bool)
    ensures
        r == names_supported(path@),
        names_pdf(path@) ==> r,
        path_extension(path@) matches Some(e) ==> (is_ascii_chars(e) ==> r == (extension_kind(
            ascii_lowercase(e),
        ) != ExtensionKind::Unsupported)),
{
    match extension(path) {
        None => false,
        Some(ext) => {
            let lower = to_lowercase(ext);
            proof {
                if names_pdf(path@) {
                    lemma_pdf_extension_lowers(ext@);
                    reveal_strlit("pdf");
                }
            }
            match classify_extension(lower.as_str()) {
                ExtensionKind::Unsupported => false,
                _ => true,
            }
        },
    }
}

/// What converting the file `path` gives, once its extension has been
/// lower-cased to `ext` (the empty text when the path has no extension).
pub fn conversion_for(path: &str, ext: String) -> (r: Result<String, ConversionError>)
    ensures
        conversion_result(path@, ext@, r),
{
    match classify_extension(ext.as_str()) {
        ExtensionKind::Pdf => Ok(String::from_str(path)),
        ExtensionKind::Document | ExtensionKind::Presentation | ExtensionKind::Spreadsheet => Err(
            ConversionError::ToolRequired { extension: ext, tool: ConversionTool::LibreOffice },
        ),
        ExtensionKind::Image => Err(
            ConversionError::ToolRequired { extension: ext, tool: ConversionTool::ImageMagick },
        ),
        ExtensionKind::Unsupported => Err(ConversionError::UnsupportedFormat { extension: ext }),
    }
}

/// Attempt to convert a non-PDF file to PDF.
///
/// A PDF is returned as it is. Every other supported format needs an
/// external converter that is not available, and gives an error naming it;
/// an unsupported format gives an error naming its extension. The password
/// plays no part.
pub fn convert_to_pdf(path: &str, _password: Option<&str>) -> (r: Result<String, ConversionError>)
    ensures
        conversion_result(path@, lowered_extension(path@), r),
        names_pdf(path@) ==> (r matches Ok(out) && out@ == path@),
        path_extension(path@) matches Some(e) ==> (is_ascii_chars(e) ==> conversion_result(
            path@,
            ascii_lowercase(e),
            r,
        )),
        r matches Ok(out) ==> out@ == path@ && extension_kind(lowered_extension(path@))
            == ExtensionKind::Pdf,
        r matches Ok(_) ==> lowered_extension(path@) == "pdf"@,
{
    let ext = match extension(path) {
        Some(e) => {
            let lower = to_lowercase(e);
            proof {
                if names_pdf(path@) {
                    lemma_pdf_extension_lowers(e@);
                }
            }
            lower
        },
        None => String::new(),
    };
    proof {
        reveal_strlit("pdf");
        lemma_only_pdf_is_pdf(lowered_extension(path@));
    }
    conversion_for(path, ext)
}

/// The name under which a tool is known to users.
pub open spec fn tool_name(t: ConversionTool) -> Seq<char> {
    match t {
        ConversionTool::LibreOffice => "LibreOffice"@,
        ConversionTool::ImageMagick => "ImageMagick"@,
    }
}

/// The text that reports an error to users.
pub open spec fn error_message(e: ConversionError) -> Seq<char> {
    match e {
        ConversionError::UnsupportedFormat { extension } => "unsupported file format: ."@
            + extension@,
        ConversionError::ToolRequired { extension, tool } => "conversion from ."@ + extension@
            + " to PDF requires "@ + tool_name(tool)
            + ", which is not yet supported. Convert the file to PDF manually."@,
    }
}

impl ConversionTool {
    /// The name under which the tool is known to users.
    pub fn name(&self) -> (r: &'static str)
        ensures
            r@ == tool_name(*self),
    {
        match self {
            ConversionTool::LibreOffice => "LibreOffice",
            ConversionTool::ImageMagick => "ImageMagick",
        }
    }
}

impl ConversionError {
    /// The text that reports this error to users.
    pub fn message(&self) -> (m: String)
        ensures
            m@ == error_message(*self),
    {
        match self {
            ConversionError::UnsupportedFormat { extension } => {
                let mut m = String::from_str("unsupported file format: .");
                m.append(extension.as_str());
                m
            },
            ConversionError::ToolRequired { extension, tool } => {
                let mut m = String::from_str("conversion from .");
                m.append(extension.as_str());
                m.append(" to PDF requires ");
                m.append(tool.name());
                m.append(", which is not yet supported. Convert the file to PDF manually.");
                m
            },
        }
    }
}

/// What `is_supported_extension` promises of its answer `r` for the path `p`.
pub open spec fn supported_answer(p: Seq<char>, r: bool) -> bool {
    &&& r == names_supported(p)
    &&& path_extension(p) matches Some(e) ==> (is_ascii_chars(e) ==> r == (extension_kind(
        ascii_lowercase(e),
    ) != ExtensionKind::Unsupported))
}

/// The extension of `p` is made of ASCII characters.
pub open spec fn extension_is_ascii(p: Seq<char>) -> bool {
    path_extension(p) matches Some(e) && is_ascii_chars(e)
}

/// Changing the case of an ASCII letter keeps it a letter of the same
/// lower-case form, and leaves every other character as it is.
proof fn lemma_ascii_case_char(c: char)
    ensures
        ascii_lower(ascii_upper(c)) == ascii_lower(c),
        ascii_lower(ascii_lower(c)) == ascii_lower(c),
        (ascii_upper(c) == '/') == (c == '/'),
        (ascii_upper(c) == '.') == (c == '.'),
        (ascii_lower(c) == '/') == (c == '/'),
        (ascii_lower(c) == '.') == (c == '.'),
        '\0' <= c <= '\u{7f}' ==> '\0' <= ascii_upper(c) <= '\u{7f}',
        '\0' <= c <= '\u{7f}' ==> '\0' <= ascii_lower(c) <= '\u{7f}',
{
}

/// The extension of a path with its ASCII letters upper- or lower-cased is
/// the path's extension with its ASCII letters cased the same way.
proof fn lemma_case_mapped_extension(p: Seq<char>)
    ensures
        path_extension(p) is None <==> path_extension(ascii_uppercase(p)) is None,
        path_extension(p) is None <==> path_extension(ascii_lowercase(p)) is None,
        path_extension(p) matches Some(e) ==> path_extension(ascii_uppercase(p)) == Some(
            ascii_uppercase(e),
        ) && path_extension(ascii_lowercase(p)) == Some(ascii_lowercase(e)),
{
    let up = ascii_uppercase(p);
    let low = ascii_lowercase(p);
    assert forall|k: int| 0 <= k < p.len() implies ((p[k] == '/') == (up[k] == '/') && (p[k]
        == '.') == (up[k] == '.')) && ((p[k] == '/') == (low[k] == '/') && (p[k] == '.') == (
    low[k] == '.')) by {
        lemma_ascii_case_char(p[k]);
    }
    assert(same_separators(p, up));
    assert(same_separators(p, low));
    let (a, b) = lemma_same_separators_extension(p, up);
    let (a2, b2) = lemma_same_separators_extension(p, low);
    if path_extension(p) is Some {
        assert(up.subrange(a, b) =~= ascii_uppercase(p.subrange(a, b)));
        assert(low.subrange(a2, b2) =~= ascii_lowercase(p.subrange(a2, b2)));
    }
}

/// Law: whether a path names a PDF does not depend on the case of its ASCII
/// letters.
pub proof fn lemma_is_pdf_ignores_ascii_case(p: Seq<char>)
    ensures
        names_pdf(ascii_uppercase(p)) == names_pdf(p),
        names_pdf(ascii_lowercase(p)) == names_pdf(p),
{
    lemma_case_mapped_extension(p);
    if let Some(e) = path_extension(p) {
        let up = ascii_uppercase(e);
        let low = ascii_lowercase(e);
        assert forall|i: int| 0 <= i < e.len() implies ascii_lower(up[i]) == ascii_lower(e[i])
            && ascii_lower(low[i]) == ascii_lower(e[i]) by {
            lemma_ascii_case_char(e[i]);
        }
        if eq_ignore_ascii_case(up, "pdf"@) {
            assert forall|i: int| 0 <= i < e.len() implies ascii_lower(e[i]) == ascii_lower(
                "pdf"@[i],
            ) by {
                assert(ascii_lower(up[i]) == ascii_lower("pdf"@[i]));
            }
        }
        if eq_ignore_ascii_case(low, "pdf"@) {
            assert forall|i: int| 0 <= i < e.len() implies ascii_lower(e[i]) == ascii_lower(
                "pdf"@[i],
            ) by {
                assert(ascii_lower(low[i]) == ascii_lower("pdf"@[i]));
            }
        }
    }
}

/// Law: for a path whose extension is ASCII, `is_supported_extension` does
/// not depend on the case of the path's ASCII letters: the path, its
/// upper-cased form and its lower-cased form get the same answer.
pub proof fn lemma_supported_ignores_ascii_case(p: Seq<char>, r: bool, r_upper: bool, r_lower: bool)
    requires
        extension_is_ascii(p),
        supported_answer(p, r),
        supported_answer(ascii_uppercase(p), r_upper),
        supported_answer(ascii_lowercase(p), r_lower),
    ensures
        r == r_upper,
        r == r_lower,
{
    lemma_case_mapped_extension(p);
    let e = path_extension(p)->Some_0;
    let up = ascii_uppercase(e);
    let low = ascii_lowercase(e);
    assert forall|i: int| 0 <= i < e.len() implies '\0' <= #[trigger] up[i] <= '\u{7f}' && '\0'
        <= low[i] <= '\u{7f}' by {
        assert('\0' <= e[i] <= '\u{7f}');
        lemma_ascii_case_char(e[i]);
    }
    assert forall|i: int| 0 <= i < e.len() implies ascii_lower(up[i]) == ascii_lower(e[i])
        && ascii_lower(low[i]) == ascii_lower(e[i]) by {
        lemma_ascii_case_char(e[i]);
    }
    assert(ascii_lowercase(up) =~= ascii_lowercase(e));
    assert(ascii_lowercase(low) =~= ascii_lowercase(e));
}

/// Law: only the extension `pdf` is of the PDF kind; every other extension,
/// listed or not, needs converting or is refused.
pub proof fn lemma_only_pdf_is_pdf(e: Seq<char>)
    ensures
        extension_kind(e) == ExtensionKind::Pdf <==> e == "pdf"@,
{
}

/// Law: the supported lower-case extensions are exactly `pdf` and the
/// listed document, presentation, spreadsheet and image extensions.
pub proof fn lemma_supported_extensions_listed(e: Seq<char>)
    ensures
        extension_kind(e) != ExtensionKind::Unsupported <==> (e == "pdf"@
            || e == "doc"@
            || e == "docx"@
            || e == "docm"@
            || e == "dot"@
            || e == "dotm"@
            || e == "dotx"@
            || e == "odt"@
            || e == "ott"@
            || e == "rtf"@
            || e == "pages"@
            || e == "ppt"@
            || e == "pptx"@
            || e == "pptm"@
            || e == "pot"@
            || e == "potm"@
            || e == "potx"@
            || e == "odp"@
            || e == "otp"@
            || e == "key"@
            || e == "xls"@
            || e == "xlsx"@
            || e == "xlsm"@
            || e == "xlsb"@
            || e == "ods"@
            || e == "ots"@
            || e == "csv"@
            || e == "tsv"@
            || e == "numbers"@
            || e == "jpg"@
            || e == "jpeg"@
            || e == "png"@
            || e == "gif"@
            || e == "bmp"@
            || e == "tiff"@
            || e == "tif"@
            || e == "webp"@
            || e == "svg"@),
{
}

/// Law: the images are exactly the listed image extensions that are no
/// PDF, document, presentation or spreadsheet extension, and they need
/// ImageMagick; the other listed extensions other than `pdf` need LibreOffice.
pub proof fn lemma_tool_per_extension(e: Seq<char>)
    ensures
        (e == "doc"@
            || e == "docx"@
            || e == "docm"@
            || e == "dot"@
            || e == "dotm"@
            || e == "dotx"@
            || e == "odt"@
            || e == "ott"@
            || e == "rtf"@
            || e == "pages"@
            || e == "ppt"@
            || e == "pptx"@
            || e == "pptm"@
            || e == "pot"@
            || e == "potm"@
            || e == "potx"@
            || e == "odp"@
            || e == "otp"@
            || e == "key"@
            || e == "xls"@
            || e == "xlsx"@
            || e == "xlsm"@
            || e == "xlsb"@
            || e == "ods"@
            || e == "ots"@
            || e == "csv"@
            || e == "tsv"@
            || e == "numbers"@) ==> tool_for(extension_kind(e)) == Some(
            ConversionTool::LibreOffice,
        ),
        (e == "jpg"@
            || e == "jpeg"@
            || e == "png"@
            || e == "gif"@
            || e == "bmp"@
            || e == "tiff"@
            || e == "tif"@
            || e == "webp"@
            || e == "svg"@) ==> tool_for(extension_kind(e)) == Some(
            ConversionTool::ImageMagick,
        ),
{
    reveal_strlit("pdf");
    assert("pdf"@.len() == 3 && "pdf"@[0] == 'p' && "pdf"@[1] == 'd' && "pdf"@[2] == 'f');
    reveal_strlit("doc");
    assert("doc"@.len() == 3 && "doc"@[0] == 'd' && "doc"@[1] == 'o' && "doc"@[2] == 'c');
    reveal_strlit("docx");
    assert("docx"@.len() == 4 && "docx"@[0] == 'd' && "docx"@[1] == 'o' && "docx"@[2] == 'c' && "docx"@[3] == 'x');
    reveal_strlit("docm");
    assert("docm"@.len() == 4 && "docm"@[0] == 'd' && "docm"@[1] == 'o' && "docm"@[2] == 'c' && "docm"@[3] == 'm');
    reveal_strlit("dot");
    assert("dot"@.len() == 3 && "dot"@[0] == 'd' && "dot"@[1] == 'o' && "dot"@[2] == 't');
    reveal_strlit("dotm");
    assert("dotm"@.len() == 4 && "dotm"@[0] == 'd' && "dotm"@[1] == 'o' && "dotm"@[2] == 't' && "dotm"@[3] == 'm');
    reveal_strlit("dotx");
    assert("dotx"@.len() == 4 && "dotx"@[0] == 'd' && "dotx"@[1] == 'o' && "dotx"@[2] == 't' && "dotx"@[3] == 'x');
    reveal_strlit("odt");
    assert("odt"@.len() == 3 && "odt"@[0] == 'o' && "odt"@[1] == 'd' && "odt"@[2] == 't');
    reveal_strlit("ott");
    assert("ott"@.len() == 3 && "ott"@[0] == 'o' && "ott"@[1] == 't' && "ott"@[2] == 't');
    reveal_strlit("rtf");
    assert("rtf"@.len() == 3 && "rtf"@[0] == 'r' && "rtf"@[1] == 't' && "rtf"@[2] == 'f');
    reveal_strlit("pages");
    assert("pages"@.len() == 5 && "pages"@[0] == 'p' && "pages"@[1] == 'a' && "pages"@[2] == 'g' && "pages"@[3] == 'e' && "pages"@[4] == 's');
    reveal_strlit("ppt");
    assert("ppt"@.len() == 3 && "ppt"@[0] == 'p' && "ppt"@[1] == 'p' && "ppt"@[2] == 't');
    reveal_strlit("pptx");
    assert("pptx"@.len() == 4 && "pptx"@[0] == 'p' && "pptx"@[1] == 'p' && "pptx"@[2] == 't' && "pptx"@[3] == 'x');
    reveal_strlit("pptm");
    assert("pptm"@.len() == 4 && "pptm"@[0] == 'p' && "pptm"@[1] == 'p' && "pptm"@[2] == 't' && "pptm"@[3] == 'm');
    reveal_strlit("pot");
    assert("pot"@.len() == 3 && "pot"@[0] == 'p' && "pot"@[1] == 'o' && "pot"@[2] == 't');
    reveal_strlit("potm");
    assert("potm"@.len() == 4 && "potm"@[0] == 'p' && "potm"@[1] == 'o' && "potm"@[2] == 't' && "potm"@[3] == 'm');
    reveal_strlit("potx");
    assert("potx"@.len() == 4 && "potx"@[0] == 'p' && "potx"@[1] == 'o' && "potx"@[2] == 't' && "potx"@[3] == 'x');
    reveal_strlit("odp");
    assert("odp"@.len() == 3 && "odp"@[0] == 'o' && "odp"@[1] == 'd' && "odp"@[2] == 'p');
    reveal_strlit("otp");
    assert("otp"@.len() == 3 && "otp"@[0] == 'o' && "otp"@[1] == 't' && "otp"@[2] == 'p');
    reveal_strlit("key");
    assert("key"@.len() == 3 && "key"@[0] == 'k' && "key"@[1] == 'e' && "key"@[2] == 'y');
    reveal_strlit("xls");
    assert("xls"@.len() == 3 && "xls"@[0] == 'x' && "xls"@[1] == 'l' && "xls"@[2] == 's');
    reveal_strlit("xlsx");
    assert("xlsx"@.len() == 4 && "xlsx"@[0] == 'x' && "xlsx"@[1] == 'l' && "xlsx"@[2] == 's' && "xlsx"@[3] == 'x');
    reveal_strlit("xlsm");
    assert("xlsm"@.len() == 4 && "xlsm"@[0] == 'x' && "xlsm"@[1] == 'l' && "xlsm"@[2] == 's' && "xlsm"@[3] == 'm');
    reveal_strlit("xlsb");
    assert("xlsb"@.len() == 4 && "xlsb"@[0] == 'x' && "xlsb"@[1] == 'l' && "xlsb"@[2] == 's' && "xlsb"@[3] == 'b');
    reveal_strlit("ods");
    assert("ods"@.len() == 3 && "ods"@[0] == 'o' && "ods"@[1] == 'd' && "ods"@[2] == 's');
    reveal_strlit("ots");
    assert("ots"@.len() == 3 && "ots"@[0] == 'o' && "ots"@[1] == 't' && "ots"@[2] == 's');
    reveal_strlit("csv");
    assert("csv"@.len() == 3 && "csv"@[0] == 'c' && "csv"@[1] == 's' && "csv"@[2] == 'v');
    reveal_strlit("tsv");
    assert("tsv"@.len() == 3 && "tsv"@[0] == 't' && "tsv"@[1] == 's' && "tsv"@[2] == 'v');
    reveal_strlit("numbers");
    assert("numbers"@.len() == 7 && "numbers"@[0] == 'n' && "numbers"@[1] == 'u' && "numbers"@[2] == 'm' && "numbers"@[3] == 'b' && "numbers"@[4] == 'e' && "numbers"@[5] == 'r' && "numbers"@[6] == 's');
    reveal_strlit("jpg");
    assert("jpg"@.len() == 3 && "jpg"@[0] == 'j' && "jpg"@[1] == 'p' && "jpg"@[2] == 'g');
    reveal_strlit("jpeg");
    assert("jpeg"@.len() == 4 && "jpeg"@[0] == 'j' && "jpeg"@[1] == 'p' && "jpeg"@[2] == 'e' && "jpeg"@[3] == 'g');
    reveal_strlit("png");
    assert("png"@.len() == 3 && "png"@[0] == 'p' && "png"@[1] == 'n' && "png"@[2] == 'g');
    reveal_strlit("gif");
    assert("gif"@.len() == 3 && "gif"@[0] == 'g' && "gif"@[1] == 'i' && "gif"@[2] == 'f');
    reveal_strlit("bmp");
    assert("bmp"@.len() == 3 && "bmp"@[0] == 'b' && "bmp"@[1] == 'm' && "bmp"@[2] == 'p');
    reveal_strlit("tiff");
    assert("tiff"@.len() == 4 && "tiff"@[0] == 't' && "tiff"@[1] == 'i' && "tiff"@[2] == 'f' && "tiff"@[3] == 'f');
    reveal_strlit("tif");
    assert("tif"@.len() == 3 && "tif"@[0] == 't' && "tif"@[1] == 'i' && "tif"@[2] == 'f');
    reveal_strlit("webp");
    assert("webp"@.len() == 4 && "webp"@[0] == 'w' && "webp"@[1] == 'e' && "webp"@[2] == 'b' && "webp"@[3] == 'p');
    reveal_strlit("svg");
    assert("svg"@.len() == 3 && "svg"@[0] == 's' && "svg"@[1] == 'v' && "svg"@[2] == 'g');
}

/// Law: each kind holds exactly its listed extensions.
pub proof fn lemma_kind_per_extension(e: Seq<char>)
    ensures
        extension_kind(e) == ExtensionKind::Document <==> (e == "doc"@
            || e == "docx"@
            || e == "docm"@
            || e == "dot"@
            || e == "dotm"@
            || e == "dotx"@
            || e == "odt"@
            || e == "ott"@
            || e == "rtf"@
            || e == "pages"@),
        extension_kind(e) == ExtensionKind::Presentation <==> (e == "ppt"@
            || e == "pptx"@
            || e == "pptm"@
            || e == "pot"@
            || e == "potm"@
            || e == "potx"@
            || e == "odp"@
            || e == "otp"@
            || e == "key"@),
        extension_kind(e) == ExtensionKind::Spreadsheet <==> (e == "xls"@
            || e == "xlsx"@
            || e == "xlsm"@
            || e == "xlsb"@
            || e == "ods"@
            || e == "ots"@
            || e == "csv"@
            || e == "tsv"@
            || e == "numbers"@),
        extension_kind(e) == ExtensionKind::Image <==> (e == "jpg"@
            || e == "jpeg"@
            || e == "png"@
            || e == "gif"@
            || e == "bmp"@
            || e == "tiff"@
            || e == "tif"@
            || e == "webp"@
            || e == "svg"@),
{
    reveal_strlit("pdf");
    assert("pdf"@.len() == 3 && "pdf"@[0] == 'p' && "pdf"@[1] == 'd' && "pdf"@[2] == 'f');
    reveal_strlit("doc");
    assert("doc"@.len() == 3 && "doc"@[0] == 'd' && "doc"@[1] == 'o' && "doc"@[2] == 'c');
    reveal_strlit("docx");
    assert("docx"@.len() == 4 && "docx"@[0] == 'd' && "docx"@[1] == 'o' && "docx"@[2] == 'c' && "docx"@[3] == 'x');
    reveal_strlit("docm");
    assert("docm"@.len() == 4 && "docm"@[0] == 'd' && "docm"@[1] == 'o' && "docm"@[2] == 'c' && "docm"@[3] == 'm');
    reveal_strlit("dot");
    assert("dot"@.len() == 3 && "dot"@[0] == 'd' && "dot"@[1] == 'o' && "dot"@[2] == 't');
    reveal_strlit("dotm");
    assert("dotm"@.len() == 4 && "dotm"@[0] == 'd' && "dotm"@[1] == 'o' && "dotm"@[2] == 't' && "dotm"@[3] == 'm');
    reveal_strlit("dotx");
    assert("dotx"@.len() == 4 && "dotx"@[0] == 'd' && "dotx"@[1] == 'o' && "dotx"@[2] == 't' && "dotx"@[3] == 'x');
    reveal_strlit("odt");
    assert("odt"@.len() == 3 && "odt"@[0] == 'o' && "odt"@[1] == 'd' && "odt"@[2] == 't');
    reveal_strlit("ott");
    assert("ott"@.len() == 3 && "ott"@[0] == 'o' && "ott"@[1] == 't' && "ott"@[2] == 't');
    reveal_strlit("rtf");
    assert("rtf"@.len() == 3 && "rtf"@[0] == 'r' && "rtf"@[1] == 't' && "rtf"@[2] == 'f');
    reveal_strlit("pages");
    assert("pages"@.len() == 5 && "pages"@[0] == 'p' && "pages"@[1] == 'a' && "pages"@[2] == 'g' && "pages"@[3] == 'e' && "pages"@[4] == 's');
    reveal_strlit("ppt");
    assert("ppt"@.len() == 3 && "ppt"@[0] == 'p' && "ppt"@[1] == 'p' && "ppt"@[2] == 't');
    reveal_strlit("pptx");
    assert("pptx"@.len() == 4 && "pptx"@[0] == 'p' && "pptx"@[1] == 'p' && "pptx"@[2] == 't' && "pptx"@[3] == 'x');
    reveal_strlit("pptm");
    assert("pptm"@.len() == 4 && "pptm"@[0] == 'p' && "pptm"@[1] == 'p' && "pptm"@[2] == 't' && "pptm"@[3] == 'm');
    reveal_strlit("pot");
    assert("pot"@.len() == 3 && "pot"@[0] == 'p' && "pot"@[1] == 'o' && "pot"@[2] == 't');
    reveal_strlit("potm");
    assert("potm"@.len() == 4 && "potm"@[0] == 'p' && "potm"@[1] == 'o' && "potm"@[2] == 't' && "potm"@[3] == 'm');
    reveal_strlit("potx");
    assert("potx"@.len() == 4 && "potx"@[0] == 'p' && "potx"@[1] == 'o' && "potx"@[2] == 't' && "potx"@[3] == 'x');
    reveal_strlit("odp");
    assert("odp"@.len() == 3 && "odp"@[0] == 'o' && "odp"@[1] == 'd' && "odp"@[2] == 'p');
    reveal_strlit("otp");
    assert("otp"@.len() == 3 && "otp"@[0] == 'o' && "otp"@[1] == 't' && "otp"@[2] == 'p');
    reveal_strlit("key");
    assert("key"@.len() == 3 && "key"@[0] == 'k' && "key"@[1] == 'e' && "key"@[2] == 'y');
    reveal_strlit("xls");
    assert("xls"@.len() == 3 && "xls"@[0] == 'x' && "xls"@[1] == 'l' && "xls"@[2] == 's');
    reveal_strlit("xlsx");
    assert("xlsx"@.len() == 4 && "xlsx"@[0] == 'x' && "xlsx"@[1] == 'l' && "xlsx"@[2] == 's' && "xlsx"@[3] == 'x');
    reveal_strlit("xlsm");
    assert("xlsm"@.len() == 4 && "xlsm"@[0] == 'x' && "xlsm"@[1] == 'l' && "xlsm"@[2] == 's' && "xlsm"@[3] == 'm');
    reveal_strlit("xlsb");
    assert("xlsb"@.len() == 4 && "xlsb"@[0] == 'x' && "xlsb"@[1] == 'l' && "xlsb"@[2] == 's' && "xlsb"@[3] == 'b');
    reveal_strlit("ods");
    assert("ods"@.len() == 3 && "ods"@[0] == 'o' && "ods"@[1] == 'd' && "ods"@[2] == 's');
    reveal_strlit("ots");
    assert("ots"@.len() == 3 && "ots"@[0] == 'o' && "ots"@[1] == 't' && "ots"@[2] == 's');
    reveal_strlit("csv");
    assert("csv"@.len() == 3 && "csv"@[0] == 'c' && "csv"@[1] == 's' && "csv"@[2] == 'v');
    reveal_strlit("tsv");
    assert("tsv"@.len() == 3 && "tsv"@[0] == 't' && "tsv"@[1] == 's' && "tsv"@[2] == 'v');
    reveal_strlit("numbers");
    assert("numbers"@.len() == 7 && "numbers"@[0] == 'n' && "numbers"@[1] == 'u' && "numbers"@[2] == 'm' && "numbers"@[3] == 'b' && "numbers"@[4] == 'e' && "numbers"@[5] == 'r' && "numbers"@[6] == 's');
    reveal_strlit("jpg");
    assert("jpg"@.len() == 3 && "jpg"@[0] == 'j' && "jpg"@[1] == 'p' && "jpg"@[2] == 'g');
    reveal_strlit("jpeg");
    assert("jpeg"@.len() == 4 && "jpeg"@[0] == 'j' && "jpeg"@[1] == 'p' && "jpeg"@[2] == 'e' && "jpeg"@[3] == 'g');
    reveal_strlit("png");
    assert("png"@.len() == 3 && "png"@[0] == 'p' && "png"@[1] == 'n' && "png"@[2] == 'g');
    reveal_strlit("gif");
    assert("gif"@.len() == 3 && "gif"@[0] == 'g' && "gif"@[1] == 'i' && "gif"@[2] == 'f');
    reveal_strlit("bmp");
    assert("bmp"@.len() == 3 && "bmp"@[0] == 'b' && "bmp"@[1] == 'm' && "bmp"@[2] == 'p');
    reveal_strlit("tiff");
    assert("tiff"@.len() == 4 && "tiff"@[0] == 't' && "tiff"@[1] == 'i' && "tiff"@[2] == 'f' && "tiff"@[3] == 'f');
    reveal_strlit("tif");
    assert("tif"@.len() == 3 && "tif"@[0] == 't' && "tif"@[1] == 'i' && "tif"@[2] == 'f');
    reveal_strlit("webp");
    assert("webp"@.len() == 4 && "webp"@[0] == 'w' && "webp"@[1] == 'e' && "webp"@[2] == 'b' && "webp"@[3] == 'p');
    reveal_strlit("svg");
    assert("svg"@.len() == 3 && "svg"@[0] == 's' && "svg"@[1] == 'v' && "svg"@[2] == 'g');
}

/// Law: a path names a PDF exactly when its extension is three characters,
/// `p` or `P`, then `d` or `D`, then `f` or `F`.
pub proof fn lemma_names_pdf_letters(p: Seq<char>)
    ensures
        names_pdf(p) <==> (path_extension(p) matches Some(e) && e.len() == 3 && (e[0] == 'p'
            || e[0] == 'P') && (e[1] == 'd' || e[1] == 'D') && (e[2] == 'f' || e[2] == 'F')),
{
    reveal_strlit("pdf");
    let pdf = "pdf"@;
    assert(pdf.len() == 3 && pdf[0] == 'p' && pdf[1] == 'd' && pdf[2] == 'f');
    if let Some(e) = path_extension(p) {
        if e.len() == 3 {
            assert(ascii_lower(e[0]) == 'p' <==> (e[0] == 'p' || e[0] == 'P'));
            assert(ascii_lower(e[1]) == 'd' <==> (e[1] == 'd' || e[1] == 'D'));
            assert(ascii_lower(e[2]) == 'f' <==> (e[2] == 'f' || e[2] == 'F'));
            if (e[0] == 'p' || e[0] == 'P') && (e[1] == 'd' || e[1] == 'D') && (e[2] == 'f'
                || e[2] == 'F') {
                assert forall|i: int| 0 <= i < e.len() implies ascii_lower(e[i]) == ascii_lower(
                    pdf[i],
                ) by {
                    assert(i == 0 || i == 1 || i == 2);
                }
            }
        }
    }
}

} // verus!
