use liteparse::conversion::{
    classify_extension, conversion_for, convert_to_pdf, is_pdf, is_supported_extension,
    ConversionError, ConversionTool, ExtensionKind,
};
use liteparse::path_text::extension;

#[test]
fn extension_takes_text_after_last_dot() {
    assert_eq!(extension("doc.pdf"), Some("pdf"));
    assert_eq!(extension("doc.PDF"), Some("PDF"));
    assert_eq!(extension("a/b/c.txt"), Some("txt"));
    assert_eq!(extension("archive.tar.gz"), Some("gz"));
    assert_eq!(extension("dot."), Some(""));
    assert_eq!(extension("dir.d/file"), None);
    assert_eq!(extension("noext"), None);
}

#[test]
fn extension_of_hidden_and_special_names() {
    assert_eq!(extension(".pdf"), None);
    assert_eq!(extension("a/.pdf"), None);
    assert_eq!(extension(".hidden.pdf"), Some("pdf"));
    assert_eq!(extension("..pdf"), Some("pdf"));
    assert_eq!(extension("."), None);
    assert_eq!(extension(".."), None);
    assert_eq!(extension("./"), None);
    assert_eq!(extension("/"), None);
    assert_eq!(extension(""), None);
    assert_eq!(extension("a.pdf/.."), None);
}

#[test]
fn extension_ignores_trailing_separators_and_dot_components() {
    assert_eq!(extension("a.pdf/"), Some("pdf"));
    assert_eq!(extension("a.pdf//"), Some("pdf"));
    assert_eq!(extension("a.pdf/."), Some("pdf"));
    assert_eq!(extension("a.pdf/./"), Some("pdf"));
    assert_eq!(extension("./x.pdf"), Some("pdf"));
    assert_eq!(extension("x/./y.png"), Some("png"));
}

#[test]
fn is_pdf_compares_without_ascii_case() {
    assert!(is_pdf("report.pdf"));
    assert!(is_pdf("report.PDF"));
    assert!(is_pdf("report.Pdf"));
    assert!(is_pdf("/tmp/dir/report.pDf"));
    assert!(is_pdf("résumé.pdf"));
    assert!(!is_pdf("report.pdfx"));
    assert!(!is_pdf("report.pd"));
    assert!(!is_pdf("pdf"));
    assert!(!is_pdf(".pdf"));
    assert!(!is_pdf(""));
    assert!(!is_pdf("report.docx"));
    assert!(!is_pdf("report.ＰＤＦ"));
}

#[test]
fn is_pdf_law_trailing_separator() {
    assert_eq!(is_pdf("dir/report.pdf/"), is_pdf("dir/report.pdf"));
    assert!(is_pdf("dir/report.pdf/"));
}

#[test]
fn supported_extensions_of_each_kind() {
    for path in [
        "a.pdf", "a.doc", "a.docx", "a.docm", "a.dot", "a.dotm", "a.dotx", "a.odt", "a.ott",
        "a.rtf", "a.pages", "a.ppt", "a.pptx", "a.pptm", "a.pot", "a.potm", "a.potx", "a.odp",
        "a.otp", "a.key", "a.xls", "a.xlsx", "a.xlsm", "a.xlsb", "a.ods", "a.ots", "a.csv",
        "a.tsv", "a.numbers", "a.jpg", "a.jpeg", "a.png", "a.gif", "a.bmp", "a.tiff", "a.tif",
        "a.webp", "a.svg",
    ] {
        assert!(is_supported_extension(path), "{path}");
    }
}

#[test]
fn supported_extension_is_case_insensitive() {
    assert!(is_supported_extension("REPORT.PDF"));
    assert!(is_supported_extension("photo.JPG"));
    assert!(is_supported_extension("Book.Numbers"));
    // The Kelvin sign lower-cases to an ASCII `k`.
    assert!(is_supported_extension("slides.\u{212A}EY"));
}

#[test]
fn unsupported_extensions() {
    assert!(!is_supported_extension("notes.txt"));
    assert!(!is_supported_extension("archive.tar.gz"));
    assert!(!is_supported_extension("noext"));
    assert!(!is_supported_extension(".pdf"));
    assert!(!is_supported_extension("dot."));
    assert!(!is_supported_extension("dir.docx/.."));
}

#[test]
fn classify_extension_exact_values() {
    assert_eq!(classify_extension("pdf"), ExtensionKind::Pdf);
    assert_eq!(classify_extension("docx"), ExtensionKind::Document);
    assert_eq!(classify_extension("key"), ExtensionKind::Presentation);
    assert_eq!(classify_extension("csv"), ExtensionKind::Spreadsheet);
    assert_eq!(classify_extension("svg"), ExtensionKind::Image);
    assert_eq!(classify_extension("PDF"), ExtensionKind::Unsupported);
    assert_eq!(classify_extension(""), ExtensionKind::Unsupported);
}

#[test]
fn convert_pdf_returns_path_unchanged() {
    assert_eq!(convert_to_pdf("dir/report.pdf", None).unwrap(), "dir/report.pdf");
    assert_eq!(convert_to_pdf("REPORT.PDF", Some("secret")).unwrap(), "REPORT.PDF");
    assert_eq!(convert_to_pdf("dir/report.pdf/", None).unwrap(), "dir/report.pdf/");
}

#[test]
fn convert_office_requires_libreoffice() {
    for (path, ext) in [("a.DOCX", "docx"), ("b.pptx", "pptx"), ("c.xlsx", "xlsx")] {
        match convert_to_pdf(path, None) {
            Err(ConversionError::ToolRequired { extension, tool }) => {
                assert_eq!(extension, ext);
                assert_eq!(tool, ConversionTool::LibreOffice);
            }
            other => panic!("unexpected result for {path}: {other:?}"),
        }
    }
    let err = convert_to_pdf("a.docx", None).unwrap_err();
    assert_eq!(
        err.message(),
        "conversion from .docx to PDF requires LibreOffice, which is not yet supported. \
         Convert the file to PDF manually."
    );
}

#[test]
fn convert_image_requires_imagemagick() {
    match convert_to_pdf("scan.PNG", None) {
        Err(ConversionError::ToolRequired { extension, tool }) => {
            assert_eq!(extension, "png");
            assert_eq!(tool, ConversionTool::ImageMagick);
        }
        other => panic!("unexpected result: {other:?}"),
    }
    assert_eq!(
        convert_to_pdf("scan.png", None).unwrap_err().message(),
        "conversion from .png to PDF requires ImageMagick, which is not yet supported. \
         Convert the file to PDF manually."
    );
}

#[test]
fn convert_unsupported_format() {
    match convert_to_pdf("notes.TXT", None) {
        Err(ConversionError::UnsupportedFormat { extension }) => assert_eq!(extension, "txt"),
        other => panic!("unexpected result: {other:?}"),
    }
    assert_eq!(
        convert_to_pdf("notes.txt", None).unwrap_err().message(),
        "unsupported file format: .txt"
    );
    assert_eq!(
        convert_to_pdf("README", None).unwrap_err().message(),
        "unsupported file format: ."
    );
}

#[test]
fn supported_iff_convert_does_not_refuse_format() {
    for path in ["a.pdf", "a.docx", "a.png", "a.txt", "README", "a.KEY", "x/.svg"] {
        let refused = matches!(
            convert_to_pdf(path, None),
            Err(ConversionError::UnsupportedFormat { .. })
        );
        assert_eq!(is_supported_extension(path), !refused, "{path}");
    }
}

#[test]
fn pdf_needs_no_conversion() {
    for path in ["a.pdf", "A.PDF", "x/y.Pdf/", "z.pDF/."] {
        assert!(is_pdf(path));
        assert!(is_supported_extension(path));
        assert_eq!(convert_to_pdf(path, None).unwrap(), path);
    }
}

#[test]
fn conversion_for_takes_lowered_extension() {
    assert_eq!(conversion_for("a.PDF", "pdf".to_string()).unwrap(), "a.PDF");
    match conversion_for("a.Key", "key".to_string()) {
        Err(ConversionError::ToolRequired { extension, tool }) => {
            assert_eq!(extension, "key");
            assert_eq!(tool, ConversionTool::LibreOffice);
        }
        other => panic!("unexpected result: {other:?}"),
    }
    assert!(matches!(
        conversion_for("a.KEY", "KEY".to_string()),
        Err(ConversionError::UnsupportedFormat { .. })
    ));
}

fn std_path_extension(path: &str) -> Option<&str> {
    std::path::Path::new(path).extension().and_then(|e| e.to_str())
}

fn all_paths(alphabet: &[char], max_len: usize) -> Vec<String> {
    let mut out = vec![String::new()];
    let mut frontier = vec![String::new()];
    for _ in 0..max_len {
        let mut next = Vec::new();
        for p in &frontier {
            for c in alphabet {
                let mut q = p.clone();
                q.push(*c);
                next.push(q);
            }
        }
        out.extend(next.iter().cloned());
        frontier = next;
    }
    out
}

#[test]
fn extension_agrees_with_std_path_on_short_paths() {
    for p in all_paths(&['a', '.', '/', 'é'], 7) {
        assert_eq!(extension(&p), std_path_extension(&p), "path {p:?}");
    }
}

#[test]
fn is_pdf_agrees_with_std_path_on_short_paths() {
    for p in all_paths(&['.', '/', 'p', 'D', 'f', 'x'], 6) {
        let expected = std::path::Path::new(&p)
            .extension()
            .map(|e| e.eq_ignore_ascii_case("pdf"))
            .unwrap_or(false);
        assert_eq!(is_pdf(&p), expected, "path {p:?}");
    }
}

#[test]
fn password_plays_no_part() {
    for path in ["a.pdf", "a.docx", "a.txt"] {
        let with = convert_to_pdf(path, Some("pw"));
        let without = convert_to_pdf(path, None);
        match (with, without) {
            (Ok(a), Ok(b)) => assert_eq!(a, b),
            (Err(a), Err(b)) => assert_eq!(a.message(), b.message()),
            _ => panic!("results differ for {path}"),
        }
    }
}

#[test]
fn supported_ignores_ascii_case() {
    for path in ["a.docx", "B.Key", "c.PNG", "d.txt", "x/y.NuMbErS", "README", "e.pdf"] {
        let r = is_supported_extension(path);
        assert_eq!(is_supported_extension(&path.to_ascii_uppercase()), r, "{path}");
        assert_eq!(is_supported_extension(&path.to_ascii_lowercase()), r, "{path}");
    }
    assert!(is_supported_extension("a.DOCX"));
}

#[test]
fn is_pdf_ignores_ascii_case() {
    for path in ["a.pdf", "a.PdF", "a.pdx", "dir.pdf/x", "é.PDF"] {
        let r = is_pdf(path);
        assert_eq!(is_pdf(&path.to_ascii_uppercase()), r, "{path}");
        assert_eq!(is_pdf(&path.to_ascii_lowercase()), r, "{path}");
    }
}
