# liteparse

Input-file classification and page-object decisions for a PDF parser,
verified with Verus.

* `src/` — the verified library.
  * `path_text.rs`: the file name and extension of a Unix path, specified
    over its components (runs between `/` separators, `.` components passed
    over, `..` giving no file name).
  * `conversion.rs`: `is_pdf`, `is_supported_extension`, `convert_to_pdf`,
    the extension kinds, and the errors with their messages. Lower-casing
    goes through `str::to_lowercase`, whose result the contracts name.
  * `page_objects.rs`: a page's objects as plain values; which paths may be
    glyph outlines (walking forms two levels deep), which images have
    readable bounds, and where the n-th image stands.
* `tests/` — tests of the library, including comparisons of `extension` and
  `is_pdf` with `std::path::Path` on every short path over a small alphabet.
* `app/` — the page interface over PDFium (`pdfium-sys`): the PDFium calls,
  the floating-point geometry and the `std::error::Error` reporting, calling
  the library for its decisions.
