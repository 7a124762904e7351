//! Input-file classification for a PDF parser, and the decisions it takes
//! over the objects of a PDF page.
//!
//! * `path_text`: the file name and extension of a Unix path.
//! * `conversion`: which files are PDFs, which formats are supported, and
//!   what converting a file to PDF gives.
//! * `page_objects`: which page objects may be glyph outlines drawn as
//!   paths, which are images, and where the n-th image stands.
pub mod conversion;
pub mod page_objects;
pub mod path_text;
