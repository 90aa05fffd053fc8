//! Where and how a resized picture is written: its path, its format, the
//! scratch file the JPEG encoder writes first, and the layout of the rows it
//! is fed.
use vstd::prelude::*;
use crate::params::ResizeParameter;
use crate::text::chars_of;

verus! {

// ---------------------------------------------------------------------------
// Paths
// ---------------------------------------------------------------------------

/// The characters of an optional string.
pub open spec fn opt_view(o: Option<String>) -> Option<Seq<char>> {
    match o {
        Some(s) => Some(s@),
        None => None,
    }
}

// The path names below depend on the path syntax of the target the program is
// built for (separators, prefixes), which is fixed for a build.

/// What `Path::parent` gives for a path, as text.
pub uninterp spec fn path_parent_of(path: Seq<char>) -> Option<Seq<char>>;

/// What `Path::file_stem` gives for a path, as text.
pub uninterp spec fn path_file_stem_of(path: Seq<char>) -> Option<Seq<char>>;

/// What `Path::file_name` gives for a path, as text.
pub uninterp spec fn path_file_name_of(path: Seq<char>) -> Option<Seq<char>>;

/// What `Path::join` gives for a base and a further part, as text.
pub uninterp spec fn path_joined(base: Seq<char>, part: Seq<char>) -> Seq<char>;

/// What `Path::with_extension` gives for a path and an extension, as text.
pub uninterp spec fn path_with_extension_of(path: Seq<char>, ext: Seq<char>) -> Seq<char>;

/// What `Path::strip_prefix` gives for a path and a base folder, as text
/// (`None` where the base is not a leading part of the path).
pub uninterp spec fn path_stripped_of(path: Seq<char>, base: Seq<char>) -> Option<Seq<char>>;

/// What `std::path::is_separator` says of a character.
pub uninterp spec fn is_path_separator(c: char) -> bool;

/// An extension holds no path separator (else `with_extension` panics).
pub open spec fn valid_extension(ext: Seq<char>) -> bool {
    forall|i: int| 0 <= i < ext.len() ==> !is_path_separator(#[trigger] ext[i])
}

/// `std::path::Path::parent`. The result is named by `path_parent_of`; what the
/// platform's path syntax makes of the text is not stated.
#[verifier::external_body]
fn path_parent(path: &str) -> (r: Option<String>)
    ensures
        opt_view(r) == path_parent_of(path@),
{
    match std::path::Path::new(path).parent() {
        Some(p) => Some(p.to_string_lossy().into_owned()),
        None => None,
    }
}

/// `std::path::Path::file_stem`. The result is named by `path_file_stem_of`;
/// what the platform's path syntax makes of the text is not stated.
#[verifier::external_body]
fn path_file_stem(path: &str) -> (r: Option<String>)
    ensures
        opt_view(r) == path_file_stem_of(path@),
{
    match std::path::Path::new(path).file_stem() {
        Some(p) => Some(p.to_string_lossy().into_owned()),
        None => None,
    }
}

/// `std::path::Path::file_name`. The result is named by `path_file_name_of`;
/// what the platform's path syntax makes of the text is not stated.
#[verifier::external_body]
fn path_file_name(path: &str) -> (r: Option<String>)
    ensures
        opt_view(r) == path_file_name_of(path@),
{
    match std::path::Path::new(path).file_name() {
        Some(p) => Some(p.to_string_lossy().into_owned()),
        None => None,
    }
}

/// `std::path::Path::join`. The result is named by `path_joined`; what the
/// platform's path syntax makes of the text is not stated.
#[verifier::external_body]
fn path_join(base: &str, part: &str) -> (r: String)
    ensures
        r@ == path_joined(base@, part@),
{
    std::path::Path::new(base).join(part).to_string_lossy().into_owned()
}

/// `std::path::Path::with_extension`. The result is named by
/// `path_with_extension_of`; what the platform's path syntax makes of the text
/// is not stated. The function panics on an extension that holds a path
/// separator, which `requires` leaves out.
#[verifier::external_body]
fn path_with_extension(path: &str, ext: &str) -> (r: String)
    requires
        valid_extension(ext@),
    ensures
        r@ == path_with_extension_of(path@, ext@),
{
    std::path::Path::new(path).with_extension(ext).to_string_lossy().into_owned()
}

/// `std::path::Path::strip_prefix`. The result is named by `path_stripped_of`;
/// what the platform's path syntax makes of the text is not stated.
#[verifier::external_body]
fn path_strip_prefix(path: &str, base: &str) -> (r: Option<String>)
    ensures
        opt_view(r) == path_stripped_of(path@, base@),
{
    match std::path::Path::new(path).strip_prefix(base) {
        Ok(rel) => Some(rel.to_string_lossy().into_owned()),
        Err(_) => None,
    }
}

/// `std::path::is_separator`. The result is named by `is_path_separator`;
/// which characters the platform takes as separators is not stated.
#[verifier::external_body]
fn char_is_separator(c: char) -> (r: bool)
    ensures
        r == is_path_separator(c),
{
    std::path::is_separator(c)
}

/// Whether an extension holds no path separator (see `valid_extension`).
pub fn extension_is_valid(ext: &str) -> (r: bool)
    ensures
        r == valid_extension(ext@),
{
    let cs = chars_of(ext);
    let mut k: usize = 0;
    while k < cs.len()
        invariant
            k <= cs.len(),
            cs@ == ext@,
            forall|i: int| 0 <= i < k ==> !is_path_separator(#[trigger] ext@[i]),
        decreases cs.len() - k,
    {
        if char_is_separator(cs[k]) {
            return false;
        }
        k = k + 1;
    }
    true
}

/// The name of the file that a path ends in, if it ends in one.
pub fn file_name_of(path: &str) -> (r: Option<String>)
    ensures
        opt_view(r) == path_file_name_of(path@),
{
    path_file_name(path)
}

/// Where a picture lands before its name is settled: with a source folder
/// that leads the path, below the export folder at the same place as below the
/// source folder; otherwise where it is.
pub open spec fn moved_path(input: Seq<char>, para: ResizeParameter) -> Seq<char> {
    match path_stripped_of(input, para.sourcefolder@) {
        Some(rel) => path_joined(para.exportfolder@, rel),
        None => input,
    }
}

/// Where a resized picture is saved. With a source folder, the picture keeps
/// its place below the folder, the export folder taking the source folder's
/// place (see `moved_path`); without one, it goes straight into the export
/// folder. Either way it keeps its stem and takes the format as its extension.
/// `None` where the format holds a path separator, or the path has no parent
/// folder or no file stem.
pub open spec fn spec_output_path(input: Seq<char>, para: ResizeParameter) -> Option<Seq<char>> {
    if !valid_extension(para.format@) {
        None
    } else if para.sourcefolder@.len() > 0 {
        let moved = moved_path(input, para);
        match (path_parent_of(moved), path_file_stem_of(moved)) {
            (Some(dir), Some(stem)) => Some(
                path_with_extension_of(path_joined(dir, stem), para.format@),
            ),
            _ => None,
        }
    } else {
        match path_file_stem_of(input) {
            Some(stem) => Some(
                path_with_extension_of(path_joined(para.exportfolder@, stem), para.format@),
            ),
            None => None,
        }
    }
}

/// Where a resized picture is saved (see `spec_output_path`).
pub fn output_path(input: &str, para: &ResizeParameter) -> (r: Option<String>)
    ensures
        opt_view(r) == spec_output_path(input@, *para),
{
    if !extension_is_valid(para.format) {
        return None;
    }
    if !para.sourcefolder.is_empty() {
        let moved = match path_strip_prefix(input, para.sourcefolder) {
            Some(rel) => path_join(para.exportfolder, rel.as_str()),
            None => input.to_owned(),
        };
        let dir = path_parent(moved.as_str());
        let stem = path_file_stem(moved.as_str());
        match (dir, stem) {
            (Some(d), Some(s)) => {
                let joined = path_join(d.as_str(), s.as_str());
                Some(path_with_extension(joined.as_str(), para.format))
            },
            _ => None,
        }
    } else {
        match path_file_stem(input) {
            Some(s) => {
                let joined = path_join(para.exportfolder, s.as_str());
                Some(path_with_extension(joined.as_str(), para.format))
            },
            None => None,
        }
    }
}

// ---------------------------------------------------------------------------
// Formats
// ---------------------------------------------------------------------------

/// How a resized picture is written.
#[derive(PartialEq, Eq, Structural, Copy, Clone, Debug)]
pub enum OutputFormat {
    /// As JPEG, through the JPEG encoder, at the job's quality.
    Jpeg,
    /// As PNG.
    Png,
    /// Not at all: the format is neither of the two.
    Skip,
}

/// `jpg` is written as JPEG, `png` as PNG, and anything else not at all.
pub open spec fn spec_output_format(format: Seq<char>) -> OutputFormat {
    if format == "jpg"@ {
        OutputFormat::Jpeg
    } else if format == "png"@ {
        OutputFormat::Png
    } else {
        OutputFormat::Skip
    }
}

/// `jpg` and only `jpg` is written as JPEG; `png` and only `png` as PNG;
/// every other format name is skipped.
pub proof fn law_output_formats(format: Seq<char>)
    ensures
        spec_output_format(format) == OutputFormat::Jpeg <==> format == "jpg"@,
        spec_output_format(format) == OutputFormat::Png <==> format == "png"@,
        spec_output_format(format) == OutputFormat::Skip <==> format != "jpg"@ && format != "png"@,
{
    reveal_strlit("jpg");
    reveal_strlit("png");
    assert("jpg"@[0] != "png"@[0]);
}

/// Without a source folder, where a picture is saved depends only on its file
/// stem, not on the folder it came from.
pub proof fn law_flat_export_keeps_only_the_stem(a: Seq<char>, b: Seq<char>, para: ResizeParameter)
    requires
        para.sourcefolder@.len() == 0,
        path_file_stem_of(a) == path_file_stem_of(b),
    ensures
        spec_output_path(a, para) == spec_output_path(b, para),
{
}

/// With a source folder, two pictures at the same place below it are saved to
/// the same path, whichever source folder they came from, and a picture below
/// the source folder is saved below the export folder at that place.
pub proof fn law_export_keeps_place(a: Seq<char>, b: Seq<char>, rel: Seq<char>, para: ResizeParameter)
    requires
        para.sourcefolder@.len() > 0,
        path_stripped_of(a, para.sourcefolder@) == Some(rel),
        path_stripped_of(b, para.sourcefolder@) == Some(rel),
    ensures
        spec_output_path(a, para) == spec_output_path(b, para),
        moved_path(a, para) == path_joined(para.exportfolder@, rel),
{
}

/// How a picture is written for a format name (see `spec_output_format`).
pub fn output_format(format: &str) -> (r: OutputFormat)
    ensures
        r == spec_output_format(format@),
{
    proof {
        reveal_strlit("jpg");
        reveal_strlit("png");
    }
    if crate::text::str_eq(format, "jpg") {
        OutputFormat::Jpeg
    } else if crate::text::str_eq(format, "png") {
        OutputFormat::Png
    } else {
        OutputFormat::Skip
    }
}

// ---------------------------------------------------------------------------
// The JPEG encoder's scratch file and rows
// ---------------------------------------------------------------------------

/// A letter of the Latin alphabet, either case, or a decimal digit.
pub open spec fn is_alphanumeric(c: char) -> bool {
    ('A' <= c && c <= 'Z') || ('a' <= c && c <= 'z') || ('0' <= c && c <= '9')
}

/// `rand::thread_rng().sample_iter(&Alphanumeric).take(len).collect()`:
/// `len` characters, each drawn from `A`-`Z`, `a`-`z`, `0`-`9`. Which ones
/// come out is left to chance and is not stated.
#[verifier::external_body]
fn random_alphanumeric(len: usize) -> (r: String)
    ensures
        r@.len() == len,
        forall|i: int| 0 <= i < r@.len() ==> is_alphanumeric(#[trigger] r@[i]),
{
    rand::Rng::sample_iter(rand::thread_rng(), &rand::distributions::Alphanumeric).take(
        len,
    ).collect::<String>()
}

/// Thirty random letters and digits, for a scratch file's name.
pub fn randstring() -> (r: String)
    ensures
        r@.len() == 30,
        forall|i: int| 0 <= i < r@.len() ==> is_alphanumeric(#[trigger] r@[i]),
{
    random_alphanumeric(30)
}

/// The name of the scratch file the JPEG encoder writes before the picture is
/// copied to its place: `.temp_` and thirty random letters and digits.
pub fn temp_file_name() -> (r: String)
    ensures
        r@.len() == 36,
        r@.subrange(0, 6) == ".temp_"@,
        forall|i: int| 6 <= i < r@.len() ==> is_alphanumeric(#[trigger] r@[i]),
{
    let tail = randstring();
    let mut r = String::new();
    proof {
        reveal_strlit(".temp_");
    }
    r.append(".temp_");
    r.append(tail.as_str());
    assert(r@.subrange(0, 6) =~= ".temp_"@);
    assert forall|i: int| 6 <= i < r@.len() implies is_alphanumeric(#[trigger] r@[i]) by {
        assert(r@[i] == tail@[i - 6]);
    }
    r
}

/// The number of colour components of a pixel fed to the JPEG encoder.
pub const JPEG_COMPONENTS: u32 = 3;

/// The dots per inch written into a JPEG, across and down.
pub const JPEG_DENSITY: u16 = 72;

/// The bytes in a row of RGB pixels.
pub fn row_stride(width: u32) -> (r: usize)
    requires
        width * 3 <= usize::MAX,
    ensures
        r == width * 3,
{
    width as usize * JPEG_COMPONENTS as usize
}

/// Where row `row` of an RGB picture `width` pixels wide begins in its bytes.
pub fn scanline_offset(row: u32, width: u32) -> (r: usize)
    requires
        width * 3 <= usize::MAX,
        row * (width * 3) <= usize::MAX,
    ensures
        r == row * (width * 3),
{
    let stride = row_stride(width);
    row as usize * stride
}

} // verus!
