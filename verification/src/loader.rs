//! The asset loader of SVG files: the extensions it serves, the errors it
//! reports and the texts of those errors.
use vstd::prelude::*;

verus! {

#[verifier::external_type_specification]
#[verifier::external_body]
pub struct ExIoError(std::io::Error);

#[verifier::external_type_specification]
#[verifier::external_body]
pub struct ExUsvgError(usvg::Error);

/// Loads `.svg` and `.svgz` files as SVG assets.
pub struct SvgAssetLoader;

impl SvgAssetLoader {
    /// The file extensions this loader serves: `svg` and `svgz`.
    pub fn extensions(&self) -> (r: Vec<&'static str>)
        ensures
            r@.len() == 2,
            r@[0]@ == "svg"@,
            r@[1]@ == "svgz"@,
    {
        let mut r: Vec<&'static str> = Vec::new();
        r.push("svg");
        r.push("svgz");
        r
    }
}

/// An error that occurs when loading an SVG.
#[derive(Debug)]
pub enum SvgError {
    /// The asset path has no file name.
    InvalidFileName(String),
    /// The file could not be read.
    IoError(std::io::Error),
    /// The SVG could not be parsed.
    SvgError(usvg::Error),
}

/// An error that occurs when loading an SVG from a file.
#[derive(Debug)]
pub struct FileSvgError {
    pub error: SvgError,
    pub path: String,
}

/// `<std::io::Error as Display>::fmt`, through `to_string`. Nothing is
/// stated of the text: it may come from the operating system.
#[verifier::external_body]
fn io_error_text(e: &std::io::Error) -> String {
    e.to_string()
}

/// `<usvg::Error as Display>::fmt`, through `to_string`. Nothing is stated
/// of the text here.
#[verifier::external_body]
fn usvg_error_text(e: &usvg::Error) -> String {
    e.to_string()
}

/// The fixed part of an error's text: the whole text for a missing file
/// name, the lead-in before the underlying error's own text otherwise.
pub open spec fn lead_of(e: SvgError) -> Seq<char> {
    match e {
        SvgError::InvalidFileName(_) => "invalid file name"@,
        SvgError::IoError(_) => "could not read file: "@,
        SvgError::SvgError(_) => "failed to load an SVG: "@,
    }
}

/// The description of an error whose underlying error reads `cause`: a
/// fixed text for a missing file name; for a read or parse failure the
/// lead-in followed by `cause`.
pub open spec fn description_text(e: SvgError, cause: Seq<char>) -> Seq<char> {
    match e {
        SvgError::InvalidFileName(_) => lead_of(e),
        _ => lead_of(e) + cause,
    }
}

/// The message of a file error whose underlying error reads `cause`.
pub open spec fn message_text(e: FileSvgError, cause: Seq<char>) -> Seq<char> {
    "Error reading SVG file "@ + e.path@ + ": "@ + description_text(e.error, cause)
        + ", this is an error in `bevy_svg`."@
}

impl SvgError {
    /// The text of the error, given the text of the underlying error
    /// (`cause`; not used for a missing file name).
    pub fn describe_with(&self, cause: &str) -> (r: String)
        ensures
            r@ == description_text(*self, cause@),
    {
        match self {
            SvgError::InvalidFileName(_) => String::from_str("invalid file name"),
            SvgError::IoError(_) => {
                let mut r = String::from_str("could not read file: ");
                r.append(cause);
                r
            },
            SvgError::SvgError(_) => {
                let mut r = String::from_str("failed to load an SVG: ");
                r.append(cause);
                r
            },
        }
    }

    /// The text of the underlying error, as its `Display` writes it (empty
    /// for a missing file name, which has none).
    fn cause_text(&self) -> String {
        match self {
            SvgError::InvalidFileName(_) => String::new(),
            SvgError::IoError(e) => io_error_text(e),
            SvgError::SvgError(e) => usvg_error_text(e),
        }
    }

    /// The text of the error: `describe_with` applied to the underlying
    /// error's own text.
    pub fn description(&self) -> (r: String)
        ensures
            exists|cause: Seq<char>| r@ == description_text(*self, cause),
    {
        let cause = self.cause_text();
        self.describe_with(cause.as_str())
    }
}

impl FileSvgError {
    /// The text of the error, given the text of the underlying error: the
    /// file's path and the error's description.
    pub fn message_with(&self, cause: &str) -> (r: String)
        ensures
            r@ == message_text(*self, cause@),
    {
        let mut r = String::from_str("Error reading SVG file ");
        r.append(self.path.as_str());
        r.append(": ");
        let d = self.error.describe_with(cause);
        r.append(d.as_str());
        r.append(", this is an error in `bevy_svg`.");
        r
    }

    /// The text of the error: `message_with` applied to the underlying
    /// error's own text.
    pub fn message(&self) -> (r: String)
        ensures
            exists|cause: Seq<char>| r@ == message_text(*self, cause),
    {
        let cause = self.error.cause_text();
        self.message_with(cause.as_str())
    }
}

/// The asset's name: the file name of its path, or an error naming the path
/// when the path has none.
pub fn asset_name(path: &str, file_name: Option<String>) -> (r: Result<String, FileSvgError>)
    ensures
        match file_name {
            Some(n) => (r matches Ok(name) && name@ == n@),
            None => (r matches Err(e) && e.path@ == path@ && (e.error matches SvgError::InvalidFileName(p) && p@ == path@)),
        },
{
    match file_name {
        Some(n) => Ok(n),
        None => Err(FileSvgError { error: SvgError::InvalidFileName(String::from_str(path)), path: String::from_str(path) }),
    }
}

} // verus!
