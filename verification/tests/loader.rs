use bevy_svg::loader::{asset_name, FileSvgError, SvgAssetLoader, SvgError};
use bevy_svg::origin::Origin;
use bevy_svg::plugin::SvgSet;

#[test]
fn loader_serves_svg_and_svgz() {
    assert_eq!(SvgAssetLoader.extensions(), vec!["svg", "svgz"]);
}

#[test]
fn missing_file_name_is_reported() {
    let e = match asset_name("assets/..", None) {
        Err(e) => e,
        Ok(_) => panic!("expected an error"),
    };
    assert_eq!(e.path, "assets/..");
    assert!(matches!(&e.error, SvgError::InvalidFileName(p) if p == "assets/.."));
    assert_eq!(e.message(), "Error reading SVG file assets/..: invalid file name, this is an error in `bevy_svg`.");
    assert_eq!(asset_name("a/b.svg", Some("b.svg".to_string())).ok(), Some("b.svg".to_string()));
}

#[test]
fn underlying_errors_are_described() {
    let io = FileSvgError {
        error: SvgError::IoError(std::io::Error::new(std::io::ErrorKind::Other, "boom")),
        path: "x.svg".to_string(),
    };
    assert_eq!(io.message(), "Error reading SVG file x.svg: could not read file: boom, this is an error in `bevy_svg`.");
    let svg = SvgError::SvgError(usvg::Error::InvalidSize);
    assert_eq!(svg.description(), "failed to load an SVG: SVG has an invalid size");
}

#[test]
fn origin_defaults_to_top_left() {
    assert_eq!(Origin::default(), Origin::TopLeft);
    assert_ne!(Origin::Center, Origin::TopLeft);
    assert_eq!(SvgSet::SVG, SvgSet::SVG);
}

#[test]
fn descriptions_from_a_given_cause() {
    let e = SvgError::IoError(std::io::Error::new(std::io::ErrorKind::Other, "ignored"));
    assert_eq!(e.describe_with("disk gone"), "could not read file: disk gone");
    let e = SvgError::SvgError(usvg::Error::InvalidSize);
    assert_eq!(e.describe_with("bad"), "failed to load an SVG: bad");
    let e = SvgError::InvalidFileName("p".to_string());
    assert_eq!(e.describe_with("anything"), "invalid file name");
    let f = FileSvgError { error: SvgError::SvgError(usvg::Error::NotAnUtf8Str), path: "a.svg".to_string() };
    assert_eq!(f.message_with("oops"), "Error reading SVG file a.svg: failed to load an SVG: oops, this is an error in `bevy_svg`.");
}
