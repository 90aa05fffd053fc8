use batch_image_resizer::output::{
    extension_is_valid, file_name_of, output_format, output_path, randstring, row_stride, scanline_offset, temp_file_name,
    OutputFormat,
};
use batch_image_resizer::params::ResizeParameter;

fn paras(source: &'static str, export: &'static str, format: &'static str) -> ResizeParameter {
    ResizeParameter {
        sourcefolder: source,
        exportfolder: export,
        format,
        mode: "ByWidth",
        width: 800,
        height: 600,
        maxsize: 1024,
        percentage: 50,
        quality: 90,
        donotenlager: true,
    }
}

#[test]
fn output_path_keeps_subfolders() {
    let p = paras("/src", "/out", "jpg");
    assert_eq!(output_path("/src/sub/pic.png", &p), Some("/out/sub/pic.jpg".to_string()));
}

#[test]
fn output_path_swaps_only_the_leading_folder() {
    let p = paras("/p", "/q", "jpg");
    assert_eq!(output_path("/p/pics/a.png", &p), Some("/q/pics/a.jpg".to_string()));
    let p = paras("/a", "/b", "jpg");
    assert_eq!(output_path("/a/a.png", &p), Some("/b/a.jpg".to_string()));
}

#[test]
fn output_path_outside_source_folder_stays() {
    let p = paras("/p", "/q", "png");
    assert_eq!(output_path("/pics/a.jpg", &p), Some("/pics/a.png".to_string()));
}

#[test]
fn output_path_refuses_separator_in_format() {
    let p = paras("", "/out", "x/jpg");
    assert_eq!(output_path("/a/b.png", &p), None);
    assert!(!extension_is_valid("x/jpg"));
    assert!(extension_is_valid("jpg"));
}

#[test]
fn output_path_without_source_folder() {
    let p = paras("", "/out", "png");
    assert_eq!(output_path("/a/b/pic.jpg", &p), Some("/out/pic.png".to_string()));
}

#[test]
fn output_path_drops_inner_extension() {
    let p = paras("", "/out", "jpg");
    assert_eq!(output_path("/a/pic.v2.png", &p), Some("/out/pic.jpg".to_string()));
}

#[test]
fn output_path_needs_a_stem() {
    let p = paras("", "/out", "jpg");
    assert_eq!(output_path("/", &p), None);
}

#[test]
fn formats() {
    assert_eq!(output_format("jpg"), OutputFormat::Jpeg);
    assert_eq!(output_format("png"), OutputFormat::Png);
    assert_eq!(output_format("gif"), OutputFormat::Skip);
    assert_eq!(output_format("JPG"), OutputFormat::Skip);
}

#[test]
fn file_names() {
    assert_eq!(file_name_of("/a/b/c.png"), Some("c.png".to_string()));
    assert_eq!(file_name_of("/a/.."), None);
}

#[test]
fn scratch_names() {
    let s = randstring();
    assert_eq!(s.chars().count(), 30);
    assert!(s.chars().all(|c| c.is_ascii_alphanumeric()));
    let t = temp_file_name();
    assert!(t.starts_with(".temp_"));
    assert_eq!(t.len(), 36);
    assert!(t[6..].chars().all(|c| c.is_ascii_alphanumeric()));
}

#[test]
fn rows() {
    assert_eq!(row_stride(640), 1920);
    assert_eq!(scanline_offset(0, 640), 0);
    assert_eq!(scanline_offset(3, 10), 90);
}
