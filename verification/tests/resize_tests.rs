use batch_image_resizer::params::ResizeParameter;
use batch_image_resizer::resize::{can_resize, resize_target, resizeimg, Picture, PixelData, UNBOUNDED_SIDE};

fn paras(mode: &'static str, donotenlager: bool) -> ResizeParameter {
    ResizeParameter {
        sourcefolder: "",
        exportfolder: "/out",
        format: "png",
        mode,
        width: 4,
        height: 3,
        maxsize: 5,
        percentage: 50,
        quality: 90,
        donotenlager,
    }
}

fn picture(w: u32, h: u32) -> Picture {
    let mut rgba = Vec::new();
    for i in 0..(w * h) {
        rgba.extend_from_slice(&[(i % 256) as u8, 10, 20, 255]);
    }
    Picture::from_rgba8(w, h, rgba).unwrap()
}

#[test]
fn target_by_width() {
    assert_eq!(resize_target(8, 6, paras("ByWidth", true)), Some((4, UNBOUNDED_SIDE)));
    assert_eq!(resize_target(4, 6, paras("ByWidth", true)), None);
    assert_eq!(resize_target(2, 6, paras("ByWidth", false)), Some((4, 1000000)));
}

#[test]
fn target_by_height() {
    assert_eq!(resize_target(8, 6, paras("ByHeight", true)), Some((1000000, 3)));
    assert_eq!(resize_target(8, 3, paras("ByHeight", true)), None);
}

#[test]
fn target_by_max_size_keeps_fitting_picture() {
    // maxsize 5: a 4 by 5 picture already fits, so it is kept when not enlarging.
    assert_eq!(resize_target(4, 5, paras("ByMaxSize", true)), None);
    assert_eq!(resize_target(4, 5, paras("ByMaxSize", false)), Some((5, 5)));
    // 100 by 2 does not fit: it is fitted into 5 by 5.
    assert_eq!(resize_target(100, 2, paras("ByMaxSize", true)), Some((5, 5)));
    assert_eq!(resize_target(2, 6, paras("ByMaxSize", true)), Some((5, 5)));
}

#[test]
fn max_size_does_not_enlarge_small_picture() {
    let mut p = paras("ByMaxSize", true);
    p.maxsize = 100;
    p.height = 50;
    let r = resizeimg(picture(10, 10), p);
    assert_eq!((r.width, r.height), (10, 10));
}

#[test]
fn target_by_percentage() {
    assert_eq!(resize_target(9, 5, paras("Percentage", true)), Some((4, 2)));
    let mut p = paras("Percentage", true);
    p.percentage = 100;
    assert_eq!(resize_target(9, 5, p), Some((9, 5)));
}

#[test]
fn resize_shrinks_by_width() {
    let img = picture(8, 6);
    let r = resizeimg(img, paras("ByWidth", true));
    assert_eq!((r.width, r.height), (4, 3));
    match r.pixels {
        PixelData::Rgba8(v) => assert_eq!(v.len(), 4 * 3 * 4),
        PixelData::Rgba16(_) => panic!("depth changed"),
    }
}

#[test]
fn resize_keeps_small_picture() {
    let img = picture(3, 2);
    let before = match &img.pixels {
        PixelData::Rgba8(v) => v.clone(),
        PixelData::Rgba16(_) => unreachable!(),
    };
    let r = resizeimg(img, paras("ByWidth", true));
    assert_eq!((r.width, r.height), (3, 2));
    match r.pixels {
        PixelData::Rgba8(v) => assert_eq!(v, before),
        PixelData::Rgba16(_) => panic!("depth changed"),
    }
}

#[test]
fn resize_by_max_size_fits_box() {
    let img = picture(10, 4);
    let r = resizeimg(img, paras("ByMaxSize", false));
    assert_eq!((r.width, r.height), (5, 2));
}

#[test]
fn resize_by_percentage() {
    let img = picture(10, 6);
    let r = resizeimg(img, paras("Percentage", false));
    assert_eq!((r.width, r.height), (5, 3));
}

#[test]
fn from_parts_checks_length() {
    assert!(Picture::from_rgba8(2, 2, vec![0; 16]).is_some());
    assert!(Picture::from_rgba8(2, 2, vec![0; 15]).is_none());
    assert!(Picture::from_rgba16(1, 3, vec![0; 12]).is_some());
    assert!(Picture::from_rgba16(1, 3, vec![0; 13]).is_none());
}

#[test]
fn can_resize_conditions() {
    let img = picture(4, 4);
    assert!(can_resize(&img, paras("ByWidth", true)));
    assert!(!can_resize(&img, paras("Sideways", true)));
    let empty = Picture::from_rgba8(0, 0, Vec::new()).unwrap();
    assert!(can_resize(&empty, paras("ByWidth", true)));
    assert!(!can_resize(&empty, paras("ByWidth", false)));
    let mut p = paras("Percentage", true);
    p.percentage = u32::MAX;
    assert!(!can_resize(&img, p));
}

#[test]
fn empty_picture_kept_when_not_enlarging() {
    let empty = Picture::from_rgba8(0, 0, Vec::new()).unwrap();
    let r = resizeimg(empty, paras("ByWidth", true));
    assert_eq!((r.width, r.height), (0, 0));
}

#[test]
fn by_width_exact_size_rounds_down() {
    // 7 by 5 fitted to width 4: height 5 * 4 / 7 = 2 (rounded down).
    let r = resizeimg(picture(7, 5), paras("ByWidth", false));
    assert_eq!((r.width, r.height), (4, 2));
}

#[test]
fn by_height_exact_size() {
    // 10 by 6 fitted to height 3: width 10 * 3 / 6 = 5.
    let r = resizeimg(picture(10, 6), paras("ByHeight", false));
    assert_eq!((r.width, r.height), (5, 3));
}

#[test]
fn thin_side_is_at_least_one() {
    // 100 by 1 fitted to width 4: height 1 * 4 / 100 = 0, raised to 1.
    let r = resizeimg(picture(100, 1), paras("ByWidth", false));
    assert_eq!((r.width, r.height), (4, 1));
}

#[test]
fn full_percentage_keeps_size() {
    let mut p = paras("Percentage", false);
    p.percentage = 100;
    let r = resizeimg(picture(9, 7), p);
    assert_eq!((r.width, r.height), (9, 7));
}

#[test]
fn sixteen_bit_stays_sixteen_bit() {
    let img = Picture::from_rgba16(8, 6, vec![40000u16; 8 * 6 * 4]).unwrap();
    let r = resizeimg(img, paras("ByWidth", true));
    assert_eq!((r.width, r.height), (4, 3));
    match r.pixels {
        PixelData::Rgba16(v) => {
            assert_eq!(v.len(), 4 * 3 * 4);
            assert!(v.iter().all(|&x| x == 40000));
        }
        PixelData::Rgba8(_) => panic!("depth changed"),
    }
}
