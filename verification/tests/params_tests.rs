use batch_image_resizer::params::{parse_mode, partition_works, plan_works, staticstr, ResizeMode, ResizeParameter};

fn paras() -> ResizeParameter {
    ResizeParameter {
        sourcefolder: "",
        exportfolder: "/out",
        format: "jpg",
        mode: "ByWidth",
        width: 800,
        height: 600,
        maxsize: 1024,
        percentage: 50,
        quality: 85,
        donotenlager: true,
    }
}

fn files(n: usize) -> Vec<String> {
    (0..n).map(|i| format!("f{}.jpg", i)).collect()
}

#[test]
fn mode_names() {
    assert_eq!(parse_mode("ByWidth"), Some(ResizeMode::ByWidth));
    assert_eq!(parse_mode("ByHeight"), Some(ResizeMode::ByHeight));
    assert_eq!(parse_mode("ByMaxSize"), Some(ResizeMode::ByMaxSize));
    assert_eq!(parse_mode("Percentage"), Some(ResizeMode::Percentage));
    assert_eq!(parse_mode("bywidth"), None);
}

#[test]
fn partition_ten_files_four_cpus() {
    let f = files(10);
    let w = partition_works(&f, paras(), 4);
    let sizes: Vec<usize> = w.iter().map(|x| x.files.len()).collect();
    assert_eq!(sizes, vec![4, 4, 2]);
    let all: Vec<String> = w.iter().flat_map(|x| x.files.clone()).collect();
    assert_eq!(all, f);
    assert!(w.iter().all(|x| x.paras.width == 800 && x.paras.mode == "ByWidth"));
}

#[test]
fn partition_empty_job() {
    let w = partition_works(&Vec::new(), paras(), 8);
    assert_eq!(w.len(), 1);
    assert!(w[0].files.is_empty());
}

#[test]
fn partition_may_leave_last_share_empty() {
    let f = files(2);
    let w = partition_works(&f, paras(), 2);
    let sizes: Vec<usize> = w.iter().map(|x| x.files.len()).collect();
    assert_eq!(sizes, vec![2, 0]);
}

#[test]
fn partition_covers_every_file() {
    for n in 0..40 {
        for cpus in 1..10 {
            let f = files(n);
            let w = partition_works(&f, paras(), cpus);
            assert!(w.len() >= 1 && w.len() <= cpus);
            let all: Vec<String> = w.iter().flat_map(|x| x.files.clone()).collect();
            assert_eq!(all, f);
        }
    }
}

#[test]
fn plan_covers_every_file() {
    let f = files(17);
    let w = plan_works(&f, paras());
    assert!(!w.is_empty());
    let all: Vec<String> = w.iter().flat_map(|x| x.files.clone()).collect();
    assert_eq!(all, f);
}

#[test]
fn staticstr_keeps_text() {
    let s = String::from("/some/folder");
    let t: &'static str = staticstr(&s);
    assert_eq!(t, "/some/folder");
}
