use batch_image_resizer::counters::Counters;
use batch_image_resizer::protocol::{
    compose_done, compose_err, compose_working, file_list_string, parse_command, readable_message,
    task_report, ProgressMonitor, TaskOutcome, UiCommand, UiUpdate,
};
use batch_image_resizer::text::split_str;
use batch_image_resizer::FILES_JOINSIGN;

#[test]
fn compose_messages() {
    assert_eq!(compose_working(3, "a.jpg"), "working🀡🀡3🀡🀡a.jpg");
    assert_eq!(compose_err(2, "/x/a.jpg", "save failure."), "err🀡🀡2🀡🀡/x/a.jpg🀡🀡save failure.");
    assert_eq!(compose_done("1.5s"), "done🀡🀡1.5s");
}

#[test]
fn report_saved() {
    let mut c = Counters { processed: 4, failed: 1 };
    let msgs = task_report(&mut c, "/x/a.jpg", "a.jpg", &TaskOutcome::Saved);
    assert_eq!(msgs, vec!["working🀡🀡5🀡🀡a.jpg".to_string()]);
    assert_eq!(c, Counters { processed: 5, failed: 1 });
}

#[test]
fn report_save_failed() {
    let mut c = Counters { processed: 4, failed: 1 };
    let msgs = task_report(&mut c, "/x/a.jpg", "a.jpg", &TaskOutcome::SaveFailed);
    assert_eq!(
        msgs,
        vec!["err🀡🀡2🀡🀡/x/a.jpg🀡🀡save failure.".to_string(), "working🀡🀡4🀡🀡a.jpg".to_string()]
    );
    assert_eq!(c, Counters { processed: 4, failed: 2 });
}

#[test]
fn report_load_failed() {
    let mut c = Counters::new();
    let msgs = task_report(&mut c, "b.png", "b.png", &TaskOutcome::LoadFailed("bad header".to_string()));
    assert_eq!(msgs, vec!["err🀡🀡1🀡🀡b.png🀡🀡bad header".to_string(), "working🀡🀡0🀡🀡b.png".to_string()]);
}

#[test]
fn monitor_working_quiet_then_shown() {
    let mut m = ProgressMonitor::new();
    let (u, again) = m.on_message("working🀡🀡3🀡🀡a.jpg", 10);
    assert!(u.is_none());
    assert!(!again);
    assert_eq!(m, ProgressMonitor { works_done: 3, failures: 0 });
    let (u, again) = m.on_message("working🀡🀡2🀡🀡b.jpg", 200);
    assert!(again);
    match u {
        Some(UiUpdate::Working { file_name, done }) => {
            assert_eq!(file_name, "b.jpg");
            assert_eq!(done, 3);
        }
        _ => panic!("expected a working update"),
    }
}

#[test]
fn monitor_err_and_done_always_shown() {
    let mut m = ProgressMonitor { works_done: 1, failures: 0 };
    match m.on_message("err🀡🀡1🀡🀡/a/b.png🀡🀡boom", 0) {
        (Some(UiUpdate::Failure { failures, text }), false) => {
            assert_eq!(failures, 1);
            assert_eq!(text, "\nErr\n/a/b.png\nboom");
        }
        _ => panic!("expected a failure update"),
    }
    match m.on_message("done🀡🀡2.1s", 0) {
        (Some(UiUpdate::Done { elapsed, failures }), false) => {
            assert_eq!(elapsed, "2.1s");
            assert_eq!(failures, 1);
        }
        _ => panic!("expected a done update"),
    }
    let (u, _) = m.on_message("reset", 500);
    assert!(u.is_none());
    assert_eq!(m, ProgressMonitor { works_done: 0, failures: 0 });
}

#[test]
fn monitor_reads_worker_reports() {
    let mut c = Counters::new();
    let mut m = ProgressMonitor::new();
    for name in ["a.jpg", "b.jpg", "c.jpg"] {
        for msg in task_report(&mut c, name, name, &TaskOutcome::Saved) {
            assert!(readable_message(&msg, 0));
            m.on_message(&msg, 0);
        }
    }
    assert_eq!(m.works_done, 3);
}

#[test]
fn readable_messages() {
    assert!(readable_message("working🀡🀡3", 0));
    assert!(!readable_message("working🀡🀡3", 151));
    assert!(!readable_message("working🀡🀡x🀡🀡a", 0));
    assert!(!readable_message("err🀡🀡1🀡🀡a", 0));
    assert!(!readable_message("done", 0));
    assert!(readable_message("reset", 999));
    assert!(readable_message("whatever", 0));
}

#[test]
fn command_simple_ones() {
    assert!(matches!(parse_command("openMulti"), Some(UiCommand::OpenMulti)));
    assert!(matches!(parse_command("selectExportFolder"), Some(UiCommand::SelectExportFolder)));
    assert!(matches!(parse_command("nonsense"), Some(UiCommand::Unknown)));
    assert!(matches!(
        parse_command("openFolder🀡🀡includeSubfolder"),
        Some(UiCommand::OpenFolder { subfolders: Some(true) })
    ));
    assert!(matches!(parse_command("openFolder"), Some(UiCommand::OpenFolder { subfolders: None })));
}

#[test]
fn command_check_folder() {
    match parse_command("checkFolder🀡🀡no🀡🀡/pics") {
        Some(UiCommand::CheckFolder { include_subfolder, folder }) => {
            assert!(!include_subfolder);
            assert_eq!(folder, "/pics");
        }
        _ => panic!("expected checkFolder"),
    }
    assert!(parse_command("checkFolder🀡🀡includeSubfolder").is_none());
}

#[test]
fn command_resize() {
    let arg = "resize🀡🀡/s/a.jpg🀅🀅/s/b.png🀡🀡/s🀡🀡/o🀡🀡png🀡🀡Percentage🀡🀡800🀡🀡600🀡🀡1024🀡🀡50🀡🀡90🀡🀡maybe";
    match parse_command(arg) {
        Some(UiCommand::Resize { files, paras }) => {
            assert_eq!(files, vec!["/s/a.jpg".to_string(), "/s/b.png".to_string()]);
            assert_eq!(paras.sourcefolder, "/s");
            assert_eq!(paras.exportfolder, "/o");
            assert_eq!(paras.format, "png");
            assert_eq!(paras.mode, "Percentage");
            assert_eq!((paras.width, paras.height, paras.maxsize, paras.percentage), (800, 600, 1024, 50));
            assert_eq!(paras.quality, 90);
            assert!(paras.donotenlager);
        }
        _ => panic!("expected resize"),
    }
    let off = arg.replace("maybe", "false");
    match parse_command(&off) {
        Some(UiCommand::Resize { paras, .. }) => assert!(!paras.donotenlager),
        _ => panic!("expected resize"),
    }
}

#[test]
fn command_resize_broken() {
    assert!(parse_command("resize🀡🀡a🀡🀡b").is_none());
    let bad = "resize🀡🀡f🀡🀡s🀡🀡o🀡🀡jpg🀡🀡ByWidth🀡🀡wide🀡🀡600🀡🀡1024🀡🀡50🀡🀡90🀡🀡true";
    assert!(parse_command(bad).is_none());
}

#[test]
fn file_list_round_trip() {
    let files = vec!["/a/1.jpg".to_string(), "/a/2.png".to_string()];
    let s = file_list_string(&files);
    assert_eq!(s, "/a/1.jpg🀅🀅/a/2.png");
    assert_eq!(split_str(&s, FILES_JOINSIGN), files);
}

#[test]
fn monitor_reads_failure_reports() {
    let mut c = Counters::new();
    let mut m = ProgressMonitor { works_done: 0, failures: 0 };
    for msg in task_report(&mut c, "/p/x.png", "x.png", &TaskOutcome::SaveFailed) {
        assert!(readable_message(&msg, 0));
        m.on_message(&msg, 0);
    }
    assert_eq!(m, ProgressMonitor { works_done: 0, failures: 1 });
    let (u, _) = m.on_message("err🀡🀡0🀡🀡/p/y.png🀡🀡late", 0);
    assert!(u.is_some());
    assert_eq!(m.failures, 1);
}
