use batch_image_resizer::counters::{get_count, reset_count, Counters};

#[test]
fn count_commands() {
    let mut c = Counters::new();
    assert_eq!(c.count("COUNT"), 1);
    assert_eq!(c.count("COUNT"), 2);
    assert_eq!(c.count("FAILS"), 1);
    assert_eq!(c.count("GET"), 2);
    assert_eq!(c.count("anything"), 2);
    assert_eq!(c, Counters { processed: 2, failed: 1 });
    assert_eq!(c.count("RESET"), 0);
    assert_eq!(c, Counters { processed: 0, failed: 0 });
}

#[test]
fn get_and_reset() {
    let mut c = Counters { processed: 5, failed: 3 };
    assert_eq!(get_count(&c), 5);
    assert_eq!(c, Counters { processed: 5, failed: 3 });
    assert_eq!(reset_count(&mut c), 0);
    assert_eq!(get_count(&c), 0);
    assert_eq!(c.failed, 0);
}

#[test]
fn counts_add_up() {
    let mut c = Counters { processed: 7, failed: 2 };
    let answers: Vec<u32> = (0..5).map(|_| c.count("COUNT")).collect();
    assert_eq!(answers, vec![8, 9, 10, 11, 12]);
    assert_eq!(c, Counters { processed: 12, failed: 2 });
}
