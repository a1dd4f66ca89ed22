use lazyrsync::popups::{Alert, AlertReply, ConfirmReply, ConfirmRun, Key};
use lazyrsync::profile::Task;

fn task(id: &str, delete: bool) -> Task {
    let mut t = Task::new(id, "/src/", "/dst/");
    t.flags.delete = delete;
    t
}

#[test]
fn alert_asks_before_enabling_the_flag() {
    let a = Alert::enable_flag(9, "--delete");
    assert_eq!(a.prompt(), "Enable --delete ?");
    assert!(matches!(
        a.on_key(Key::Enter),
        AlertReply::Enable { field_index: 9, label: "--delete" }
    ));
    assert!(matches!(
        a.on_key(Key::Char('y')),
        AlertReply::Enable { field_index: 9, .. }
    ));
    assert!(matches!(a.on_key(Key::Esc), AlertReply::Close));
    assert!(matches!(a.on_key(Key::Char('n')), AlertReply::Close));
    assert!(matches!(a.on_key(Key::Char('q')), AlertReply::Close));
    assert!(matches!(a.on_key(Key::Char('x')), AlertReply::Ignore));
    assert!(matches!(a.on_key(Key::Other), AlertReply::Ignore));
}

#[test]
fn confirming_hands_over_the_whole_batch() {
    let mut c = ConfirmRun::new(vec![task("a", false), task("b", true)]);
    assert!(matches!(c.on_key(Key::Char('z')), ConfirmReply::Ignore));
    assert!(matches!(c.on_key(Key::Esc), ConfirmReply::Close));
    match c.on_key(Key::Enter) {
        ConfirmReply::Start(b) => {
            let ids: Vec<&str> = b.iter().map(|t| t.id.as_str()).collect();
            assert_eq!(ids, vec!["a", "b"]);
        }
        _ => panic!("enter starts the run"),
    }
    assert_eq!(c.layout(40).rows.len(), 0);
}

#[test]
fn confirm_layout_of_one_deleting_task() {
    let c = ConfirmRun::new(vec![task("photos", true)]);
    let l = c.layout(40);
    assert_eq!(l.title, " Run 1 task ");
    assert_eq!(l.run_label, "Run");
    assert_eq!(l.rows.len(), 1);
    assert_eq!(l.rows[0].id, "photos");
    assert!(l.rows[0].delete);
    assert_eq!(l.more, None);
    assert_eq!(
        l.warning.as_deref(),
        Some("⚠ this uses --delete — destination files will be removed.")
    );
    assert_eq!(l.box_height, 1 + 1 + 2 + 2);
}

#[test]
fn confirm_layout_cuts_long_batches() {
    let batch: Vec<Task> = (0..10).map(|i| task(&format!("t{i}"), i % 3 == 0)).collect();
    let c = ConfirmRun::new(batch);
    // 12 rows high leaves 4 for the list.
    let l = c.layout(12);
    assert_eq!(l.title, " Run 10 tasks ");
    assert_eq!(l.run_label, "Run all");
    assert_eq!(l.rows.len(), 4);
    assert_eq!(l.rows[3].id, "t3");
    assert_eq!(l.more, Some(6));
    assert_eq!(
        l.warning.as_deref(),
        Some("⚠ 4 of these use --delete — destination files will be removed.")
    );
    assert_eq!(l.box_height, 1 + 4 + 1 + 2 + 2);
    // A tiny screen still shows three rows.
    assert_eq!(c.layout(5).rows.len(), 3);
    // A tall one shows them all.
    let l = c.layout(100);
    assert_eq!(l.rows.len(), 10);
    assert_eq!(l.more, None);
}
