use lazyrsync::completion::Entry;
use lazyrsync::env::{Clock, Env};
use lazyrsync::fields::{
    field_box_layout, field_status, field_status_path, file_status, file_status_path, DiskFacts,
    Tone,
};

fn env() -> Env {
    // 2021-03-04 05:06:07 UTC, seen at UTC+2.
    let mut e = Env::new(Clock { secs: 1614834367, nanos: 0, offset: 7200 });
    e.set_var("HOME", "/home/tester");
    e
}

const MISSING: DiskFacts = DiskFacts { is_dir: false, parent_exists: true };
const MISSING_PARENT: DiskFacts = DiskFacts { is_dir: false, parent_exists: false };

fn dir(name: &str) -> Entry {
    Entry { name: name.to_string(), is_dir: true }
}

#[test]
fn dest_with_a_placeholder_resolves_before_checking_the_disk() {
    let env = env();
    let typed = "/tmp/lr-fields/{now:%Y-%m-%d}/";
    assert_eq!(
        field_status_path(typed, &env).as_deref(),
        Some("/tmp/lr-fields/2021-03-04/")
    );
    let (color, hint) = field_status(typed, true, true, &env, &[], &MISSING);
    assert_eq!(color, Tone::Added);
    assert_eq!(hint.as_deref(), Some("new dir"));
}

#[test]
fn a_formatted_placeholder_colon_is_not_mistaken_for_a_remote_host() {
    let env = env();
    let (_, hint) = field_status("~/backups/{now:%Y-%m-%d}/", true, true, &env, &[], &MISSING);
    assert!(
        hint.is_some(),
        "a local tilde path with a formatted placeholder must still be checked, not treated as remote"
    );
}

#[test]
fn a_real_remote_path_is_still_detected() {
    let env = env();
    let (_, hint) =
        field_status("me@vps:/backup/{now:%Y-%m-%d}/", true, true, &env, &[], &MISSING);
    assert!(hint.is_none(), "remote paths should skip local disk checks");
}

#[test]
fn dest_with_creatable_parents_is_not_an_error() {
    let mut env = env();
    env.add_hostname_file("thinkpad\n");
    let typed = "/tmp/lr-fields-np/{hostname}/{now:%Y-%m-%d}/";
    assert_eq!(
        field_status_path(typed, &env).as_deref(),
        Some("/tmp/lr-fields-np/thinkpad/2021-03-04/")
    );
    let (color, hint) = field_status(typed, true, true, &env, &[], &MISSING_PARENT);
    assert_eq!(color, Tone::Added);
    assert_eq!(hint.as_deref(), Some("new path"));
}

#[test]
fn a_placeholder_time_colon_stays_local() {
    let env = env();
    assert_eq!(
        field_status_path("/bak/{now:%H:%M}", &env).as_deref(),
        Some("/bak/07:06")
    );
}

#[test]
fn empty_or_remote_fields_have_no_disk_path() {
    let env = env();
    assert_eq!(field_status_path("   ", &env), None);
    assert_eq!(field_status_path("host:/x", &env), None);
    let (tone, hint) = field_status("", true, true, &env, &[], &MISSING);
    assert_eq!(tone, Tone::Accent);
    assert_eq!(hint, None);
}

#[test]
fn an_existing_directory_counts_its_completions() {
    let env = env();
    let listing = vec![dir("a"), dir("b")];
    let facts = DiskFacts { is_dir: true, parent_exists: true };
    let (tone, hint) = field_status("/data/", true, false, &env, &listing, &facts);
    assert_eq!(tone, Tone::Added);
    assert_eq!(hint.as_deref(), Some("2 matches"));
    let (tone, hint) = field_status("/data/", false, false, &env, &listing, &facts);
    assert_eq!(tone, Tone::Added);
    assert_eq!(hint, None);
}

#[test]
fn a_partial_name_counts_its_matches() {
    let env = env();
    let listing = vec![dir("photos"), dir("music")];
    let (tone, hint) = field_status("/data/pho", true, false, &env, &listing, &MISSING);
    assert_eq!(tone, Tone::Accent);
    assert_eq!(hint.as_deref(), Some("1 match"));
}

#[test]
fn a_missing_source_is_not_found() {
    let env = env();
    let (tone, hint) = field_status("/nowhere", true, false, &env, &[], &MISSING);
    assert_eq!(tone, Tone::Deleted);
    assert_eq!(hint.as_deref(), Some("not found"));
}

#[test]
fn file_fields() {
    let env = env();
    assert_eq!(file_status_path("  ", &env), None);
    assert_eq!(
        file_status_path(" ~/exclude.txt ", &env).as_deref(),
        Some("/home/tester/exclude.txt")
    );
    assert_eq!(file_status("", true, false), (Tone::Accent, Some("path to file".to_string())));
    assert_eq!(file_status("/x", true, true), (Tone::Added, Some("found".to_string())));
    assert_eq!(file_status("/x", true, false), (Tone::Deleted, Some("not found".to_string())));
    assert_eq!(file_status("/x", false, false), (Tone::Deleted, None));
}

#[test]
fn field_box_follows_the_cursor() {
    // 12 columns wide: 10 inside the border.
    let l = field_box_layout(4, 2, 12, 30, Some(3));
    assert_eq!(l.scroll_x, 0);
    assert_eq!(l.cursor_at, Some((4 + 1 + 4, 3)));
    let l = field_box_layout(4, 2, 12, 30, Some(15));
    assert_eq!(l.scroll_x, 7);
    assert_eq!(l.cursor_at, Some((4 + 1 + 9, 3)));
}

#[test]
fn field_box_without_a_cursor_shows_the_end() {
    let l = field_box_layout(0, 0, 12, 30, None);
    assert_eq!(l.scroll_x, 20);
    assert_eq!(l.cursor_at, None);
    let l = field_box_layout(0, 0, 12, 5, None);
    assert_eq!(l.scroll_x, 0);
    let l = field_box_layout(0, 0, 1, 5, None);
    assert_eq!(l.scroll_x, 5);
}
