use lazyrsync::completion::{complete_path, hits_dir, path_hits, Entry};
use lazyrsync::env::{format_now, Clock, Env};
use lazyrsync::paths::{expand_env, expand_path, expand_placeholders, expand_tilde};

fn env_now() -> Env {
    let n = chrono::Local::now();
    Env::new(Clock { secs: n.timestamp(), nanos: n.timestamp_subsec_nanos(), offset: n.offset().local_minus_utc() })
}

fn fixed_env() -> Env {
    // 2021-03-04 05:06:07 UTC, seen at UTC+2.
    Env::new(Clock { secs: 1614834367, nanos: 0, offset: 7200 })
}

fn dir(name: &str) -> Entry {
    Entry { name: name.to_string(), is_dir: true }
}

fn file(name: &str) -> Entry {
    Entry { name: name.to_string(), is_dir: false }
}

#[test]
fn now_expands_with_an_explicit_format() {
    let env = env_now();
    let want = chrono::Local::now().format("%Y-%m-%d").to_string();
    assert_eq!(
        expand_placeholders("/bak/{now:%Y-%m-%d}", &env),
        format!("/bak/{want}")
    );
}

#[test]
fn bare_now_defaults_to_iso_date() {
    let env = env_now();
    let want = chrono::Local::now().format("%Y-%m-%d").to_string();
    assert_eq!(expand_placeholders("/bak/{now}", &env), format!("/bak/{want}"));
}

#[test]
fn literal_percent_in_a_path_is_never_touched() {
    let env = env_now();
    assert_eq!(expand_placeholders("/mnt/100%done/", &env), "/mnt/100%done/");
    assert_eq!(expand_path("/mnt/100%done/", &env), "/mnt/100%done/");
    assert_eq!(expand_placeholders("/mnt/50%off/", &env), "/mnt/50%off/");
}

#[test]
fn paths_without_braces_are_untouched() {
    let env = env_now();
    assert_eq!(expand_placeholders("/bak/nightly", &env), "/bak/nightly");
}

#[test]
fn unknown_placeholder_is_left_literal() {
    let env = env_now();
    assert_eq!(expand_placeholders("/bak/{nope}", &env), "/bak/{nope}");
    assert_eq!(expand_placeholders("/bak/{now:%E}", &env), "/bak/{now:%E}");
}

#[test]
fn unclosed_placeholder_is_left_literal() {
    let env = env_now();
    assert_eq!(expand_placeholders("/bak/{now", &env), "/bak/{now");
}

#[test]
fn doubled_braces_are_literal_braces() {
    let env = env_now();
    assert_eq!(expand_placeholders("/bak/{{now}}", &env), "/bak/{now}");
}

#[test]
fn user_placeholder_matches_the_environment() {
    let mut env = env_now();
    env.set_var("USER", "alice");
    let want = "alice";
    assert_eq!(expand_placeholders("/bak/{user}", &env), format!("/bak/{want}"));
}

#[test]
fn user_placeholder_falls_back_to_logname_and_skips_empty_values() {
    let mut env = env_now();
    env.set_var("USER", "");
    env.set_var("LOGNAME", "bob");
    assert_eq!(expand_placeholders("/bak/{user}", &env), "/bak/bob");
    let empty = env_now();
    assert_eq!(expand_placeholders("/bak/{user}", &empty), "/bak/{user}");
    assert_eq!(expand_placeholders("/bak/{user:x}", &env), "/bak/{user:x}");
}

#[test]
fn hostname_placeholder_resolves_or_stays_literal() {
    let env = env_now();
    let got = expand_placeholders("/bak/{hostname}", &env);
    assert!(got == "/bak/{hostname}" || (got.starts_with("/bak/") && got.len() > 5));
}

#[test]
fn hostname_comes_from_the_first_file_with_content_then_the_environment() {
    let mut env = env_now();
    env.set_var("HOSTNAME", "from-env");
    assert_eq!(expand_placeholders("/bak/{hostname}", &env), "/bak/from-env");
    env.add_hostname_file("  \n");
    env.add_hostname_file("  thinkpad \n");
    assert_eq!(expand_placeholders("/bak/{hostname}", &env), "/bak/thinkpad");
    let mut host_only = env_now();
    host_only.set_var("HOST", "h2");
    assert_eq!(expand_placeholders("/bak/{hostname}", &host_only), "/bak/h2");
}

#[test]
fn env_vars_expand_in_both_forms() {
    let mut env = env_now();
    env.set_var("LR_TEST_ROOT", "/mnt/disk");
    assert_eq!(expand_env("$LR_TEST_ROOT/x", &env), "/mnt/disk/x");
    assert_eq!(expand_env("${LR_TEST_ROOT}x", &env), "/mnt/diskx");
}

#[test]
fn undefined_env_var_is_left_literal() {
    let env = env_now();
    assert_eq!(
        expand_env("/bak/$LR_TEST_MISSING/x", &env),
        "/bak/$LR_TEST_MISSING/x"
    );
    assert_eq!(
        expand_env("/bak/${LR_TEST_MISSING}", &env),
        "/bak/${LR_TEST_MISSING}"
    );
}

#[test]
fn double_dollar_is_a_literal_dollar() {
    let env = env_now();
    assert_eq!(expand_env("/bak/$$HOME", &env), "/bak/$HOME");
}

#[test]
fn env_values_are_not_rescanned_for_placeholders() {
    let mut env = env_now();
    env.set_var("LR_TEST_BRACE", "{now}");
    assert_eq!(expand_path("/bak/$LR_TEST_BRACE", &env), "/bak/{now}");
}

#[test]
fn tilde_placeholder_and_env_combine() {
    let mut env = env_now();
    env.set_var("LR_TEST_HOST", "thinkpad");
    env.set_var("HOME", "/home/tester");
    let home = "/home/tester";
    let day = chrono::Local::now().format("%Y-%m-%d").to_string();
    assert_eq!(
        expand_path("~/bak/$LR_TEST_HOST/{now:%Y-%m-%d}", &env),
        format!("{home}/bak/thinkpad/{day}")
    );
}

#[test]
fn fixed_clock_formats_locally_and_in_utc() {
    let env = fixed_env();
    assert_eq!(expand_placeholders("/b/{utcnow}", &env), "/b/2021-03-04");
    assert_eq!(expand_placeholders("/b/{utcnow:%H%M}", &env), "/b/0506");
    assert_eq!(expand_placeholders("/b/{now:%H:%M}", &env), "/b/07:06");
    assert_eq!(expand_placeholders("/b/{now:%Y/%m/%d}", &env), "/b/2021/03/04");
    assert_eq!(format_now(env.clock, "%Y", true), Some("2021".to_string()));
    assert_eq!(format_now(env.clock, "%E", false), None);
}

#[test]
fn escapes_unknown_names_and_unclosed_forms() {
    let mut env = fixed_env();
    env.set_var("A", "x");
    assert_eq!(expand_placeholders("a}}b{{c", &env), "a}b{c");
    assert_eq!(expand_placeholders("a}b", &env), "a}b");
    assert_eq!(expand_placeholders("{}", &env), "{}");
    assert_eq!(expand_env("cost: $5 and $", &env), "cost: $5 and $");
    assert_eq!(expand_env("$A-$A_", &env), "x-$A_");
    assert_eq!(expand_env("${A", &env), "${A");
    assert_eq!(expand_env("$$A", &env), "$A");
}

#[test]
fn tilde_expands_only_alone_or_before_a_slash() {
    let mut env = env_now();
    assert_eq!(expand_tilde("~/x", &env), "~/x");
    env.set_var("HOME", "/home/me");
    assert_eq!(expand_tilde("~", &env), "/home/me");
    assert_eq!(expand_tilde("~/x", &env), "/home/me/x");
    assert_eq!(expand_tilde("~x", &env), "~x");
    assert_eq!(expand_tilde("/a/~/x", &env), "/a/~/x");
}

#[test]
fn smart_case_lowercase_query_is_insensitive() {
    let base = "/tmp/lr-comp-i";
    let listing = vec![dir("Archive")];
    let got = complete_path(&format!("{}/arc", base), &listing);
    assert_eq!(got, format!("{}/Archive/", base));
}

#[test]
fn smart_case_uppercase_query_is_sensitive() {
    let base = "/tmp/lr-comp-s";
    let listing = vec![dir("archive")];
    let typed = format!("{}/Arc", base);
    let got = complete_path(&typed, &listing);
    assert_eq!(got, typed);
}

#[test]
fn remote_paths_are_left_untouched() {
    assert_eq!(complete_path("me@vps:/backup/da", &[]), "me@vps:/backup/da");
    let env = env_now();
    assert_eq!(hits_dir("me@vps:/backup/da", &env), None);
}

#[test]
fn completion_takes_the_longest_common_prefix_of_sorted_hits() {
    let listing = vec![file("photos-b.txt"), dir("photos-a"), file(".photos"), file("music")];
    let hits = path_hits("/d/pho", &listing);
    assert_eq!(hits, vec!["/d/photos-a/".to_string(), "/d/photos-b.txt".to_string()]);
    assert_eq!(complete_path("/d/pho", &listing), "/d/photos-");
    assert_eq!(path_hits("/d/.ph", &listing), vec!["/d/.photos".to_string()]);
    assert_eq!(complete_path("/d/zzz", &listing), "/d/zzz");
    assert_eq!(path_hits("mu", &listing), vec!["music".to_string()]);
    assert_eq!(path_hits("/mu", &listing), vec!["/music".to_string()]);
}

#[test]
fn completion_lists_the_typed_directory() {
    let mut env = env_now();
    env.set_var("HOME", "/home/me");
    assert_eq!(hits_dir("arc", &env), Some(".".to_string()));
    assert_eq!(hits_dir("/arc", &env), Some("/".to_string()));
    assert_eq!(hits_dir("~/docs/arc", &env), Some("/home/me/docs".to_string()));
}
