use lazyrsync::env::{Clock, Env};
use lazyrsync::profile::{Action, Task};
use lazyrsync::rsync::{
    build_args, build_args_with, headless_args, is_resolvable, next_snapshot_n, prepare_dest, resolve,
    resolved_command, snapshot_dir, snapshot_info, snapshot_info_root, snapshot_root, split_args,
    ArgOpts,
};

fn env() -> Env {
    let n = chrono::Local::now();
    Env::new(Clock { secs: n.timestamp(), nanos: n.timestamp_subsec_nanos(), offset: n.offset().local_minus_utc() })
}

const NONE: &[String] = &[];

fn names(xs: &[&str]) -> Vec<String> {
    xs.iter().map(|s| s.to_string()).collect()
}

#[test]
fn default_sync_is_safe_archive() {
    let p = Task::new("t", "/src/", "/dst/");
    let args = build_args(&p, false, &env(), NONE);
    assert!(args.contains(&"-a".to_string()));
    assert!(args.contains(&"-z".to_string()));
    assert!(args.contains(&"--info=progress2".to_string()));
    assert_eq!(args[args.len() - 2], "/src/");
    assert_eq!(args[args.len() - 1], "/dst/");
    assert!(!args.contains(&"--delete".to_string()));
}

#[test]
fn filter_flags_all_emit_before_path_guard() {
    let mut p = Task::new("t", "/src/", "/dst/");
    p.filters.includes = vec!["*.txt".into()];
    p.filters.excludes = vec!["*.log".into()];
    p.filters.filter = vec!["- .git".into()];
    p.filters.include_from = "/inc.txt".into();
    p.filters.exclude_from = "/exc.txt".into();
    p.filters.files_from = "/files.txt".into();
    let args = build_args(&p, false, &env(), NONE);
    for expected in [
        "--filter=- .git",
        "--include=*.txt",
        "--include-from=/inc.txt",
        "--exclude=*.log",
        "--exclude-from=/exc.txt",
        "--files-from=/files.txt",
    ] {
        assert!(args.contains(&expected.to_string()), "missing {expected}");
    }
    let pos = |s: &str| args.iter().position(|a| a == s).unwrap();
    assert!(pos("--filter=- .git") < pos("--include=*.txt"));
    assert!(pos("--include=*.txt") < pos("--exclude=*.log"));
    assert_eq!(args[args.len() - 3], "--");
}

#[test]
fn paths_are_guarded_by_end_of_options() {
    let p = Task::new("t", "-n", "/dst/");
    let args = build_args(&p, false, &env(), NONE);
    assert_eq!(args[args.len() - 3], "--");
    assert_eq!(args[args.len() - 2], "-n");
    assert_eq!(args[args.len() - 1], "/dst/");
}

#[test]
fn raw_args_respects_quotes() {
    let mut p = Task::new("t", "/src/", "/dst/");
    p.advanced.raw_args = "--rsync-path='/opt/my rsync/rsync' --stats".into();
    let args = build_args(&p, false, &env(), NONE);
    assert!(args.contains(&"--rsync-path=/opt/my rsync/rsync".to_string()));
    assert!(args.contains(&"--stats".to_string()));
}

#[test]
fn split_args_handles_quotes_and_whitespace() {
    assert_eq!(split_args("a  b\tc"), vec!["a", "b", "c"]);
    assert_eq!(split_args("\"a b\" c"), vec!["a b", "c"]);
    assert_eq!(split_args("--x='y z'"), vec!["--x=y z"]);
    assert!(split_args("   ").is_empty());
}

#[test]
fn split_args_keeps_quoted_empty_words_and_the_other_quote() {
    assert_eq!(split_args("'' x"), vec!["", "x"]);
    assert_eq!(split_args("\"it's\" 'say \"hi\"'"), vec!["it's", "say \"hi\""]);
    assert_eq!(split_args("a\u{3000}b"), vec!["a", "b"]);
    assert_eq!(split_args("-v -z --partial"), vec!["-v", "-z", "--partial"]);
}

#[test]
fn prepare_dest_creates_snapshot_root() {
    let root = "/tmp/lr-prep/snaps";
    let mut p = Task::new("t", "/src/", root);
    p.action = Action::Snapshot;
    assert_eq!(prepare_dest(&p, &env(), NONE), Some(format!("{root}/1")));
}

#[test]
fn prepare_dest_creates_parents_for_a_nested_sync_dest() {
    let dst = "/tmp/lr-nest/dst/host/2026-07-27";
    let p = Task::new("t", "/src/", &format!("{}/", dst));
    assert_eq!(prepare_dest(&p, &env(), NONE), Some(format!("{dst}/")));
    let r = Task::new("t", "/src/", "me@vps:/backup/");
    assert_eq!(prepare_dest(&r, &env(), NONE), None);
}

#[test]
fn filter_file_paths_expand_tilde() {
    let mut e = env();
    e.set_var("HOME", "/home/tester");
    let mut p = Task::new("t", "/src/", "/dst/");
    p.filters.exclude_from = "~/exclude.txt".into();
    p.filters.include_from = "~/inc.txt".into();
    p.filters.files_from = "~/files.txt".into();
    let args = build_args(&p, false, &e, NONE);
    assert!(args.contains(&"--exclude-from=/home/tester/exclude.txt".to_string()));
    assert!(args.contains(&"--include-from=/home/tester/inc.txt".to_string()));
    assert!(args.contains(&"--files-from=/home/tester/files.txt".to_string()));
}

#[test]
fn dry_run_adds_n_itemize_and_stats() {
    let p = Task::new("t", "/src/", "/dst/");
    let args = build_args(&p, true, &env(), NONE);
    assert!(args.contains(&"-n".to_string()));
    assert!(args.contains(&"--itemize-changes".to_string()));
    assert!(args.contains(&"--stats".to_string()));
}

#[test]
fn without_stats_keeps_the_dry_run_diff_but_drops_the_stats_block() {
    let p = Task::new("t", "/src/", "/dst/");
    let args = build_args_with(
        &p,
        ArgOpts {
            dry_run: true,
            stats: false,
            quiet: false,
        },
        &env(),
        NONE,
    );
    assert!(args.contains(&"-n".to_string()));
    assert!(args.contains(&"--itemize-changes".to_string()));
    assert!(!args.contains(&"--stats".to_string()));
}

#[test]
fn quiet_emits_q_before_the_path_guard() {
    let p = Task::new("t", "/src/", "/dst/");
    let args = build_args_with(
        &p,
        ArgOpts {
            dry_run: false,
            stats: false,
            quiet: true,
        },
        &env(),
        NONE,
    );
    let q = args.iter().position(|a| a == "-q").expect("missing -q");
    let guard = args.iter().position(|a| a == "--").expect("missing --");
    assert!(
        q < guard,
        "-q must precede the end-of-options guard: {args:?}"
    );
    assert!(!build_args(&p, false, &env(), NONE).contains(&"-q".to_string()));
}

#[test]
fn inline_remote_dest_passes_through() {
    let p = Task::new("t", "/src/", "me@vps:/backup/");
    let args = build_args(&p, false, &env(), NONE);
    assert_eq!(args[args.len() - 2], "/src/");
    assert_eq!(args[args.len() - 1], "me@vps:/backup/");
}

#[test]
fn inline_remote_source_passes_through() {
    let p = Task::new("t", "me@vps:/data/", "/local/");
    let args = build_args(&p, false, &env(), NONE);
    assert_eq!(args[args.len() - 2], "me@vps:/data/");
    assert_eq!(args[args.len() - 1], "/local/");
}

#[test]
fn snapshot_builds_numbered_dest_and_link_dest() {
    let base = "/tmp/lr-snap";
    let listing = names(&["1"]);
    let mut p = Task::new("t", "/src/", base);
    p.action = Action::Snapshot;
    let ep = resolve(&p, &env(), &listing);
    assert_eq!(ep.dst, format!("{}/2", base));
    assert_eq!(ep.link_dest, Some(format!("{}/1", base)));
}

#[test]
fn first_snapshot_links_against_nothing_and_the_chain_continues() {
    let mut p = Task::new("t", "/src/", "/snaps///");
    p.action = Action::Snapshot;
    let e = env();
    let first = resolve(&p, &e, &names(&["notes", "+x", ".cache"]));
    assert_eq!(first.dst, "/snaps/1");
    assert_eq!(first.link_dest, None);
    let later = resolve(&p, &e, &names(&["1", "7", "03", "+2", "x9", "4294967294"]));
    assert_eq!(later.dst, "/snaps/4294967295");
    assert_eq!(later.link_dest, Some("/snaps/4294967294".to_string()));
    let args = build_args(&p, false, &e, &names(&["2"]));
    assert!(args.contains(&"--link-dest=/snaps/2".to_string()));
    assert_eq!(next_snapshot_n(&names(&["+5", "4"])), 6);
    assert_eq!(snapshot_root(&p, &e), "/snaps");
    assert_eq!(snapshot_dir("/snaps", 12), "/snaps/12");
}

#[test]
fn snapshot_info_counts_numbered_entries() {
    let mut p = Task::new("t", "/src/", "/snaps/");
    let e = env();
    assert!(snapshot_info_root(&p, &e).is_none());
    p.action = Action::Snapshot;
    assert_eq!(snapshot_info_root(&p, &e), Some("/snaps".to_string()));
    let info = snapshot_info(&names(&["1", "3", "tmp"]), Some(1700000000));
    assert_eq!((info.count, info.latest, info.next, info.newest_unix), (2, 3, 4, Some(1700000000)));
    let empty = snapshot_info(&names(&["tmp"]), Some(5));
    assert_eq!((empty.count, empty.latest, empty.next, empty.newest_unix), (0, 0, 1, None));
    let remote = {
        let mut r = Task::new("t", "/src/", "me@vps:/snaps");
        r.action = Action::Snapshot;
        r
    };
    assert!(snapshot_info_root(&remote, &e).is_none());
}

#[test]
fn preserve_flags_apply_on_top_of_archive() {
    let mut p = Task::new("t", "/src/", "/dst/");
    p.flags.hardlinks = true;
    let args = build_args(&p, false, &env(), NONE);
    assert!(args.contains(&"-a".to_string()));
    assert!(args.contains(&"-H".to_string()));

    p.flags.archive = false;
    let args = build_args(&p, false, &env(), NONE);
    assert!(!args.contains(&"-a".to_string()));
    assert!(args.contains(&"-H".to_string()));
}

#[test]
fn remote_always_builds_rsh_with_batchmode() {
    let p = Task::new("t", "/src/", "user@host:/dst/");
    assert!(build_args(&p, false, &env(), NONE)
        .iter()
        .any(|a| a == "--rsh=ssh -o BatchMode=yes"));
    let mut q = Task::new("t", "/src/", "user@host:/dst/");
    q.ssh.port = 2222;
    assert!(build_args(&q, false, &env(), NONE)
        .iter()
        .any(|a| a == "--rsh=ssh -o BatchMode=yes -p 2222"));
}

#[test]
fn rsh_carries_key_and_trimmed_extra_options() {
    let mut q = Task::new("t", "host:/data/", "/local/");
    q.ssh.keyfile = "/k/id".into();
    q.ssh.extra = "  -C -4 ".into();
    assert!(build_args(&q, false, &env(), NONE)
        .iter()
        .any(|a| a == "--rsh=ssh -o BatchMode=yes -i /k/id -C -4"));
}

#[test]
fn local_dest_never_builds_rsh() {
    let mut p = Task::new("t", "/src/", "/dst/");
    p.ssh.port = 2222;
    let args = build_args(&p, false, &env(), NONE);
    assert!(!args.iter().any(|a| a.starts_with("--rsh")));
}

#[test]
fn bwlimit_only_when_set() {
    let mut p = Task::new("t", "/src/", "/dst/");
    assert!(!build_args(&p, false, &env(), NONE)
        .iter()
        .any(|a| a.starts_with("--bwlimit")));
    p.flags.bwlimit_kbps = 5000;
    assert!(build_args(&p, false, &env(), NONE).iter().any(|a| a == "--bwlimit=5000"));
}

#[test]
fn every_switch_in_its_place() {
    let mut p = Task::new("t", "/s", "/d");
    p.flags.acls = true;
    p.flags.xattrs = true;
    p.flags.human = true;
    p.flags.update = true;
    p.flags.checksum = true;
    p.flags.delete = true;
    p.flags.delete_excluded = true;
    p.flags.backup = true;
    p.flags.partial = true;
    p.flags.size_only = true;
    p.flags.existing = true;
    p.flags.ignore_existing = true;
    let args = build_args(&p, false, &env(), NONE);
    let want: Vec<&str> = vec![
        "-a", "-A", "-X", "-z", "-v", "-h", "-u", "-c", "--delete", "--delete-excluded",
        "--backup", "--partial", "--size-only", "--existing", "--ignore-existing",
        "--info=progress2", "--", "/s", "/d",
    ];
    assert_eq!(args, want);
    let dry = build_args(&p, true, &env(), NONE);
    assert!(!dry.contains(&"-h".to_string()));
}

#[test]
fn headless_args_drop_progress_and_stats_and_are_quiet_only_when_real() {
    let p = Task::new("t", "/s/", "/d/");
    let real = headless_args(&p, false, false, &env(), NONE);
    assert_eq!(real, vec!["-a", "-z", "-v", "-q", "--", "/s/", "/d/"]);
    let dry = headless_args(&p, true, false, &env(), NONE);
    assert_eq!(dry, vec!["-a", "-z", "-v", "-n", "--itemize-changes", "--", "/s/", "/d/"]);
}

#[test]
fn resolved_command_is_one_line() {
    let p = Task::new("t", "/s/", "/d/");
    assert_eq!(
        resolved_command(&p, false, &env(), NONE),
        "rsync -a -z -v --info=progress2 -- /s/ /d/"
    );
}

#[test]
fn a_full_snapshot_root_cannot_be_numbered() {
    let mut p = Task::new("t", "/src/", "/snaps/");
    assert!(is_resolvable(&p, &names(&["4294967295"])));
    p.action = Action::Snapshot;
    assert!(is_resolvable(&p, &names(&["1", "2", "x"])));
    assert!(is_resolvable(&p, &names(&["4294967294"])));
    assert!(!is_resolvable(&p, &names(&["1", "4294967295"])));
}

#[test]
fn unquoted_raw_args_split_like_split_whitespace() {
    for s in ["a  b\tc", "  --x=1 \n -v ", "", "   ", "one"] {
        let want: Vec<String> = s.split_whitespace().map(String::from).collect();
        assert_eq!(split_args(s), want);
    }
}

#[test]
fn raw_args_stand_just_before_the_guard() {
    let mut p = Task::new("t", "/src/", "me@h:/dst/");
    p.filters.excludes = vec!["*.log".into()];
    p.advanced.raw_args = "--stats  --numeric-ids".into();
    let args = build_args(&p, false, &env(), NONE);
    let n = args.len();
    assert_eq!(&args[n - 5..], &["--stats", "--numeric-ids", "--", "/src/", "me@h:/dst/"]);
}

#[test]
fn filter_options_form_one_block_in_order() {
    let mut p = Task::new("t", "/src/", "/dst/");
    p.flags.delete = true;
    p.filters.filter = vec!["- .git".into()];
    p.filters.includes = vec!["*.txt".into()];
    p.filters.excludes = vec!["*.log".into(), "*.tmp".into()];
    p.filters.files_from = "/files.txt".into();
    let args = build_args(&p, true, &env(), NONE);
    let first = args.iter().position(|a| a.starts_with("--filter=")).unwrap();
    assert_eq!(
        &args[first..first + 5],
        &["--filter=- .git", "--include=*.txt", "--exclude=*.log", "--exclude=*.tmp", "--files-from=/files.txt"]
    );
}

#[test]
fn headless_args_are_the_tui_args_without_progress() {
    let mut p = Task::new("t", "/src/", "/dst/");
    p.flags.bwlimit_kbps = 100;
    for dry in [false, true] {
        for verbose in [false, true] {
            let opts = ArgOpts { dry_run: dry, stats: false, quiet: !dry && !verbose };
            let mut tui = build_args_with(&p, opts, &env(), NONE);
            let i = tui.iter().position(|a| a == "--info=progress2").unwrap();
            tui.remove(i);
            assert_eq!(headless_args(&p, dry, verbose, &env(), NONE), tui);
        }
    }
}

#[test]
fn verbose_headless_runs_show_rsyncs_own_output() {
    let p = Task::new("t", "/s/", "/d/");
    let real = headless_args(&p, false, true, &env(), NONE);
    assert_eq!(real, vec!["-a", "-z", "-v", "--", "/s/", "/d/"]);
    let dry = headless_args(&p, true, true, &env(), NONE);
    assert_eq!(dry, vec!["-a", "-z", "-v", "-n", "--itemize-changes", "--", "/s/", "/d/"]);
}
