use lazyrsync::headless::{
    next_step, Step,
    dest_to_create,
    exit_code, failure_line, header_line, list_lines, list_output, refusal, run, select, summary, task_code, task_ok,
    RunStart, SelectError, TaskOutcome,
};
use lazyrsync::env::{Clock, Env};
use lazyrsync::profile::{Profile, Task};

fn task(id: &str, source: &str, dest: &str) -> Task {
    let mut t = Task::new(&format!("{id} label"), source, dest);
    t.id = id.to_string();
    t
}

fn profile(tasks: Vec<Task>) -> Profile {
    let mut p = Profile::new("backups");
    p.tasks = tasks;
    p
}

#[test]
fn unknown_profile_returns_2() {
    let ps = vec![profile(vec![task("photos", "/src/", "/dst/")])];
    assert_eq!(run(&ps, "nope", false, false).exit_code(), Some(2));
    assert!(select(&ps, "nope").unwrap_err().message().contains("backups"));
}

#[test]
fn unknown_task_id_returns_2() {
    let ps = vec![profile(vec![task("photos", "/src/", "/dst/")])];
    assert_eq!(run(&ps, "backups/nope", false, false).exit_code(), Some(2));
    assert!(select(&ps, "backups/nope").unwrap_err().message().contains("photos"));
}

#[test]
fn empty_config_says_so_instead_of_dangling() {
    let err = select(&[], "backups").unwrap_err().message();
    assert!(err.contains("no profiles configured"), "got: {err}");
}

#[test]
fn whole_profile_selects_every_task() {
    let ps = vec![profile(vec![
        task("photos", "/src/", "/dst/"),
        task("music", "/src2/", "/dst2/"),
    ])];
    let picked = select(&ps, "backups").unwrap();
    let ids: Vec<&str> = picked.iter().map(|t| t.id.as_str()).collect();
    assert_eq!(ids, vec!["photos", "music"]);
}

#[test]
fn task_target_selects_only_that_task() {
    let ps = vec![profile(vec![
        task("photos", "/src/", "/dst/"),
        task("music", "/src2/", "/dst2/"),
    ])];
    let picked = select(&ps, "backups/music").unwrap();
    assert_eq!(picked.len(), 1);
    assert_eq!(picked[0].id, "music");
}

#[test]
fn select_error_messages_are_exact() {
    let ps = vec![profile(vec![
        task("photos", "/src/", "/dst/"),
        task("music", "/src2/", "/dst2/"),
    ])];
    assert_eq!(
        select(&[], "x").unwrap_err().message(),
        "no profiles configured (add one in the TUI: lazyrsync)"
    );
    assert_eq!(
        select(&ps, "nope").unwrap_err().message(),
        "no profile named 'nope' (have: backups)"
    );
    let e = select(&ps, "backups/nope").unwrap_err();
    assert!(matches!(e, SelectError::NoTask { .. }));
    assert_eq!(e.message(), "no task 'nope' in profile 'backups' (have: photos, music)");
}

#[test]
fn target_splits_at_the_first_slash() {
    let ps = vec![profile(vec![task("a/b", "/src/", "/dst/")])];
    let picked = select(&ps, "backups/a/b").unwrap();
    assert_eq!(picked.len(), 1);
    assert_eq!(picked[0].id, "a/b");
}

#[test]
fn run_reports_an_unknown_target_on_stderr() {
    let ps = vec![profile(vec![task("photos", "/src/", "/dst/")])];
    match run(&ps, "nope", false, false) {
        RunStart::Exit { code, message } => {
            assert_eq!(code, 2);
            assert_eq!(message, "error: no profile named 'nope' (have: backups)");
        }
        RunStart::Tasks(_) => panic!("an unknown profile must not run"),
    }
}

#[test]
fn a_profile_without_tasks_exits_0_and_says_so() {
    let ps = vec![profile(vec![])];
    match run(&ps, "backups", false, false) {
        RunStart::Exit { code, message } => {
            assert_eq!(code, 0);
            assert_eq!(message, "nothing to run: 'backups' has no tasks");
        }
        RunStart::Tasks(_) => panic!("nothing to run"),
    }
}

#[test]
fn delete_without_yes_is_refused_and_nothing_runs() {
    let mut deleting = task("music", "/src2/", "/dst2/");
    deleting.flags.delete = true;
    let ps = vec![profile(vec![task("photos", "/src/", "/dst/"), deleting])];
    match run(&ps, "backups", false, false) {
        RunStart::Exit { code, message } => {
            assert_eq!(code, 1);
            assert!(message.contains("'music'"));
            assert!(message.contains("nothing ran"));
        }
        RunStart::Tasks(_) => panic!("the delete gate must refuse"),
    }
    assert!(run(&ps, "backups", false, true).exit_code().is_none());
    assert!(run(&ps, "backups", true, false).exit_code().is_none());
    assert!(run(&ps, "backups/photos", false, false).exit_code().is_none());
}

#[test]
fn delete_excluded_also_trips_the_gate() {
    let mut t = task("photos", "/src/", "/dst/");
    t.flags.delete_excluded = true;
    let plain = task("music", "/src/", "/dst/");
    assert_eq!(refusal(&[&plain, &t], false, false), Some(1));
    assert_eq!(refusal(&[&plain, &t], true, false), None);
    assert_eq!(refusal(&[&plain, &t], false, true), None);
    assert_eq!(refusal(&[&plain], false, false), None);
}

#[test]
fn raw_delete_arguments_are_not_read_by_the_gate() {
    let mut t = task("photos", "/src/", "/dst/");
    t.advanced.raw_args = "--delete".into();
    assert_eq!(refusal(&[&t], false, false), None);
}

#[test]
fn run_hands_back_the_chosen_tasks_in_order() {
    let ps = vec![profile(vec![
        task("photos", "/src/", "/dst/"),
        task("music", "/src2/", "/dst2/"),
    ])];
    match run(&ps, "backups", false, false) {
        RunStart::Tasks(ts) => {
            let ids: Vec<&str> = ts.iter().map(|t| t.id.as_str()).collect();
            assert_eq!(ids, vec!["photos", "music"]);
        }
        RunStart::Exit { .. } => panic!("should run"),
    }
}

#[test]
fn vanished_files_count_as_success() {
    assert!(task_ok(TaskOutcome::Exited(0)));
    assert!(task_ok(TaskOutcome::Exited(24)));
    assert!(!task_ok(TaskOutcome::Exited(23)));
    assert!(!task_ok(TaskOutcome::Killed));
    assert!(!task_ok(TaskOutcome::NotStarted));
}

#[test]
fn unstarted_or_killed_tasks_stand_for_3() {
    assert_eq!(task_code(TaskOutcome::NotStarted), 3);
    assert_eq!(task_code(TaskOutcome::Killed), 3);
    assert_eq!(task_code(TaskOutcome::Exited(23)), 23);
}

#[test]
fn exit_code_is_the_first_failure() {
    assert_eq!(exit_code(&[]), 0);
    assert_eq!(exit_code(&[TaskOutcome::Exited(0), TaskOutcome::Exited(24)]), 0);
    assert_eq!(
        exit_code(&[
            TaskOutcome::Exited(0),
            TaskOutcome::Exited(23),
            TaskOutcome::NotStarted
        ]),
        23
    );
    assert_eq!(exit_code(&[TaskOutcome::Killed, TaskOutcome::Exited(23)]), 3);
}

#[test]
fn failure_and_header_lines() {
    let t = task("photos-3f2a", "/src/", "/dst/");
    assert_eq!(failure_line(&t, TaskOutcome::Exited(23)), "✗ photos-3f2a failed: exit 23");
    assert_eq!(failure_line(&t, TaskOutcome::NotStarted), "✗ photos-3f2a failed: exit 3");
    assert_eq!(failure_line(&t, TaskOutcome::Exited(-1)), "✗ photos-3f2a failed: exit -1");
    assert_eq!(header_line(&t), "→ photos-3f2a label");
}

#[test]
fn summary_counts_ok_and_failed() {
    let os = [TaskOutcome::Exited(0), TaskOutcome::Exited(23), TaskOutcome::Exited(24)];
    assert_eq!(summary(&os), "3 tasks: 2 ok, 1 failed");
    assert_eq!(summary(&[TaskOutcome::Exited(0)]), "1 task: 1 ok, 0 failed");
    assert_eq!(summary(&[]), "0 tasks: 0 ok, 0 failed");
}

#[test]
fn list_shows_each_task_id_and_its_command() {
    let ps = vec![profile(vec![
        task("photos", "/src/", "/dst/"),
        task("music", "/src2/", "/dst2/"),
    ])];
    let cmds = vec![vec!["rsync A".to_string(), "rsync B".to_string()]];
    assert_eq!(
        list_lines(&ps, &cmds),
        vec!["backups", "  photos", "      rsync A", "  music", "      rsync B", ""]
    );
    assert_eq!(
        list_lines(&[], &[]),
        vec!["No profiles. Add one in the TUI (run `lazyrsync`)."]
    );
}

#[test]
fn a_dry_run_creates_no_destination() {
    let env = Env::new(Clock { secs: 0, nanos: 0, offset: 0 });
    let t = task("photos", "/src/", "/mnt/bak/{now}/");
    assert_eq!(dest_to_create(&t, true, &env, &[]), None);
    assert_eq!(
        dest_to_create(&t, false, &env, &[]).as_deref(),
        Some("/mnt/bak/1970-01-01/")
    );
    let r = task("remote", "/src/", "me@vps:/bak/");
    assert_eq!(dest_to_create(&r, false, &env, &[]), None);
}

#[test]
fn a_task_target_picks_one_of_the_profile_tasks() {
    let ps = vec![profile(vec![
        task("photos", "/src/", "/dst/"),
        task("music", "/src2/", "/dst2/"),
    ])];
    let all = select(&ps, "backups").unwrap();
    for id in ["photos", "music"] {
        let one = select(&ps, &format!("backups/{id}")).unwrap();
        assert_eq!(one.len(), 1);
        assert_eq!(one[0].id, id);
        assert!(all.iter().any(|t| t.id == one[0].id && t.dest == one[0].dest));
    }
}

#[test]
fn a_failing_task_does_not_stop_the_rest() {
    assert_eq!(next_step(3, &[]), Step::Run(0));
    assert_eq!(next_step(3, &[TaskOutcome::Exited(23)]), Step::Run(1));
    assert_eq!(next_step(3, &[TaskOutcome::Exited(23), TaskOutcome::NotStarted]), Step::Run(2));
    assert_eq!(
        next_step(3, &[TaskOutcome::Exited(23), TaskOutcome::NotStarted, TaskOutcome::Exited(0)]),
        Step::Finish(23)
    );
    assert_eq!(next_step(0, &[]), Step::Finish(0));
}

#[test]
fn list_shows_the_resolved_command_of_each_task() {
    let env = Env::new(Clock { secs: 0, nanos: 0, offset: 0 });
    let ps = vec![profile(vec![task("photos", "/src/", "/bak/{now}/")])];
    let names: Vec<Vec<Vec<String>>> = vec![vec![vec![]]];
    assert_eq!(
        list_output(&ps, &env, &names),
        vec![
            "backups",
            "  photos",
            "      rsync -a -z -v --info=progress2 -- /src/ /bak/1970-01-01/",
            ""
        ]
    );
    assert_eq!(
        list_output(&[], &env, &[]),
        vec!["No profiles. Add one in the TUI (run `lazyrsync`)."]
    );
}
