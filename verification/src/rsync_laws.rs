//! What every rsync argument list keeps, whatever the task: the paths stand
//! last behind `--`, destructive and dry-run switches appear exactly when
//! asked for, and snapshots chain onto the one before.

use vstd::prelude::*;
use crate::env::Env;
use crate::profile::{Action, Task};
use crate::rsync::{
    join_space, split_init, split_run, split_step, SplitState,
    long_pairs, max_number, numbered, opt_arg, prefixed, seg_filters, seg_link_dry, seg_long,
    seg_short, seg_tail, short_pairs, spec_assemble, headless_opts, spec_resolve, spec_rsh, spec_split_args,
    spec_snapshot_root, switches, spec_build_args, ArgOpts,
};
use crate::text::{all_digits, dec, digit, digits_value, is_prefix, is_ws, parse_u32, trim, trim_end, trim_start};

verus! {

/// The hand-written words that a task adds to its argument list.
pub open spec fn raw_words(task: Task) -> Seq<Seq<char>> {
    if trim(task.advanced.raw_args@).len() > 0 {
        spec_split_args(task.advanced.raw_args@)
    } else {
        seq![]
    }
}

/// Everything before the `--` guard.
pub open spec fn option_part(args: Seq<Seq<char>>) -> Seq<Seq<char>> {
    args.take(args.len() - 3)
}

proof fn lemma_contains_add(a: Seq<Seq<char>>, b: Seq<Seq<char>>, x: Seq<char>)
    ensures
        (a + b).contains(x) <==> (a.contains(x) || b.contains(x)),
{
    if a.contains(x) {
        let i = choose|i: int| 0 <= i < a.len() && a[i] == x;
        assert((a + b)[i] == x);
    }
    if b.contains(x) {
        let i = choose|i: int| 0 <= i < b.len() && b[i] == x;
        assert((a + b)[a.len() + i] == x);
    }
    if (a + b).contains(x) {
        let i = choose|i: int| 0 <= i < (a + b).len() && (a + b)[i] == x;
        if i < a.len() {
            assert(a[i] == x);
        } else {
            assert(b[i - a.len()] == x);
        }
    }
}

proof fn lemma_switches_contains(ps: Seq<(bool, Seq<char>)>, x: Seq<char>)
    ensures
        switches(ps).contains(x) <==> exists|i: int|
            0 <= i < ps.len() && (#[trigger] ps[i]).0 && ps[i].1 == x,
    decreases ps.len(),
{
    if ps.len() > 0 {
        let init = ps.drop_last();
        lemma_switches_contains(init, x);
        lemma_contains_add(switches(init), opt_arg(ps.last().0, ps.last().1), x);
        if exists|i: int| 0 <= i < ps.len() && (#[trigger] ps[i]).0 && ps[i].1 == x {
            let i = choose|i: int| 0 <= i < ps.len() && (#[trigger] ps[i]).0 && ps[i].1 == x;
            if i < init.len() {
                assert(init[i] == ps[i]);
            } else {
                assert(opt_arg(ps.last().0, ps.last().1)[0] == x);
            }
        }
        if switches(init).contains(x) {
            let i = choose|i: int| 0 <= i < init.len() && (#[trigger] init[i]).0 && init[i].1 == x;
            assert(ps[i] == init[i]);
        }
        if opt_arg(ps.last().0, ps.last().1).contains(x) {
            assert(ps[ps.len() - 1].0 && ps[ps.len() - 1].1 == x);
        }
    }
}

/// `a` differs from `b` at position `k` of `a`: `b` is too short to reach it,
/// or holds another character there.
spec fn differs_by(a: Seq<char>, b: Seq<char>, k: int) -> bool {
    0 <= k < a.len() && (k >= b.len() || a[k] != b[k])
}

proof fn lemma_differs_at(a: Seq<char>, b: Seq<char>, k: int)
    requires
        differs_by(a, b, k),
    ensures
        a != b,
{
}

proof fn lemma_prefixed_excludes(p: Seq<char>, xs: Seq<String>, lit: Seq<char>, k: int)
    requires
        differs_by(p, lit, k),
    ensures
        !prefixed(p, xs).contains(lit),
    decreases xs.len(),
{
    if xs.len() > 0 {
        lemma_prefixed_excludes(p, xs.drop_last(), lit, k);
        let last = p + xs.last()@;
        assert(last[k] == p[k]);
        lemma_differs_at(last, lit, k);
        let ys = prefixed(p, xs.drop_last());
        assert(prefixed(p, xs) == ys.push(last));
        if ys.push(last).contains(lit) {
            let i = choose|i: int| 0 <= i < ys.push(last).len() && ys.push(last)[i] == lit;
            if i < ys.len() {
                assert(ys[i] == lit);
            }
        }
    }
}

proof fn lemma_prefix_item_excludes(p: Seq<char>, x: Seq<char>, b: bool, lit: Seq<char>, k: int)
    requires
        differs_by(p, lit, k),
    ensures
        !opt_arg(b, p + x).contains(lit),
{
    assert((p + x)[k] == p[k]);
    lemma_differs_at(p + x, lit, k);
    if b {
        if opt_arg(b, p + x).contains(lit) {
            assert(opt_arg(b, p + x)[0] == lit);
        }
    }
}

proof fn lemma_one_excludes(x: Seq<char>, lit: Seq<char>)
    requires
        x != lit,
    ensures
        !seq![x].contains(lit),
{
    if seq![x].contains(lit) {
        assert(seq![x][0] == lit);
    }
}

/// The argument list ends with `--`, the source and the destination, so no
/// path is ever read as an option.
pub proof fn law_paths_close_the_argument_list(
    env: Env,
    task: Task,
    ep: (Seq<char>, Seq<char>, Option<Seq<char>>),
    opts: ArgOpts,
    progress: bool,
)
    ensures
        ({
            let a = spec_assemble(env, task, ep, opts, progress);
            &&& a.len() >= 3
            &&& a[a.len() - 3] == "--"@
            &&& a[a.len() - 2] == ep.0
            &&& a[a.len() - 1] == ep.1
        }),
{
    let a = spec_assemble(env, task, ep, opts, progress);
    let head = seg_short(task, opts) + seg_long(task, progress) + seg_link_dry(ep.2, opts)
        + seg_filters(env, task);
    let t = seg_tail(task, ep);
    assert(a == head + t);
    assert(t[t.len() - 3] == "--"@);
}

proof fn lemma_option_part(
    env: Env,
    task: Task,
    ep: (Seq<char>, Seq<char>, Option<Seq<char>>),
    opts: ArgOpts,
    progress: bool,
)
    ensures
        option_part(spec_assemble(env, task, ep, opts, progress)) == seg_short(task, opts)
            + seg_long(task, progress) + seg_link_dry(ep.2, opts) + seg_filters(env, task) + (
        match spec_rsh(task, ep.0, ep.1) {
            Some(r) => seq!["--rsh="@ + r],
            None => seq![],
        }) + raw_words(task),
{
    let a = spec_assemble(env, task, ep, opts, progress);
    let rest = seg_short(task, opts) + seg_long(task, progress) + seg_link_dry(ep.2, opts)
        + seg_filters(env, task) + (match spec_rsh(task, ep.0, ep.1) {
        Some(r) => seq!["--rsh="@ + r],
        None => seq![],
    }) + raw_words(task);
    assert(a =~= rest + seq!["--"@, ep.0, ep.1]);
    assert(a.take(a.len() - 3) =~= rest);
}

/// `--delete` stands among the options exactly when the task's delete flag
/// is set, or when the task's hand-written arguments hold it themselves.
pub proof fn law_delete_only_when_asked(
    env: Env,
    task: Task,
    ep: (Seq<char>, Seq<char>, Option<Seq<char>>),
    opts: ArgOpts,
    progress: bool,
)
    ensures
        option_part(spec_assemble(env, task, ep, opts, progress)).contains("--delete"@) <==> (
        task.flags.delete || raw_words(task).contains("--delete"@)),
{
    reveal_strlit("--delete");
    reveal_strlit("-a");
    reveal_strlit("-H");
    reveal_strlit("-A");
    reveal_strlit("-X");
    reveal_strlit("-z");
    reveal_strlit("-v");
    reveal_strlit("-q");
    reveal_strlit("-h");
    reveal_strlit("-u");
    reveal_strlit("-c");
    reveal_strlit("--delete-excluded");
    reveal_strlit("--backup");
    reveal_strlit("--partial");
    reveal_strlit("--size-only");
    reveal_strlit("--existing");
    reveal_strlit("--ignore-existing");
    reveal_strlit("--bwlimit=");
    reveal_strlit("--info=progress2");
    reveal_strlit("--link-dest=");
    reveal_strlit("-n");
    reveal_strlit("--itemize-changes");
    reveal_strlit("--stats");
    reveal_strlit("--filter=");
    reveal_strlit("--include=");
    reveal_strlit("--include-from=");
    reveal_strlit("--exclude=");
    reveal_strlit("--exclude-from=");
    reveal_strlit("--files-from=");
    reveal_strlit("--rsh=");
    let d = "--delete"@;
    lemma_option_part(env, task, ep, opts, progress);
    let f = task.flags;
    // The single-letter switches are two characters long.
    let sp = short_pairs(task, opts);
    lemma_switches_contains(sp, d);
    assert forall|i: int| 0 <= i < sp.len() implies (#[trigger] sp[i]).1 != d by {
        assert(sp[i].1.len() == 2);
    }
    // Among the long switches only `--delete` itself is `--delete`.
    let lp = long_pairs(task);
    lemma_switches_contains(lp, d);
    assert forall|i: int| 1 <= i < lp.len() implies (#[trigger] lp[i]).1 != d by {
        if i == 1 {
            assert(lp[i].1.len() != d.len());
        } else if i == 2 {
            lemma_differs_at("--backup"@, d, 2);
        } else if i == 3 {
            lemma_differs_at("--partial"@, d, 2);
        } else if i == 4 {
            lemma_differs_at("--size-only"@, d, 2);
        } else if i == 5 {
            lemma_differs_at("--existing"@, d, 2);
        } else {
            lemma_differs_at("--ignore-existing"@, d, 2);
        }
    }
    if f.delete {
        assert(lp[0].0 && lp[0].1 == d);
    }
    let bw = opt_arg(f.bwlimit_kbps > 0, "--bwlimit="@ + dec(f.bwlimit_kbps as nat));
    lemma_prefix_item_excludes("--bwlimit="@, dec(f.bwlimit_kbps as nat), f.bwlimit_kbps > 0, d, 2);
    let pr = opt_arg(f.progress && progress, "--info=progress2"@);
    lemma_differs_at("--info=progress2"@, d, 2);
    if pr.contains(d) {
        assert(pr[0] == d);
    }
    lemma_contains_add(switches(lp), bw, d);
    lemma_contains_add(switches(lp) + bw, pr, d);
    // `--link-dest=…` and the dry-run switches.
    let link = match ep.2 {
        Some(l) => seq!["--link-dest="@ + l],
        None => seq![],
    };
    match ep.2 {
        Some(l) => {
            assert(("--link-dest="@ + l)[2] == 'l');
            lemma_differs_at("--link-dest="@ + l, d, 2);
            lemma_one_excludes("--link-dest="@ + l, d);
        },
        None => {},
    }
    let dry = if opts.dry_run {
        seq!["-n"@, "--itemize-changes"@] + opt_arg(opts.stats, "--stats"@)
    } else {
        seq![]
    };
    if opts.dry_run {
        lemma_differs_at("--itemize-changes"@, d, 2);
        lemma_differs_at("--stats"@, d, 2);
        let ds = seq!["-n"@, "--itemize-changes"@] + opt_arg(opts.stats, "--stats"@);
        if ds.contains(d) {
            let i = choose|i: int| 0 <= i < ds.len() && ds[i] == d;
            assert(ds[i].len() != 8 || ds[i][2] != 'd');
        }
    }
    lemma_contains_add(link, dry, d);
    assert(seg_link_dry(ep.2, opts) == link + dry);
    // The filter rules.
    let fl = task.filters;
    lemma_prefixed_excludes("--filter="@, fl.filter@, d, 2);
    lemma_prefixed_excludes("--include="@, fl.includes@, d, 2);
    lemma_prefixed_excludes("--exclude="@, fl.excludes@, d, 2);
    lemma_prefix_item_excludes(
        "--include-from="@,
        crate::paths::spec_expand_path(env, fl.include_from@),
        fl.include_from@.len() > 0,
        d,
        2,
    );
    lemma_prefix_item_excludes(
        "--exclude-from="@,
        crate::paths::spec_expand_path(env, fl.exclude_from@),
        fl.exclude_from@.len() > 0,
        d,
        2,
    );
    lemma_prefix_item_excludes(
        "--files-from="@,
        crate::paths::spec_expand_path(env, fl.files_from@),
        fl.files_from@.len() > 0,
        d,
        2,
    );
    let f1 = prefixed("--filter="@, fl.filter@);
    let f2 = prefixed("--include="@, fl.includes@);
    let f3 = opt_arg(
        fl.include_from@.len() > 0,
        "--include-from="@ + crate::paths::spec_expand_path(env, fl.include_from@),
    );
    let f4 = prefixed("--exclude="@, fl.excludes@);
    let f5 = opt_arg(
        fl.exclude_from@.len() > 0,
        "--exclude-from="@ + crate::paths::spec_expand_path(env, fl.exclude_from@),
    );
    let f6 = opt_arg(
        fl.files_from@.len() > 0,
        "--files-from="@ + crate::paths::spec_expand_path(env, fl.files_from@),
    );
    lemma_contains_add(f1, f2, d);
    lemma_contains_add(f1 + f2, f3, d);
    lemma_contains_add(f1 + f2 + f3, f4, d);
    lemma_contains_add(f1 + f2 + f3 + f4, f5, d);
    lemma_contains_add(f1 + f2 + f3 + f4 + f5, f6, d);
    assert(seg_filters(env, task) == f1 + f2 + f3 + f4 + f5 + f6);
    // `--rsh=…`.
    let rsh = match spec_rsh(task, ep.0, ep.1) {
        Some(r) => seq!["--rsh="@ + r],
        None => seq![],
    };
    match spec_rsh(task, ep.0, ep.1) {
        Some(r) => {
            assert(("--rsh="@ + r)[2] == 'r');
            lemma_differs_at("--rsh="@ + r, d, 2);
            lemma_one_excludes("--rsh="@ + r, d);
        },
        None => {},
    }
    let s1 = seg_short(task, opts);
    let s2 = seg_long(task, progress);
    let s3 = seg_link_dry(ep.2, opts);
    let s4 = seg_filters(env, task);
    lemma_contains_add(s1, s2, d);
    lemma_contains_add(s1 + s2, s3, d);
    lemma_contains_add(s1 + s2 + s3, s4, d);
    lemma_contains_add(s1 + s2 + s3 + s4, rsh, d);
    lemma_contains_add(s1 + s2 + s3 + s4 + rsh, raw_words(task), d);
}

proof fn lemma_option_part_contains(
    env: Env,
    task: Task,
    ep: (Seq<char>, Seq<char>, Option<Seq<char>>),
    opts: ArgOpts,
    progress: bool,
    x: Seq<char>,
)
    ensures
        option_part(spec_assemble(env, task, ep, opts, progress)).contains(x) <==> (seg_short(
            task,
            opts,
        ).contains(x) || seg_long(task, progress).contains(x) || seg_link_dry(ep.2, opts).contains(
            x,
        ) || seg_filters(env, task).contains(x) || (match spec_rsh(task, ep.0, ep.1) {
            Some(r) => seq!["--rsh="@ + r],
            None => seq![],
        }).contains(x) || raw_words(task).contains(x)),
{
    lemma_option_part(env, task, ep, opts, progress);
    let rsh = match spec_rsh(task, ep.0, ep.1) {
        Some(r) => seq!["--rsh="@ + r],
        None => seq![],
    };
    let s1 = seg_short(task, opts);
    let s2 = seg_long(task, progress);
    let s3 = seg_link_dry(ep.2, opts);
    let s4 = seg_filters(env, task);
    lemma_contains_add(s1, s2, x);
    lemma_contains_add(s1 + s2, s3, x);
    lemma_contains_add(s1 + s2 + s3, s4, x);
    lemma_contains_add(s1 + s2 + s3 + s4, rsh, x);
    lemma_contains_add(s1 + s2 + s3 + s4 + rsh, raw_words(task), x);
}

proof fn lemma_filters_exclude(env: Env, task: Task, x: Seq<char>, ki: int)
    requires
        differs_by("--filter="@, x, 2),
        differs_by("--include="@, x, ki),
        differs_by("--include-from="@, x, ki),
        differs_by("--exclude="@, x, 2),
        differs_by("--exclude-from="@, x, 2),
        differs_by("--files-from="@, x, 2),
    ensures
        !seg_filters(env, task).contains(x),
{
    let fl = task.filters;
    lemma_prefixed_excludes("--filter="@, fl.filter@, x, 2);
    lemma_prefixed_excludes("--include="@, fl.includes@, x, ki);
    lemma_prefixed_excludes("--exclude="@, fl.excludes@, x, 2);
    let e1 = crate::paths::spec_expand_path(env, fl.include_from@);
    let e2 = crate::paths::spec_expand_path(env, fl.exclude_from@);
    let e3 = crate::paths::spec_expand_path(env, fl.files_from@);
    lemma_prefix_item_excludes("--include-from="@, e1, fl.include_from@.len() > 0, x, ki);
    lemma_prefix_item_excludes("--exclude-from="@, e2, fl.exclude_from@.len() > 0, x, 2);
    lemma_prefix_item_excludes("--files-from="@, e3, fl.files_from@.len() > 0, x, 2);
    let f1 = prefixed("--filter="@, fl.filter@);
    let f2 = prefixed("--include="@, fl.includes@);
    let f3 = opt_arg(fl.include_from@.len() > 0, "--include-from="@ + e1);
    let f4 = prefixed("--exclude="@, fl.excludes@);
    let f5 = opt_arg(fl.exclude_from@.len() > 0, "--exclude-from="@ + e2);
    let f6 = opt_arg(fl.files_from@.len() > 0, "--files-from="@ + e3);
    lemma_contains_add(f1, f2, x);
    lemma_contains_add(f1 + f2, f3, x);
    lemma_contains_add(f1 + f2 + f3, f4, x);
    lemma_contains_add(f1 + f2 + f3 + f4, f5, x);
    lemma_contains_add(f1 + f2 + f3 + f4 + f5, f6, x);
    assert(seg_filters(env, task) == f1 + f2 + f3 + f4 + f5 + f6);
}

/// The `--link-dest` and `--rsh` options never spell a long switch whose third
/// character is neither `l` nor `r`.
proof fn lemma_link_rsh_exclude(
    task: Task,
    ep: (Seq<char>, Seq<char>, Option<Seq<char>>),
    x: Seq<char>,
)
    requires
        differs_by("--link-dest="@, x, 2),
        differs_by("--rsh="@, x, 2),
    ensures
        !(match ep.2 {
            Some(l) => seq!["--link-dest="@ + l],
            None => seq![],
        }).contains(x),
        !(match spec_rsh(task, ep.0, ep.1) {
            Some(r) => seq!["--rsh="@ + r],
            None => seq![],
        }).contains(x),
{
    match ep.2 {
        Some(l) => {
            lemma_prefix_item_excludes("--link-dest="@, l, true, x, 2);
            assert(opt_arg(true, "--link-dest="@ + l) == seq!["--link-dest="@ + l]);
        },
        None => {},
    }
    match spec_rsh(task, ep.0, ep.1) {
        Some(r) => {
            lemma_prefix_item_excludes("--rsh="@, r, true, x, 2);
            assert(opt_arg(true, "--rsh="@ + r) == seq!["--rsh="@ + r]);
        },
        None => {},
    }
}

/// A headless run feeds no progress bar and prints no statistics block: its
/// options hold `--info=progress2` or `--stats` only when the task's
/// hand-written arguments do.  A real run is quiet (`-q`) unless `-v` asks
/// for rsync's own output; otherwise `-q` appears only when the hand-written
/// arguments hold it.
pub proof fn law_headless_args_drop_the_tui_flags(
    env: Env,
    task: Task,
    ep: (Seq<char>, Seq<char>, Option<Seq<char>>),
    dry_run: bool,
    verbose: bool,
)
    ensures
        ({
            let o = option_part(
                spec_assemble(env, task, ep, headless_opts(dry_run, verbose), false),
            );
            &&& o.contains("--info=progress2"@) <==> raw_words(task).contains(
                "--info=progress2"@,
            )
            &&& o.contains("--stats"@) <==> raw_words(task).contains("--stats"@)
            &&& o.contains("-q"@) <==> ((!dry_run && !verbose) || raw_words(task).contains(
                "-q"@,
            ))
        }),
{
    reveal_strlit("--info=progress2");
    reveal_strlit("--stats");
    reveal_strlit("-q");
    reveal_strlit("-a");
    reveal_strlit("-H");
    reveal_strlit("-A");
    reveal_strlit("-X");
    reveal_strlit("-z");
    reveal_strlit("-v");
    reveal_strlit("-h");
    reveal_strlit("-u");
    reveal_strlit("-c");
    reveal_strlit("--delete");
    reveal_strlit("--delete-excluded");
    reveal_strlit("--backup");
    reveal_strlit("--partial");
    reveal_strlit("--size-only");
    reveal_strlit("--existing");
    reveal_strlit("--ignore-existing");
    reveal_strlit("--bwlimit=");
    reveal_strlit("--link-dest=");
    reveal_strlit("-n");
    reveal_strlit("--itemize-changes");
    reveal_strlit("--filter=");
    reveal_strlit("--include=");
    reveal_strlit("--include-from=");
    reveal_strlit("--exclude=");
    reveal_strlit("--exclude-from=");
    reveal_strlit("--files-from=");
    reveal_strlit("--rsh=");
    let opts = headless_opts(dry_run, verbose);
    let f = task.flags;
    let sp = short_pairs(task, opts);
    let lp = long_pairs(task);
    let bw = opt_arg(f.bwlimit_kbps > 0, "--bwlimit="@ + dec(f.bwlimit_kbps as nat));
    let pr = opt_arg(f.progress && false, "--info=progress2"@);
    assert(pr.len() == 0);
    let dry = if opts.dry_run {
        seq!["-n"@, "--itemize-changes"@] + opt_arg(opts.stats, "--stats"@)
    } else {
        seq![]
    };
    let link = match ep.2 {
        Some(l) => seq!["--link-dest="@ + l],
        None => seq![],
    };
    assert(seg_link_dry(ep.2, opts) == link + dry);
    assert(seg_long(task, false) == switches(lp) + bw + pr);
    // Each literal is sought segment by segment.
    let p2 = "--info=progress2"@;
    let st = "--stats"@;
    let q = "-q"@;
    lemma_option_part_contains(env, task, ep, opts, false, p2);
    lemma_option_part_contains(env, task, ep, opts, false, st);
    lemma_option_part_contains(env, task, ep, opts, false, q);
    // The single-letter switches: two characters each, and `-q` only where
    // the run is quiet.
    lemma_switches_contains(sp, p2);
    lemma_switches_contains(sp, st);
    lemma_switches_contains(sp, q);
    assert forall|i: int| 0 <= i < sp.len() implies (#[trigger] sp[i]).1.len() == 2 && (i != 6
        ==> sp[i].1 != q) by {
        if i != 6 {
            assert(sp[i].1[1] != q[1]);
        }
    }
    if opts.quiet {
        assert(sp[6].0 && sp[6].1 == q);
    }
    // The long switches are longer than `-q` and none of them is either
    // literal.
    lemma_switches_contains(lp, p2);
    lemma_switches_contains(lp, st);
    lemma_switches_contains(lp, q);
    assert forall|i: int| 0 <= i < lp.len() implies (#[trigger] lp[i]).1 != p2 && lp[i].1 != st
        && lp[i].1 != q by {
        assert(lp[i].1.len() != p2.len() && lp[i].1.len() != st.len() && lp[i].1.len() != q.len());
    }
    lemma_prefix_item_excludes("--bwlimit="@, dec(f.bwlimit_kbps as nat), f.bwlimit_kbps > 0, p2, 2);
    lemma_prefix_item_excludes("--bwlimit="@, dec(f.bwlimit_kbps as nat), f.bwlimit_kbps > 0, st, 2);
    lemma_prefix_item_excludes("--bwlimit="@, dec(f.bwlimit_kbps as nat), f.bwlimit_kbps > 0, q, 2);
    lemma_contains_add(switches(lp), bw, p2);
    lemma_contains_add(switches(lp), bw, st);
    lemma_contains_add(switches(lp), bw, q);
    lemma_contains_add(switches(lp) + bw, pr, p2);
    lemma_contains_add(switches(lp) + bw, pr, st);
    lemma_contains_add(switches(lp) + bw, pr, q);
    // `--link-dest`, the dry-run switches (never `--stats` here), `--rsh`.
    lemma_link_rsh_exclude(task, ep, p2);
    lemma_link_rsh_exclude(task, ep, st);
    lemma_link_rsh_exclude(task, ep, q);
    if dry.contains(p2) || dry.contains(st) || dry.contains(q) {
        assert(opts.dry_run);
        assert(dry =~= seq!["-n"@, "--itemize-changes"@]);
        assert(dry[0] != p2 && dry[0] != st && dry[0] != q) by {
            assert(dry[0][1] != q[1]);
        }
        assert(dry[1] != p2 && dry[1] != st && dry[1] != q) by {
            assert(dry[1].len() != p2.len());
        }
        assert(false);
    }
    lemma_contains_add(link, dry, p2);
    lemma_contains_add(link, dry, st);
    lemma_contains_add(link, dry, q);
    // The filter options.
    lemma_filters_exclude(env, task, p2, 4);
    lemma_filters_exclude(env, task, st, 2);
    lemma_filters_exclude(env, task, q, 2);
}

/// A dry run always lists its changes (`-n --itemize-changes`), adds the
/// statistics block exactly when asked, and a quiet build carries `-q`.
pub proof fn law_dry_run_and_quiet_switches(
    env: Env,
    task: Task,
    ep: (Seq<char>, Seq<char>, Option<Seq<char>>),
    opts: ArgOpts,
    progress: bool,
)
    ensures
        ({
            let o = option_part(spec_assemble(env, task, ep, opts, progress));
            &&& opts.dry_run ==> o.contains("-n"@) && o.contains("--itemize-changes"@)
            &&& opts.dry_run && opts.stats ==> o.contains("--stats"@)
            &&& opts.quiet ==> o.contains("-q"@)
        }),
{
    lemma_option_part(env, task, ep, opts, progress);
    let s1 = seg_short(task, opts);
    let s2 = seg_long(task, progress);
    let s3 = seg_link_dry(ep.2, opts);
    let s4 = seg_filters(env, task);
    let rsh = match spec_rsh(task, ep.0, ep.1) {
        Some(r) => seq!["--rsh="@ + r],
        None => seq![],
    };
    let o = s1 + s2 + s3 + s4 + rsh + raw_words(task);
    let link = match ep.2 {
        Some(l) => seq!["--link-dest="@ + l],
        None => seq![],
    };
    if opts.dry_run {
        let ds = seq!["-n"@, "--itemize-changes"@] + opt_arg(opts.stats, "--stats"@);
        assert(s3 == link + ds);
        assert(o[(s1.len() + s2.len() + link.len()) as int] == "-n"@);
        assert(o[(s1.len() + s2.len() + link.len() + 1) as int] == "--itemize-changes"@);
        if opts.stats {
            assert(o[(s1.len() + s2.len() + link.len() + 2) as int] == "--stats"@);
        }
    }
    if opts.quiet {
        let sp = short_pairs(task, opts);
        lemma_switches_contains(sp, "-q"@);
        assert(sp[6].0 && sp[6].1 == "-q"@);
        let k = choose|k: int| 0 <= k < s1.len() && s1[k] == "-q"@;
        assert(o[k] == "-q"@);
    }
}

proof fn lemma_digit_value(d: nat)
    requires
        d < 10,
    ensures
        (digit(d) as nat) - ('0' as nat) == d,
        '0' <= digit(d) <= '9',
{
}

proof fn lemma_dec_digits(n: nat)
    ensures
        dec(n).len() > 0,
        all_digits(dec(n)),
        digits_value(dec(n)) == n,
    decreases n,
{
    if n < 10 {
        lemma_digit_value(n);
        let d = dec(n);
        assert(d.drop_last() =~= Seq::<char>::empty());
        assert(d.last() == digit(n));
        assert(digits_value(d.drop_last()) == 0);
        assert(digits_value(d) == digits_value(d.drop_last()) * 10 + ((d.last() as nat) - ('0' as nat)) as nat);
    } else {
        lemma_dec_digits(n / 10);
        lemma_digit_value(n % 10);
        let d = dec(n);
        assert(d.drop_last() == dec(n / 10));
        assert(d.last() == digit(n % 10));
        assert(n == (n / 10) * 10 + n % 10) by (nonlinear_arith);
        assert(digits_value(d) == digits_value(dec(n / 10)) * 10 + ((d.last() as nat) - ('0' as nat)) as nat);
        assert forall|i: int| 0 <= i < d.len() implies '0' <= #[trigger] d[i] && d[i] <= '9' by {
            if i < d.len() - 1 {
                assert(d[i] == dec(n / 10)[i]);
            }
        }
    }
}

/// The decimal name of a snapshot number reads back as that number.
pub proof fn lemma_parse_dec(n: nat)
    requires
        n <= u32::MAX,
    ensures
        parse_u32(dec(n)) == Some(n as u32),
{
    lemma_dec_digits(n);
    assert(dec(n)[0] != '+');
}

proof fn lemma_max_push(names: Seq<String>, w: String, n: nat)
    requires
        n <= u32::MAX,
        w@ == dec(n),
        max_number(names) < n,
    ensures
        max_number(names.push(w)) == n,
{
    lemma_parse_dec(n);
    assert(names.push(w).drop_last() == names);
}

/// Snapshots chain: once the directory that a run resolved to exists under
/// the root, the next run writes the number after it and hardlinks against
/// exactly that directory.
pub proof fn law_next_snapshot_links_to_the_last(
    env: Env,
    task: Task,
    names: Seq<String>,
    written: String,
)
    requires
        task.action == Action::Snapshot,
        max_number(names) + 2 <= u32::MAX,
        written@ == dec(max_number(names) + 1),
    ensures
        spec_resolve(env, task, names).1 == numbered(
            spec_snapshot_root(env, task),
            max_number(names) + 1,
        ),
        spec_resolve(env, task, names.push(written)).2 == Some(spec_resolve(env, task, names).1),
        spec_resolve(env, task, names.push(written)).1 == numbered(
            spec_snapshot_root(env, task),
            max_number(names) + 2,
        ),
{
    lemma_max_push(names, written, max_number(names) + 1);
}

proof fn lemma_run_append(st: SplitState, a: Seq<char>, b: Seq<char>)
    ensures
        split_run(st, a + b) == split_run(split_run(st, a), b),
    decreases b.len(),
{
    if b.len() == 0 {
        assert(a + b == a);
    } else {
        lemma_run_append(st, a, b.drop_last());
        assert((a + b).drop_last() == a + b.drop_last());
        assert((a + b).last() == b.last());
    }
}

/// A plain word: not empty, and free of white space and quotes.
pub open spec fn plain_word(w: Seq<char>) -> bool {
    w.len() > 0 && forall|i: int|
        0 <= i < w.len() ==> !crate::text::is_ws(#[trigger] w[i]) && w[i] != '\'' && w[i] != '"'
}

proof fn lemma_run_word(st: SplitState, w: Seq<char>)
    requires
        !st.single,
        !st.double,
        forall|i: int|
            0 <= i < w.len() ==> !crate::text::is_ws(#[trigger] w[i]) && w[i] != '\'' && w[i]
                != '"',
    ensures
        split_run(st, w) == (SplitState {
            out: st.out,
            cur: st.cur + w,
            has: st.has || w.len() > 0,
            single: false,
            double: false,
        }),
    decreases w.len(),
{
    if w.len() == 0 {
        assert(st.cur + w == st.cur);
    } else {
        let init = w.drop_last();
        assert forall|i: int| 0 <= i < init.len() implies !crate::text::is_ws(#[trigger] init[i])
            && init[i] != '\'' && init[i] != '"' by {
            assert(init[i] == w[i]);
        }
        lemma_run_word(st, init);
        assert(w.last() == w[w.len() - 1]);
        assert(st.cur + init.push(w.last()) == (st.cur + init).push(w.last()));
        assert(init.push(w.last()) == w);
    }
}

proof fn lemma_run_joined(ws: Seq<Seq<char>>)
    requires
        ws.len() > 0,
        forall|k: int| 0 <= k < ws.len() ==> plain_word(#[trigger] ws[k]),
    ensures
        split_run(split_init(), join_space(ws)) == (SplitState {
            out: ws.drop_last(),
            cur: ws.last(),
            has: true,
            single: false,
            double: false,
        }),
    decreases ws.len(),
{
    assert(plain_word(ws[ws.len() - 1]));
    if ws.len() == 1 {
        lemma_run_word(split_init(), ws[0]);
        assert(Seq::<char>::empty() + ws[0] == ws[0]);
        assert(ws.drop_last() == Seq::<Seq<char>>::empty());
    } else {
        let init = ws.drop_last();
        assert forall|k: int| 0 <= k < init.len() implies plain_word(#[trigger] init[k]) by {
            assert(init[k] == ws[k]);
        }
        lemma_run_joined(init);
        let j = join_space(init);
        lemma_run_append(split_init(), j + seq![' '], ws.last());
        lemma_run_append(split_init(), j, seq![' ']);
        let s1 = split_run(split_init(), j);
        assert(seq![' '].drop_last() == Seq::<char>::empty());
        let s2 = split_run(s1, seq![' ']);
        assert(seq![' '].last() == ' ');
        assert(split_run(s1, Seq::<char>::empty()) == s1);
        assert(s2 == split_step(split_run(s1, seq![' '].drop_last()), seq![' '].last()));
        assert(s2 == split_step(s1, ' '));
        assert(s2.out == init.drop_last().push(init.last()));
        assert(init.drop_last().push(init.last()) == init);
        lemma_run_word(s2, ws.last());
        assert(Seq::<char>::empty() + ws.last() == ws.last());
    }
}

/// Splitting plain words joined by single spaces gives back the words: the
/// splitter reads hand-written arguments as they were written.
pub proof fn law_split_args_reads_back_joined_words(ws: Seq<Seq<char>>)
    requires
        forall|k: int| 0 <= k < ws.len() ==> plain_word(#[trigger] ws[k]),
    ensures
        spec_split_args(join_space(ws)) == ws,
{
    if ws.len() > 0 {
        lemma_run_joined(ws);
        assert(ws.drop_last().push(ws.last()) == ws);
    }
}


/// The length of the run of non-white-space characters that `s` starts with.
pub open spec fn word_len(s: Seq<char>) -> nat
    decreases s.len(),
{
    if s.len() == 0 || is_ws(s[0]) {
        0
    } else {
        1 + word_len(s.drop_first())
    }
}

/// `word_len` stays within `s`, and is at least 1 before a non-space.
pub proof fn lemma_word_len(s: Seq<char>)
    ensures
        word_len(s) <= s.len(),
        s.len() > 0 && !is_ws(s[0]) ==> word_len(s) >= 1,
    decreases s.len(),
{
    if s.len() > 0 && !is_ws(s[0]) {
        lemma_word_len(s.drop_first());
    }
}

/// The words of `s` split at white space (`str::split_whitespace`): the
/// maximal runs of characters that are not white space, in order.
pub open spec fn ws_words(s: Seq<char>) -> Seq<Seq<char>>
    decreases s.len(),
{
    if s.len() == 0 {
        seq![]
    } else if is_ws(s[0]) {
        ws_words(s.drop_first())
    } else {
        proof {
            lemma_word_len(s);
        }
        seq![s.take(word_len(s) as int)] + ws_words(s.skip(word_len(s) as int))
    }
}

/// Free of white space and quotes.
spec fn bare(w: Seq<char>) -> bool {
    forall|i: int| 0 <= i < w.len() ==> !is_ws(#[trigger] w[i]) && w[i] != '\'' && w[i] != '"'
}

proof fn lemma_word_len_append(w: Seq<char>, t: Seq<char>)
    requires
        bare(w),
    ensures
        word_len(w + t) == w.len() + word_len(t),
    decreases w.len(),
{
    if w.len() > 0 {
        assert((w + t)[0] == w[0]);
        assert((w + t).drop_first() == w.drop_first() + t);
        assert forall|i: int| 0 <= i < w.drop_first().len() implies !is_ws(
            #[trigger] w.drop_first()[i],
        ) && w.drop_first()[i] != '\'' && w.drop_first()[i] != '"' by {
            assert(w.drop_first()[i] == w[i + 1]);
        }
        lemma_word_len_append(w.drop_first(), t);
    } else {
        assert(w + t == t);
    }
}

/// What the splitter gives back once the input ends in state `st`.
spec fn finish(st: SplitState) -> Seq<Seq<char>> {
    if st.has {
        st.out.push(st.cur)
    } else {
        st.out
    }
}

proof fn lemma_scan_plain(st: SplitState, s: Seq<char>)
    requires
        !st.single,
        !st.double,
        st.has == (st.cur.len() > 0),
        bare(st.cur),
        !s.contains('\''),
        !s.contains('"'),
    ensures
        finish(split_run(st, s)) == st.out + ws_words(st.cur + s),
    decreases s.len(),
{
    let w = st.cur;
    if s.len() == 0 {
        assert(w + s == w);
        lemma_word_len_append(w, s);
        assert(word_len(s) == 0);
        if w.len() > 0 {
            assert(w.take(w.len() as int) == w);
            assert(w.skip(w.len() as int) == Seq::<char>::empty());
            assert(ws_words(w) == seq![w] + ws_words(Seq::<char>::empty()));
            assert(st.out + ws_words(w) == st.out.push(w));
        } else {
            assert(st.out + ws_words(w) == st.out);
        }
    } else {
        let c = s[0];
        let rest = s.drop_first();
        assert(s == seq![c] + rest);
        lemma_run_append(st, seq![c], rest);
        assert(seq![c].drop_last() == Seq::<char>::empty());
        assert(seq![c].last() == c);
        let st2 = split_step(st, c);
        assert(split_run(st, seq![c].drop_last()) == st);
        assert(split_run(st, seq![c]) == st2);
        assert(!rest.contains('\'') && !rest.contains('"')) by {
            if rest.contains('\'') {
                let i = choose|i: int| 0 <= i < rest.len() && rest[i] == '\'';
                assert(s[i + 1] == '\'');
            }
            if rest.contains('"') {
                let i = choose|i: int| 0 <= i < rest.len() && rest[i] == '"';
                assert(s[i + 1] == '"');
            }
        }
        assert(c != '\'' && c != '"') by {
            assert(s[0] == c);
        }
        if is_ws(c) {
            lemma_word_len_append(w, s);
            assert(word_len(s) == 0);
            assert(ws_words(s) == ws_words(rest));
            if st.has {
                assert(bare(Seq::<char>::empty()));
                lemma_scan_plain(st2, rest);
                assert(Seq::<char>::empty() + rest == rest);
                assert((w + s).take(w.len() as int) == w);
                assert((w + s).skip(w.len() as int) == s);
                assert((w + s)[0] == w[0]);
                assert(ws_words(w + s) == seq![w] + ws_words(s));
                assert(st.out.push(w) + ws_words(rest) == st.out + (seq![w] + ws_words(rest)));
            } else {
                lemma_scan_plain(st2, rest);
                assert(w + s == s);
                assert(w + rest == rest);
            }
        } else {
            let w2 = w.push(c);
            assert(bare(w2)) by {
                assert forall|i: int| 0 <= i < w2.len() implies !is_ws(#[trigger] w2[i]) && w2[i]
                    != '\'' && w2[i] != '"' by {
                    if i < w.len() {
                        assert(w2[i] == w[i]);
                    }
                }
            }
            lemma_scan_plain(st2, rest);
            assert(w2 + rest == w + s);
        }
    }
}

/// Hand-written arguments without quotes split exactly at white space, as
/// `str::split_whitespace` would split them.
pub proof fn law_split_args_without_quotes_splits_at_white_space(s: Seq<char>)
    requires
        !s.contains('\''),
        !s.contains('"'),
    ensures
        spec_split_args(s) == ws_words(s),
{
    let st = split_init();
    assert(bare(st.cur));
    lemma_scan_plain(st, s);
    assert(st.cur + s == s);
    assert(st.out + ws_words(s) == ws_words(s));
}

proof fn lemma_all_ws_words(s: Seq<char>)
    requires
        forall|i: int| 0 <= i < s.len() ==> is_ws(#[trigger] s[i]),
    ensures
        ws_words(s) == Seq::<Seq<char>>::empty(),
    decreases s.len(),
{
    if s.len() > 0 {
        assert(is_ws(s[0]));
        assert forall|i: int| 0 <= i < s.drop_first().len() implies is_ws(
            #[trigger] s.drop_first()[i],
        ) by {
            assert(s.drop_first()[i] == s[i + 1]);
        }
        lemma_all_ws_words(s.drop_first());
    }
}

proof fn lemma_trim_end_empty(t: Seq<char>)
    requires
        trim_end(t).len() == 0,
    ensures
        forall|i: int| 0 <= i < t.len() ==> is_ws(#[trigger] t[i]),
    decreases t.len(),
{
    if t.len() > 0 {
        lemma_trim_end_empty(t.drop_last());
        assert forall|i: int| 0 <= i < t.len() implies is_ws(#[trigger] t[i]) by {
            if i < t.len() - 1 {
                assert(t[i] == t.drop_last()[i]);
            }
        }
    }
}

proof fn lemma_trim_start_all_ws(s: Seq<char>)
    requires
        forall|i: int| 0 <= i < trim_start(s).len() ==> is_ws(#[trigger] trim_start(s)[i]),
    ensures
        forall|i: int| 0 <= i < s.len() ==> is_ws(#[trigger] s[i]),
    decreases s.len(),
{
    if s.len() > 0 && is_ws(s[0]) {
        assert(trim_start(s) == trim_start(s.drop_first()));
        lemma_trim_start_all_ws(s.drop_first());
        assert forall|i: int| 0 <= i < s.len() implies is_ws(#[trigger] s[i]) by {
            if i > 0 {
                assert(s[i] == s.drop_first()[i - 1]);
            }
        }
    } else {
        assert(trim_start(s) == s);
    }
}

/// Hand-written arguments that trim to nothing split into no word.
proof fn lemma_blank_raw_splits_to_nothing(s: Seq<char>)
    requires
        trim(s).len() == 0,
    ensures
        spec_split_args(s) == Seq::<Seq<char>>::empty(),
{
    lemma_trim_end_empty(trim_start(s));
    lemma_trim_start_all_ws(s);
    assert(!s.contains('\'')) by {
        if s.contains('\'') {
            let i = choose|i: int| 0 <= i < s.len() && s[i] == '\'';
            assert(is_ws(s[i]));
        }
    }
    assert(!s.contains('"')) by {
        if s.contains('"') {
            let i = choose|i: int| 0 <= i < s.len() && s[i] == '"';
            assert(is_ws(s[i]));
        }
    }
    law_split_args_without_quotes_splits_at_white_space(s);
    lemma_all_ws_words(s);
}

/// The hand-written arguments, as `split_args` splits them, stand just before
/// the `--` guard, after every option the task's settings add.
pub proof fn law_raw_args_stand_before_the_guard(
    env: Env,
    task: Task,
    ep: (Seq<char>, Seq<char>, Option<Seq<char>>),
    opts: ArgOpts,
    progress: bool,
)
    ensures
        ({
            let a = spec_assemble(env, task, ep, opts, progress);
            let x = spec_split_args(task.advanced.raw_args@);
            &&& a.len() >= x.len() + 3
            &&& a.subrange(a.len() - 3 - x.len(), a.len() - 3) == x
            &&& a.subrange(a.len() - 3, a.len() as int) == seq!["--"@, ep.0, ep.1]
        }),
{
    let a = spec_assemble(env, task, ep, opts, progress);
    let x = spec_split_args(task.advanced.raw_args@);
    if trim(task.advanced.raw_args@).len() == 0 {
        lemma_blank_raw_splits_to_nothing(task.advanced.raw_args@);
    }
    assert(raw_words(task) == x);
    lemma_option_part(env, task, ep, opts, progress);
    let head = seg_short(task, opts) + seg_long(task, progress) + seg_link_dry(ep.2, opts)
        + seg_filters(env, task) + (match spec_rsh(task, ep.0, ep.1) {
        Some(r) => seq!["--rsh="@ + r],
        None => seq![],
    });
    assert(a =~= head + x + seq!["--"@, ep.0, ep.1]);
    assert(a.subrange(a.len() - 3 - x.len(), a.len() - 3) =~= x);
    assert(a.subrange(a.len() - 3, a.len() as int) =~= seq!["--"@, ep.0, ep.1]);
}


/// The length of the options before the progress feed.
spec fn progress_at(task: Task, opts: ArgOpts) -> int {
    seg_short(task, opts).len() + switches(long_pairs(task)).len() + (if task.flags.bwlimit_kbps
        > 0 {
        1int
    } else {
        0
    })
}

proof fn lemma_regroup(
    a: Seq<Seq<char>>,
    l: Seq<Seq<char>>,
    c: Seq<Seq<char>>,
    d: Seq<Seq<char>>,
    e: Seq<Seq<char>>,
)
    ensures
        a + l + c + d + e == (a + l) + (c + d + e),
{
    assert(a + l + c + d + e =~= (a + l) + (c + d + e));
}

proof fn lemma_splice(pre: Seq<Seq<char>>, x: Seq<char>, rest: Seq<Seq<char>>)
    ensures
        ({
            let t = pre.push(x) + rest;
            let k = pre.len() as int;
            &&& t.len() == (pre + rest).len() + 1
            &&& t[k] == x
            &&& t.take(k) + t.skip(k + 1) == pre + rest
        }),
{
    let t = pre.push(x) + rest;
    let k = pre.len() as int;
    assert(t[k] == pre.push(x)[k]);
    assert(t.take(k) =~= pre);
    assert(t.skip(k + 1) =~= rest);
}

proof fn lemma_progress_only_difference(
    env: Env,
    task: Task,
    ep: (Seq<char>, Seq<char>, Option<Seq<char>>),
    opts: ArgOpts,
)
    ensures
        ({
            let h = spec_assemble(env, task, ep, opts, false);
            let t = spec_assemble(env, task, ep, opts, true);
            let k = progress_at(task, opts);
            &&& task.flags.progress ==> t.len() == h.len() + 1 && t[k] == "--info=progress2"@
                && t.take(k) + t.skip(k + 1) == h
            &&& !task.flags.progress ==> t == h
        }),
{
    let f = task.flags;
    let s1 = seg_short(task, opts);
    let sw = switches(long_pairs(task));
    let bw = opt_arg(f.bwlimit_kbps > 0, "--bwlimit="@ + dec(f.bwlimit_kbps as nat));
    let s3 = seg_link_dry(ep.2, opts);
    let s4 = seg_filters(env, task);
    let tl = seg_tail(task, ep);
    let rest = s3 + s4 + tl;
    let lh = seg_long(task, false);
    let lt = seg_long(task, true);
    let pre = s1 + (sw + bw);
    assert(opt_arg(f.progress && false, "--info=progress2"@) == Seq::<Seq<char>>::empty());
    assert(lh =~= sw + bw);
    lemma_regroup(s1, lh, s3, s4, tl);
    assert(spec_assemble(env, task, ep, opts, false) == pre + rest);
    assert(pre.len() == progress_at(task, opts));
    if f.progress {
        assert(lt =~= (sw + bw).push("--info=progress2"@));
        assert(s1 + lt =~= pre.push("--info=progress2"@));
        lemma_regroup(s1, lt, s3, s4, tl);
        assert(spec_assemble(env, task, ep, opts, true) == pre.push("--info=progress2"@) + rest);
        lemma_splice(pre, "--info=progress2"@, rest);
    } else {
        assert(opt_arg(f.progress && true, "--info=progress2"@) == Seq::<Seq<char>>::empty());
        assert(lt == lh);
    }
}

/// A headless run passes rsync what the TUI would build with the same
/// options (`-q` on a real run without `-v`, no `--stats`), less the progress
/// feed: the two lists are equal, but for the one `--info=progress2` that the
/// TUI's list holds when the task's progress flag is on.
pub proof fn law_headless_args_are_the_tui_args_without_progress(
    env: Env,
    task: Task,
    names: Seq<String>,
    dry_run: bool,
    verbose: bool,
)
    ensures
        ({
            let opts = headless_opts(dry_run, verbose);
            let h = spec_assemble(env, task, spec_resolve(env, task, names), opts, false);
            let t = spec_build_args(env, task, names, opts);
            let f = task.flags;
            let k = seg_short(task, opts).len() + switches(long_pairs(task)).len() + (if f.bwlimit_kbps
                > 0 {
                1int
            } else {
                0
            });
            &&& opts.dry_run == dry_run && !opts.stats && opts.quiet == (!dry_run && !verbose)
            &&& f.progress ==> t.len() == h.len() + 1 && t[k] == "--info=progress2"@ && t.take(k)
                + t.skip(k + 1) == h
            &&& !f.progress ==> t == h
        }),
{
    let opts = headless_opts(dry_run, verbose);
    lemma_progress_only_difference(env, task, spec_resolve(env, task, names), opts);
}

/// Whether `x` is one of the filter options: `--filter=`, `--include=`,
/// `--include-from=`, `--exclude=`, `--exclude-from=` or `--files-from=`
/// with its value.
pub open spec fn is_filter_item(x: Seq<char>) -> bool {
    ||| is_prefix("--filter="@, x)
    ||| is_prefix("--include="@, x)
    ||| is_prefix("--include-from="@, x)
    ||| is_prefix("--exclude="@, x)
    ||| is_prefix("--exclude-from="@, x)
    ||| is_prefix("--files-from="@, x)
}

/// The shape every filter option has: long, and `--fil`, `--inc` or `--exc`.
spec fn filter_shape(x: Seq<char>) -> bool {
    &&& x.len() >= 9
    &&& {
        ||| (x[2] == 'f' && x[3] == 'i' && x[4] == 'l')
        ||| (x[2] == 'i' && x[3] == 'n' && x[4] == 'c')
        ||| (x[2] == 'e' && x[3] == 'x' && x[4] == 'c')
    }
}

proof fn lemma_filter_shape(x: Seq<char>)
    ensures
        is_filter_item(x) ==> filter_shape(x),
{
    reveal_strlit("--filter=");
    reveal_strlit("--include=");
    reveal_strlit("--include-from=");
    reveal_strlit("--exclude=");
    reveal_strlit("--exclude-from=");
    reveal_strlit("--files-from=");
    if is_filter_item(x) {
        assert(x.len() >= 9);
        assert(x[2] == x.take(9)[2] && x[3] == x.take(9)[3] && x[4] == x.take(9)[4]);
        if is_prefix("--filter="@, x) {
            assert(x.take(9) == "--filter="@);
        } else if is_prefix("--include="@, x) {
            assert(x.take(10)[2] == x[2] && x.take(10)[3] == x[3] && x.take(10)[4] == x[4]);
        } else if is_prefix("--include-from="@, x) {
            assert(x.take(15)[2] == x[2] && x.take(15)[3] == x[3] && x.take(15)[4] == x[4]);
        } else if is_prefix("--exclude="@, x) {
            assert(x.take(10)[2] == x[2] && x.take(10)[3] == x[3] && x.take(10)[4] == x[4]);
        } else if is_prefix("--exclude-from="@, x) {
            assert(x.take(15)[2] == x[2] && x.take(15)[3] == x[3] && x.take(15)[4] == x[4]);
        } else {
            assert(x.take(13)[2] == x[2] && x.take(13)[3] == x[3] && x.take(13)[4] == x[4]);
        }
    }
}

/// No item of `xs` has the shape of a filter option.
spec fn clean(xs: Seq<Seq<char>>) -> bool {
    forall|j: int| 0 <= j < xs.len() ==> !filter_shape(#[trigger] xs[j])
}

proof fn lemma_clean_add(a: Seq<Seq<char>>, b: Seq<Seq<char>>)
    requires
        clean(a),
        clean(b),
    ensures
        clean(a + b),
{
    assert forall|j: int| 0 <= j < (a + b).len() implies !filter_shape(#[trigger] (a + b)[j]) by {
        if j < a.len() {
            assert((a + b)[j] == a[j]);
        } else {
            assert((a + b)[j] == b[j - a.len()]);
        }
    }
}

proof fn lemma_clean_switches(ps: Seq<(bool, Seq<char>)>)
    requires
        forall|i: int| 0 <= i < ps.len() ==> !filter_shape(#[trigger] ps[i].1),
    ensures
        clean(switches(ps)),
{
    assert forall|j: int| 0 <= j < switches(ps).len() implies !filter_shape(
        #[trigger] switches(ps)[j],
    ) by {
        let x = switches(ps)[j];
        assert(switches(ps).contains(x));
        lemma_switches_contains(ps, x);
    }
}

proof fn lemma_clean_opt(b: bool, p: Seq<char>, y: Seq<char>)
    requires
        p.len() >= 5,
        !filter_shape(p + y),
    ensures
        clean(opt_arg(b, p + y)),
{
}

proof fn lemma_prefixed_items(p: Seq<char>, xs: Seq<String>)
    ensures
        prefixed(p, xs).len() == xs.len(),
        forall|j: int| 0 <= j < xs.len() ==> #[trigger] prefixed(p, xs)[j] == p + xs[j]@,
    decreases xs.len(),
{
    if xs.len() > 0 {
        lemma_prefixed_items(p, xs.drop_last());
        assert forall|j: int| 0 <= j < xs.len() implies #[trigger] prefixed(p, xs)[j] == p
            + xs[j]@ by {
            if j < xs.len() - 1 {
                assert(xs.drop_last()[j] == xs[j]);
            }
        }
    }
}

proof fn lemma_prefix_of_sum(p: Seq<char>, y: Seq<char>)
    ensures
        is_prefix(p, p + y),
{
    assert((p + y).take(p.len() as int) =~= p);
}

/// Every option that `seg_filters` gives is a filter option.
proof fn lemma_filters_are_filter_items(env: Env, task: Task)
    ensures
        forall|j: int|
            0 <= j < seg_filters(env, task).len() ==> is_filter_item(
                #[trigger] seg_filters(env, task)[j],
            ),
{
    let fl = task.filters;
    let f1 = prefixed("--filter="@, fl.filter@);
    let f2 = prefixed("--include="@, fl.includes@);
    let f3 = opt_arg(
        fl.include_from@.len() > 0,
        "--include-from="@ + crate::paths::spec_expand_path(env, fl.include_from@),
    );
    let f4 = prefixed("--exclude="@, fl.excludes@);
    let f5 = opt_arg(
        fl.exclude_from@.len() > 0,
        "--exclude-from="@ + crate::paths::spec_expand_path(env, fl.exclude_from@),
    );
    let f6 = opt_arg(
        fl.files_from@.len() > 0,
        "--files-from="@ + crate::paths::spec_expand_path(env, fl.files_from@),
    );
    lemma_prefixed_items("--filter="@, fl.filter@);
    lemma_prefixed_items("--include="@, fl.includes@);
    lemma_prefixed_items("--exclude="@, fl.excludes@);
    let all = f1 + f2 + f3 + f4 + f5 + f6;
    assert(seg_filters(env, task) == all);
    assert forall|j: int| 0 <= j < all.len() implies is_filter_item(#[trigger] all[j]) by {
        let n1 = f1.len() as int;
        let n2 = n1 + f2.len();
        let n3 = n2 + f3.len();
        let n4 = n3 + f4.len();
        let n5 = n4 + f5.len();
        if j < n1 {
            assert(all[j] == f1[j]);
            lemma_prefix_of_sum("--filter="@, fl.filter@[j]@);
        } else if j < n2 {
            assert(all[j] == f2[j - n1]);
            lemma_prefix_of_sum("--include="@, fl.includes@[j - n1]@);
        } else if j < n3 {
            assert(all[j] == f3[j - n2]);
            lemma_prefix_of_sum(
                "--include-from="@,
                crate::paths::spec_expand_path(env, fl.include_from@),
            );
        } else if j < n4 {
            assert(all[j] == f4[j - n3]);
            lemma_prefix_of_sum("--exclude="@, fl.excludes@[j - n3]@);
        } else if j < n5 {
            assert(all[j] == f5[j - n4]);
            lemma_prefix_of_sum(
                "--exclude-from="@,
                crate::paths::spec_expand_path(env, fl.exclude_from@),
            );
        } else {
            assert(all[j] == f6[j - n5]);
            lemma_prefix_of_sum(
                "--files-from="@,
                crate::paths::spec_expand_path(env, fl.files_from@),
            );
        }
    }
}

/// The options before the filter block: switches, long options, `--link-dest`
/// and the dry-run switches.
spec fn head_part(
    task: Task,
    ep: (Seq<char>, Seq<char>, Option<Seq<char>>),
    opts: ArgOpts,
    progress: bool,
) -> Seq<Seq<char>> {
    seg_short(task, opts) + seg_long(task, progress) + seg_link_dry(ep.2, opts)
}

/// The `--rsh` option, when there is one.
spec fn rsh_part(task: Task, ep: (Seq<char>, Seq<char>, Option<Seq<char>>)) -> Seq<Seq<char>> {
    match spec_rsh(task, ep.0, ep.1) {
        Some(r) => seq!["--rsh="@ + r],
        None => seq![],
    }
}

proof fn lemma_option_blocks(
    env: Env,
    task: Task,
    ep: (Seq<char>, Seq<char>, Option<Seq<char>>),
    opts: ArgOpts,
    progress: bool,
)
    requires
        trim(task.advanced.raw_args@).len() == 0,
    ensures
        option_part(spec_assemble(env, task, ep, opts, progress)) == head_part(task, ep, opts, progress)
            + seg_filters(env, task) + rsh_part(task, ep),
        clean(head_part(task, ep, opts, progress)),
        clean(rsh_part(task, ep)),
{
    reveal_strlit("-a");
    reveal_strlit("-H");
    reveal_strlit("-A");
    reveal_strlit("-X");
    reveal_strlit("-z");
    reveal_strlit("-v");
    reveal_strlit("-q");
    reveal_strlit("-h");
    reveal_strlit("-u");
    reveal_strlit("-c");
    reveal_strlit("--delete");
    reveal_strlit("--delete-excluded");
    reveal_strlit("--backup");
    reveal_strlit("--partial");
    reveal_strlit("--size-only");
    reveal_strlit("--existing");
    reveal_strlit("--ignore-existing");
    reveal_strlit("--bwlimit=");
    reveal_strlit("--info=progress2");
    reveal_strlit("--link-dest=");
    reveal_strlit("-n");
    reveal_strlit("--itemize-changes");
    reveal_strlit("--stats");
    reveal_strlit("--rsh=");
    lemma_filters_are_filter_items(env, task);
    lemma_option_part(env, task, ep, opts, progress);
    let f = task.flags;
    let s1 = seg_short(task, opts);
    let sp = short_pairs(task, opts);
    assert forall|i: int| 0 <= i < sp.len() implies !filter_shape(#[trigger] sp[i].1) by {
        assert(sp[i].1.len() == 2);
    }
    lemma_clean_switches(sp);
    let lp = long_pairs(task);
    assert forall|i: int| 0 <= i < lp.len() implies !filter_shape(#[trigger] lp[i].1) by {}
    lemma_clean_switches(lp);
    let bw = opt_arg(f.bwlimit_kbps > 0, "--bwlimit="@ + dec(f.bwlimit_kbps as nat));
    assert(("--bwlimit="@ + dec(f.bwlimit_kbps as nat))[2] == 'b');
    lemma_clean_opt(f.bwlimit_kbps > 0, "--bwlimit="@, dec(f.bwlimit_kbps as nat));
    let pr = opt_arg(f.progress && progress, "--info=progress2"@);
    assert(clean(pr));
    lemma_clean_add(switches(lp), bw);
    lemma_clean_add(switches(lp) + bw, pr);
    assert(seg_long(task, progress) == switches(lp) + bw + pr);
    let link = match ep.2 {
        Some(l) => seq!["--link-dest="@ + l],
        None => seq![],
    };
    match ep.2 {
        Some(l) => {
            assert(("--link-dest="@ + l)[2] == 'l');
            lemma_clean_opt(true, "--link-dest="@, l);
            assert(opt_arg(true, "--link-dest="@ + l) == link);
        },
        None => {},
    }
    let dry = if opts.dry_run {
        seq!["-n"@, "--itemize-changes"@] + opt_arg(opts.stats, "--stats"@)
    } else {
        seq![]
    };
    assert(clean(dry)) by {
        if opts.dry_run {
            assert forall|j: int| 0 <= j < dry.len() implies !filter_shape(#[trigger] dry[j]) by {
                if j == 1 {
                    assert(dry[1] == "--itemize-changes"@);
                }
            }
        }
    }
    lemma_clean_add(link, dry);
    assert(seg_link_dry(ep.2, opts) == link + dry);
    let s2 = seg_long(task, progress);
    let s3 = seg_link_dry(ep.2, opts);
    lemma_clean_add(s1, s2);
    lemma_clean_add(s1 + s2, s3);
    let a = s1 + s2 + s3;
    let rsh = match spec_rsh(task, ep.0, ep.1) {
        Some(r) => seq!["--rsh="@ + r],
        None => seq![],
    };
    match spec_rsh(task, ep.0, ep.1) {
        Some(r) => {
            assert(("--rsh="@ + r)[2] == 'r');
            lemma_clean_opt(true, "--rsh="@, r);
            assert(opt_arg(true, "--rsh="@ + r) == rsh);
        },
        None => {},
    }
    assert(raw_words(task) == Seq::<Seq<char>>::empty());
    let fs = seg_filters(env, task);
    let o = option_part(spec_assemble(env, task, ep, opts, progress));
    assert(o =~= a + fs + rsh);
}

/// The filter options form one block, in the order filter, include,
/// include-from, exclude, exclude-from, files-from: when the task has no
/// hand-written arguments, the options before the `--` guard hold the filter
/// options of `seg_filters` together, at one place, and no other option
/// is a filter option.
pub proof fn law_filter_options_form_one_block(
    env: Env,
    task: Task,
    ep: (Seq<char>, Seq<char>, Option<Seq<char>>),
    opts: ArgOpts,
    progress: bool,
)
    requires
        trim(task.advanced.raw_args@).len() == 0,
    ensures
        ({
            let o = option_part(spec_assemble(env, task, ep, opts, progress));
            let fs = seg_filters(env, task);
            exists|k: int|
                #![trigger o.subrange(k, k + fs.len())]
                0 <= k && k + fs.len() <= o.len() && o.subrange(k, k + fs.len()) == fs && (forall|
                    j: int,
                |
                    0 <= j < o.len() && !(k <= j < k + fs.len()) ==> !is_filter_item(
                        #[trigger] o[j],
                    ))
        }),
        forall|j: int|
            0 <= j < seg_filters(env, task).len() ==> is_filter_item(
                #[trigger] seg_filters(env, task)[j],
            ),
{
    lemma_filters_are_filter_items(env, task);
    lemma_option_blocks(env, task, ep, opts, progress);
    let a = head_part(task, ep, opts, progress);
    let rsh = rsh_part(task, ep);
    let fs = seg_filters(env, task);
    let o = option_part(spec_assemble(env, task, ep, opts, progress));
    let k = a.len() as int;
    assert(o.subrange(k, k + fs.len()) =~= fs);
    assert forall|j: int| 0 <= j < o.len() && !(k <= j < k + fs.len()) implies !is_filter_item(
        #[trigger] o[j],
    ) by {
        lemma_filter_shape(o[j]);
        if j < k {
            assert(o[j] == a[j]);
        } else {
            assert(o[j] == rsh[j - k - fs.len()]);
        }
    }
}


/// Which filter option `x` is, in the order rsync reads them here: 0 for
/// `--filter=`, 1 `--include=`, 2 `--include-from=`, 3 `--exclude=`,
/// 4 `--exclude-from=`, 5 `--files-from=`, and 6 for anything else.
pub open spec fn filter_kind(x: Seq<char>) -> int {
    if is_prefix("--filter="@, x) {
        0
    } else if is_prefix("--include="@, x) {
        1
    } else if is_prefix("--include-from="@, x) {
        2
    } else if is_prefix("--exclude="@, x) {
        3
    } else if is_prefix("--exclude-from="@, x) {
        4
    } else if is_prefix("--files-from="@, x) {
        5
    } else {
        6
    }
}

proof fn lemma_not_prefix_at(q: Seq<char>, p: Seq<char>, y: Seq<char>, k: int)
    requires
        0 <= k < q.len(),
        k < p.len(),
        p[k] != q[k],
    ensures
        !is_prefix(q, p + y),
{
    if is_prefix(q, p + y) {
        assert((p + y).take(q.len() as int)[k] == (p + y)[k]);
    }
}

proof fn lemma_kinds(y: Seq<char>)
    ensures
        filter_kind("--filter="@ + y) == 0,
        filter_kind("--include="@ + y) == 1,
        filter_kind("--include-from="@ + y) == 2,
        filter_kind("--exclude="@ + y) == 3,
        filter_kind("--exclude-from="@ + y) == 4,
        filter_kind("--files-from="@ + y) == 5,
{
    reveal_strlit("--filter=");
    reveal_strlit("--include=");
    reveal_strlit("--include-from=");
    reveal_strlit("--exclude=");
    reveal_strlit("--exclude-from=");
    reveal_strlit("--files-from=");
    lemma_prefix_of_sum("--filter="@, y);
    lemma_prefix_of_sum("--include="@, y);
    lemma_prefix_of_sum("--include-from="@, y);
    lemma_prefix_of_sum("--exclude="@, y);
    lemma_prefix_of_sum("--exclude-from="@, y);
    lemma_prefix_of_sum("--files-from="@, y);
    lemma_not_prefix_at("--filter="@, "--include="@, y, 2);
    lemma_not_prefix_at("--filter="@, "--include-from="@, y, 2);
    lemma_not_prefix_at("--include="@, "--include-from="@, y, 9);
    lemma_not_prefix_at("--filter="@, "--exclude="@, y, 2);
    lemma_not_prefix_at("--include="@, "--exclude="@, y, 2);
    lemma_not_prefix_at("--include-from="@, "--exclude="@, y, 2);
    lemma_not_prefix_at("--filter="@, "--exclude-from="@, y, 2);
    lemma_not_prefix_at("--include="@, "--exclude-from="@, y, 2);
    lemma_not_prefix_at("--include-from="@, "--exclude-from="@, y, 2);
    lemma_not_prefix_at("--exclude="@, "--exclude-from="@, y, 9);
    lemma_not_prefix_at("--filter="@, "--files-from="@, y, 5);
    lemma_not_prefix_at("--include="@, "--files-from="@, y, 2);
    lemma_not_prefix_at("--include-from="@, "--files-from="@, y, 2);
    lemma_not_prefix_at("--exclude="@, "--files-from="@, y, 2);
    lemma_not_prefix_at("--exclude-from="@, "--files-from="@, y, 2);
}

/// Within the filter block the kinds never go down, and every item is a
/// filter option.
proof fn lemma_filter_kinds(env: Env, task: Task)
    ensures
        forall|i: int|
            0 <= i < seg_filters(env, task).len() ==> filter_kind(#[trigger] seg_filters(env, task)[i])
                < 6,
        forall|i: int, j: int|
            0 <= i < j < seg_filters(env, task).len() ==> filter_kind(
                #[trigger] seg_filters(env, task)[i],
            ) <= filter_kind(#[trigger] seg_filters(env, task)[j]),
{
    let fl = task.filters;
    let e1 = crate::paths::spec_expand_path(env, fl.include_from@);
    let e2 = crate::paths::spec_expand_path(env, fl.exclude_from@);
    let e3 = crate::paths::spec_expand_path(env, fl.files_from@);
    let f1 = prefixed("--filter="@, fl.filter@);
    let f2 = prefixed("--include="@, fl.includes@);
    let f3 = opt_arg(fl.include_from@.len() > 0, "--include-from="@ + e1);
    let f4 = prefixed("--exclude="@, fl.excludes@);
    let f5 = opt_arg(fl.exclude_from@.len() > 0, "--exclude-from="@ + e2);
    let f6 = opt_arg(fl.files_from@.len() > 0, "--files-from="@ + e3);
    lemma_prefixed_items("--filter="@, fl.filter@);
    lemma_prefixed_items("--include="@, fl.includes@);
    lemma_prefixed_items("--exclude="@, fl.excludes@);
    let all = f1 + f2 + f3 + f4 + f5 + f6;
    assert(seg_filters(env, task) == all);
    let n1 = f1.len() as int;
    let n2 = n1 + f2.len();
    let n3 = n2 + f3.len();
    let n4 = n3 + f4.len();
    let n5 = n4 + f5.len();
    let part = |i: int|
        if i < n1 {
            0int
        } else if i < n2 {
            1int
        } else if i < n3 {
            2int
        } else if i < n4 {
            3int
        } else if i < n5 {
            4int
        } else {
            5int
        };
    assert forall|i: int| 0 <= i < all.len() implies filter_kind(#[trigger] all[i]) == part(i) by {
        if i < n1 {
            assert(all[i] == f1[i]);
            lemma_kinds(fl.filter@[i]@);
        } else if i < n2 {
            assert(all[i] == f2[i - n1]);
            lemma_kinds(fl.includes@[i - n1]@);
        } else if i < n3 {
            assert(all[i] == f3[i - n2]);
            lemma_kinds(e1);
        } else if i < n4 {
            assert(all[i] == f4[i - n3]);
            lemma_kinds(fl.excludes@[i - n3]@);
        } else if i < n5 {
            assert(all[i] == f5[i - n4]);
            lemma_kinds(e2);
        } else {
            assert(all[i] == f6[i - n5]);
            lemma_kinds(e3);
        }
    }
    assert forall|i: int, j: int| 0 <= i < j < all.len() implies filter_kind(#[trigger] all[i])
        <= filter_kind(#[trigger] all[j]) by {
        assert(filter_kind(all[i]) == part(i));
        assert(filter_kind(all[j]) == part(j));
    }
}

/// Filter options keep rsync's order, whatever the task: when the task has no
/// hand-written arguments, any two filter options of its argument list stand
/// in the order filter, include, include-from, exclude, exclude-from,
/// files-from.  In particular every `--include-from=` comes before every
/// `--exclude=`, so the listed files are included before a broad exclude
/// can drop them.
pub proof fn law_filter_options_keep_their_order(
    env: Env,
    task: Task,
    ep: (Seq<char>, Seq<char>, Option<Seq<char>>),
    opts: ArgOpts,
    progress: bool,
)
    requires
        trim(task.advanced.raw_args@).len() == 0,
    ensures
        ({
            let o = option_part(spec_assemble(env, task, ep, opts, progress));
            &&& forall|i: int, j: int|
                0 <= i < j < o.len() && filter_kind(#[trigger] o[i]) < 6 && filter_kind(
                    #[trigger] o[j],
                ) < 6 ==> filter_kind(o[i]) <= filter_kind(o[j])
            &&& forall|i: int, j: int|
                0 <= i < o.len() && 0 <= j < o.len() && is_prefix(
                    "--include-from="@,
                    #[trigger] o[i],
                ) && is_prefix("--exclude="@, #[trigger] o[j]) ==> i < j
        }),
{
    lemma_option_blocks(env, task, ep, opts, progress);
    lemma_filter_kinds(env, task);
    let a = head_part(task, ep, opts, progress);
    let rsh = rsh_part(task, ep);
    let fs = seg_filters(env, task);
    let o = option_part(spec_assemble(env, task, ep, opts, progress));
    let k = a.len() as int;
    let m = k + fs.len();
    // Outside the block no option has a filter kind.
    assert forall|j: int| 0 <= j < o.len() && !(k <= j < m) implies filter_kind(#[trigger] o[j])
        == 6 by {
        lemma_filter_shape(o[j]);
        if j < k {
            assert(o[j] == a[j]);
        } else {
            assert(o[j] == rsh[j - m]);
        }
    }
    assert forall|i: int, j: int|
        0 <= i < j < o.len() && filter_kind(#[trigger] o[i]) < 6 && filter_kind(#[trigger] o[j])
            < 6 implies filter_kind(o[i]) <= filter_kind(o[j]) by {
        assert(o[i] == fs[i - k]);
        assert(o[j] == fs[j - k]);
    }
    reveal_strlit("--filter=");
    reveal_strlit("--include=");
    reveal_strlit("--include-from=");
    reveal_strlit("--exclude=");
    assert forall|i: int, j: int|
        0 <= i < o.len() && 0 <= j < o.len() && is_prefix("--include-from="@, #[trigger] o[i])
            && is_prefix("--exclude="@, #[trigger] o[j]) implies i < j by {
        let x = o[i];
        let y = o[j];
        lemma_not_prefix_at("--filter="@, "--include-from="@, x.skip(15), 2);
        lemma_not_prefix_at("--include="@, "--include-from="@, x.skip(15), 9);
        assert(x == "--include-from="@ + x.skip(15));
        lemma_not_prefix_at("--filter="@, "--exclude="@, y.skip(10), 2);
        lemma_not_prefix_at("--include="@, "--exclude="@, y.skip(10), 2);
        lemma_not_prefix_at("--include-from="@, "--exclude="@, y.skip(10), 2);
        assert(y == "--exclude="@ + y.skip(10));
        assert(filter_kind(x) == 2);
        assert(filter_kind(y) == 3);
        if j <= i {
            assert(i != j);
            assert(filter_kind(o[j]) <= filter_kind(o[i]));
        }
    }
}


/// A task's source is used as typed, whatever the action and whatever the
/// snapshot root holds: only the destination and `--link-dest` depend on
/// snapshot numbering.  The resolved source is the expanded source, so a
/// plain source keeps its exact text, a trailing `/` (copy the contents)
/// included.  A Sync task writes to its expanded destination, with no
/// `--link-dest`.
pub proof fn law_source_is_used_as_typed(env: Env, task: Task, names: Seq<String>)
    ensures
        spec_resolve(env, task, names).0 == crate::paths::spec_expand_path(env, task.source@),
        (!task.source@.contains('{') && !task.source@.contains('}') && !task.source@.contains('$')
            && (task.source@.len() == 0 || task.source@[0] != '~')) ==> spec_resolve(
            env,
            task,
            names,
        ).0 == task.source@,
        task.action == Action::Sync ==> spec_resolve(env, task, names).1
            == crate::paths::spec_expand_path(env, task.dest@) && spec_resolve(env, task, names).2
            is None,
{
    if !task.source@.contains('{') && !task.source@.contains('}') && !task.source@.contains('$')
        && (task.source@.len() == 0 || task.source@[0] != '~') {
        crate::path_laws::law_plain_path_is_used_as_typed(env, task.source@);
    }
}

} // verus!
