//! From a task to the rsync command line: endpoint resolution (with snapshot
//! numbering), raw-argument splitting, ssh options and the ordered argument
//! list.

use vstd::prelude::*;
use crate::env::Env;
use crate::paths::{expand_path, spec_expand_path};
use crate::profile::{Action, Task};
use crate::text::{
    chars_of, dec, extend_chars, extend_str, has_char, is_whitespace, is_ws, parse_u32,
    parse_u32_chars, push_dec, string_of, trim, trim_chars, trim_slashes, trim_trailing_slashes,
};

verus! {

/// Whether a path names a remote side: it holds `@`, or a `:` without
/// starting with `/`.
pub open spec fn spec_is_remote(p: Seq<char>) -> bool {
    p.contains('@') || (p.contains(':') && !(p.len() > 0 && p[0] == '/'))
}

/// Whether `p` names a remote side (`user@host:/path`, `host:path`).
pub fn is_remote_path(p: &str) -> (r: bool)
    ensures
        r == spec_is_remote(p@),
{
    let c = chars_of(p);
    has_char(c.as_slice(), '@') || (has_char(c.as_slice(), ':') && !(c.len() > 0 && c[0] == '/'))
}

/// The scanner state while splitting raw arguments.
pub struct SplitState {
    pub out: Seq<Seq<char>>,
    pub cur: Seq<char>,
    pub has: bool,
    pub single: bool,
    pub double: bool,
}

/// Nothing read yet.
pub open spec fn split_init() -> SplitState {
    SplitState { out: seq![], cur: seq![], has: false, single: false, double: false }
}

/// One character of raw arguments: a quote outside the other kind of quote
/// toggles that quote (and starts a word); white space outside quotes ends
/// the current word; anything else joins the current word.
pub open spec fn split_step(st: SplitState, c: char) -> SplitState {
    if c == '\'' && !st.double {
        SplitState { single: !st.single, has: true, ..st }
    } else if c == '"' && !st.single {
        SplitState { double: !st.double, has: true, ..st }
    } else if is_ws(c) && !st.single && !st.double {
        if st.has {
            SplitState { out: st.out.push(st.cur), cur: seq![], has: false, ..st }
        } else {
            st
        }
    } else {
        SplitState { cur: st.cur.push(c), has: true, ..st }
    }
}

/// The state after reading `s` from `st`.
pub open spec fn split_run(st: SplitState, s: Seq<char>) -> SplitState
    decreases s.len(),
{
    if s.len() == 0 {
        st
    } else {
        split_step(split_run(st, s.drop_last()), s.last())
    }
}

/// The words of `s`, split at unquoted white space, quotes removed.
pub open spec fn spec_split_args(s: Seq<char>) -> Seq<Seq<char>> {
    let st = split_run(split_init(), s);
    if st.has {
        st.out.push(st.cur)
    } else {
        st.out
    }
}

/// Appends `s` to a list of strings.
pub fn push_arg(args: &mut Vec<String>, s: String)
    ensures
        final(args).deep_view() == old(args).deep_view().push(s@),
{
    args.push(s);
    assert(args.deep_view() =~= old(args).deep_view().push(s@));
}

/// Splits hand-written arguments as a shell would for plain words and
/// quotes: white space separates words unless quoted; `'` and `"` quote and
/// are removed; a quoted empty string is a word.
pub fn split_args(s: &str) -> (r: Vec<String>)
    ensures
        r.deep_view() == spec_split_args(s@),
{
    let c = chars_of(s);
    let mut out: Vec<String> = Vec::new();
    let mut cur: Vec<char> = Vec::new();
    let mut has = false;
    let mut single = false;
    let mut double = false;
    let mut i: usize = 0;
    assert(c@.take(0) =~= Seq::<char>::empty());
    assert(out.deep_view() =~= Seq::<Seq<char>>::empty());
    assert(cur@ =~= Seq::<char>::empty());
    while i < c.len()
        invariant
            i <= c@.len(),
            c@ == s@,
            split_run(split_init(), c@.take(i as int)) == (SplitState {
                out: out.deep_view(),
                cur: cur@,
                has,
                single,
                double,
            }),
        decreases c@.len() - i,
    {
        let ch = c[i];
        assert(c@.take(i + 1).drop_last() == c@.take(i as int));
        assert(c@.take(i + 1).last() == ch);
        if ch == '\'' && !double {
            single = !single;
            has = true;
        } else if ch == '"' && !single {
            double = !double;
            has = true;
        } else if is_whitespace(ch) && !single && !double {
            if has {
                let w = string_of(cur.as_slice());
                push_arg(&mut out, w);
                cur = Vec::new();
                has = false;
                assert(cur@ =~= Seq::<char>::empty());
            }
        } else {
            cur.push(ch);
            has = true;
        }
        i = i + 1;
    }
    assert(c@.take(i as int) == c@);
    if has {
        let w = string_of(cur.as_slice());
        push_arg(&mut out, w);
    }
    out
}

/// The number a directory name stands for, when it is one (`parse::<u32>`).
pub fn snapshot_number(name: &str) -> (r: Option<u32>)
    ensures
        r == parse_u32(name@),
{
    let c = chars_of(name);
    parse_u32_chars(c.as_slice())
}

/// The largest number among the entry names (0 when none is a number).
pub open spec fn max_number(names: Seq<String>) -> nat
    decreases names.len(),
{
    if names.len() == 0 {
        0
    } else {
        let m = max_number(names.drop_last());
        match parse_u32(names.last()@) {
            Some(n) => if n > m {
                n as nat
            } else {
                m
            },
            None => m,
        }
    }
}

/// How many entry names are numbers.
pub open spec fn count_numbers(names: Seq<String>) -> nat
    decreases names.len(),
{
    if names.len() == 0 {
        0
    } else {
        count_numbers(names.drop_last()) + if parse_u32(names.last()@) is Some {
            1nat
        } else {
            0nat
        }
    }
}

/// `max_number` is the largest number among the names, and no larger.
pub proof fn lemma_max_number(names: Seq<String>)
    ensures
        max_number(names) <= u32::MAX,
        forall|i: int|
            0 <= i < names.len() ==> (parse_u32(#[trigger] names[i]@) matches Some(n) ==> n
                <= max_number(names)),
        max_number(names) == 0 || exists|i: int|
            0 <= i < names.len() && parse_u32(#[trigger] names[i]@) == Some(
                max_number(names) as u32,
            ),
    decreases names.len(),
{
    if names.len() > 0 {
        let init = names.drop_last();
        lemma_max_number(init);
        assert forall|i: int|
            0 <= i < names.len() implies (parse_u32(#[trigger] names[i]@) matches Some(n) ==> n
                <= max_number(names)) by {
            if i < init.len() {
                assert(names[i] == init[i]);
            }
        }
        if max_number(init) > 0 && max_number(names) == max_number(init) {
            let j = choose|j: int|
                0 <= j < init.len() && parse_u32(#[trigger] init[j]@) == Some(
                    max_number(init) as u32,
                );
            assert(names[j] == init[j]);
        }
        if max_number(names) != max_number(init) {
            assert(parse_u32(names[names.len() - 1]@) == Some(max_number(names) as u32));
        }
    }
}

fn scan_numbers(names: &[String]) -> (r: (usize, u32))
    ensures
        r.0 == count_numbers(names@),
        r.1 == max_number(names@),
{
    let mut count: usize = 0;
    let mut max: u32 = 0;
    let mut i: usize = 0;
    assert(names@.take(0) =~= Seq::<String>::empty());
    while i < names.len()
        invariant
            i <= names@.len(),
            count == count_numbers(names@.take(i as int)),
            max == max_number(names@.take(i as int)),
            count <= i,
        decreases names@.len() - i,
    {
        assert(names@.take(i + 1).drop_last() == names@.take(i as int));
        assert(names@.take(i + 1).last() == names@[i as int]);
        match snapshot_number(names[i].as_str()) {
            Some(n) => {
                count = count + 1;
                if n > max {
                    max = n;
                }
            },
            None => {},
        }
        i = i + 1;
    }
    assert(names@.take(i as int) == names@);
    (count, max)
}

/// The number of the next snapshot under a root holding the entries `names`:
/// one past the largest numbered entry, 1 when there is none.
pub fn next_snapshot_n(names: &[String]) -> (n: u32)
    requires
        max_number(names@) < u32::MAX,
    ensures
        n == max_number(names@) + 1,
{
    let (_, max) = scan_numbers(names);
    max + 1
}

/// What the snapshot panel shows of a snapshot root.
pub struct SnapshotInfo {
    pub count: usize,
    pub latest: u32,
    pub next: u32,
    pub newest_unix: Option<i64>,
}

impl SnapshotInfo {
    /// The snapshot panel's view of a root whose entries are `names`, given
    /// the modification time of the directory of the latest snapshot.
    pub open spec fn spec_of(names: Seq<String>, latest_mtime: Option<i64>) -> (nat, nat, nat, Option<i64>) {
        (
            count_numbers(names),
            max_number(names),
            max_number(names) + 1,
            if max_number(names) > 0 {
                latest_mtime
            } else {
                None
            },
        )
    }
}

/// The three endpoints of a transfer: source, destination, and for a
/// snapshot after the first, the previous snapshot to hardlink against.
pub struct Endpoints {
    pub src: String,
    pub dst: String,
    pub link_dest: Option<String>,
}

impl View for Endpoints {
    type V = (Seq<char>, Seq<char>, Option<Seq<char>>);

    open spec fn view(&self) -> (Seq<char>, Seq<char>, Option<Seq<char>>) {
        (
            self.src@,
            self.dst@,
            match self.link_dest {
                Some(l) => Some(l@),
                None => None,
            },
        )
    }
}

/// The directory that holds a snapshot task's numbered snapshots: the
/// expanded destination without trailing `/`.
pub open spec fn spec_snapshot_root(env: Env, task: Task) -> Seq<char> {
    trim_slashes(spec_expand_path(env, task.dest@))
}

/// The directory of snapshot `n` under `root`.
pub open spec fn numbered(root: Seq<char>, n: nat) -> Seq<char> {
    root + seq!['/'] + dec(n)
}

/// Where a task's transfer goes, for a snapshot root holding `names`.
pub open spec fn spec_resolve(env: Env, task: Task, names: Seq<String>) -> (Seq<char>, Seq<char>, Option<Seq<char>>) {
    let src = spec_expand_path(env, task.source@);
    match task.action {
        Action::Sync => (src, spec_expand_path(env, task.dest@), None),
        Action::Snapshot => {
            let root = spec_snapshot_root(env, task);
            let n = max_number(names) + 1;
            (src, numbered(root, n), if n > 1 {
                Some(numbered(root, (n - 1) as nat))
            } else {
                None
            })
        },
    }
}

/// The precondition of resolving a task: a snapshot root must not already
/// hold the largest snapshot number there is.
pub open spec fn resolvable(task: Task, names: Seq<String>) -> bool {
    task.action == Action::Snapshot ==> max_number(names) < u32::MAX
}

/// Whether `resolve` can number the next snapshot of `task` under a root
/// holding `names` (always, for a Sync task).
pub fn is_resolvable(task: &Task, names: &[String]) -> (r: bool)
    ensures
        r == resolvable(*task, names@),
{
    match task.action {
        Action::Sync => true,
        Action::Snapshot => {
            let (_, max) = scan_numbers(names);
            max < u32::MAX
        },
    }
}

/// The root directory of a snapshot task's snapshots (the directory whose
/// entries number the snapshots).
pub fn snapshot_root(task: &Task, env: &Env) -> (r: String)
    ensures
        r@ == spec_snapshot_root(*env, *task),
{
    let d = expand_path(task.dest.as_str(), env);
    let c = chars_of(d.as_str());
    let t = trim_trailing_slashes(c.as_slice());
    string_of(t.as_slice())
}

fn numbered_dir(root: &str, n: u32) -> (r: String)
    ensures
        r@ == numbered(root@, n as nat),
{
    let mut v = chars_of(root);
    v.push('/');
    push_dec(&mut v, n as u64);
    string_of(v.as_slice())
}

/// The directory of snapshot `n` under `root` (`root/n`).
pub fn snapshot_dir(root: &str, n: u32) -> (r: String)
    ensures
        r@ == numbered(root@, n as nat),
{
    numbered_dir(root, n)
}

/// The root to scan for the snapshot panel: `None` for a Sync task or a
/// remote root.
pub fn snapshot_info_root(task: &Task, env: &Env) -> (r: Option<String>)
    ensures
        match r {
            Some(root) => task.action == Action::Snapshot && root@ == spec_snapshot_root(
                *env,
                *task,
            ) && !spec_is_remote(root@),
            None => task.action != Action::Snapshot || spec_is_remote(
                spec_snapshot_root(*env, *task),
            ),
        },
{
    match task.action {
        Action::Sync => None,
        Action::Snapshot => {
            let root = snapshot_root(task, env);
            if is_remote_path(root.as_str()) {
                None
            } else {
                Some(root)
            }
        },
    }
}

/// The snapshot panel's summary of a root whose entries are `names`:
/// how many numbered snapshots, the latest and next numbers, and the
/// modification time of the latest (given as `latest_mtime`) when there is one.
pub fn snapshot_info(names: &[String], latest_mtime: Option<i64>) -> (r: SnapshotInfo)
    requires
        max_number(names@) < u32::MAX,
    ensures
        (r.count as nat, r.latest as nat, r.next as nat, r.newest_unix) == SnapshotInfo::spec_of(
            names@,
            latest_mtime,
        ),
{
    let (count, latest) = scan_numbers(names);
    SnapshotInfo {
        count,
        latest,
        next: latest + 1,
        newest_unix: if latest > 0 {
            latest_mtime
        } else {
            None
        },
    }
}

/// Where a task transfers: the expanded source, and the expanded
/// destination or, for a snapshot, the next numbered directory under the root
/// (whose entries are `names`) with the previous one as `--link-dest`.
pub fn resolve(task: &Task, env: &Env, names: &[String]) -> (ep: Endpoints)
    requires
        resolvable(*task, names@),
    ensures
        ep@ == spec_resolve(*env, *task, names@),
{
    let src = expand_path(task.source.as_str(), env);
    match task.action {
        Action::Sync => Endpoints { src, dst: expand_path(task.dest.as_str(), env), link_dest: None },
        Action::Snapshot => {
            let root = snapshot_root(task, env);
            let n = next_snapshot_n(names);
            let dst = numbered_dir(root.as_str(), n);
            let link_dest = if n > 1 {
                Some(numbered_dir(root.as_str(), n - 1))
            } else {
                None
            };
            Endpoints { src, dst, link_dest }
        },
    }
}

/// The destination whose missing parent directories must exist before the
/// transfer, or `None` when the destination is remote.
pub fn prepare_dest(task: &Task, env: &Env, names: &[String]) -> (r: Option<String>)
    requires
        resolvable(*task, names@),
    ensures
        match r {
            Some(d) => d@ == spec_resolve(*env, *task, names@).1 && !spec_is_remote(d@),
            None => spec_is_remote(spec_resolve(*env, *task, names@).1),
        },
{
    let ep = resolve(task, env, names);
    if is_remote_path(ep.dst.as_str()) {
        None
    } else {
        Some(ep.dst)
    }
}

/// How the argument list is built: a dry run (adds `-n --itemize-changes`),
/// the `--stats` block of a dry run, and `-q`.
#[derive(Clone, Copy, Debug)]
pub struct ArgOpts {
    pub dry_run: bool,
    pub stats: bool,
    pub quiet: bool,
}

/// `[a]` when `b` holds, else nothing.
pub open spec fn opt_arg(b: bool, a: Seq<char>) -> Seq<Seq<char>> {
    if b {
        seq![a]
    } else {
        seq![]
    }
}

/// Each of `xs` behind the prefix `p`.
pub open spec fn prefixed(p: Seq<char>, xs: Seq<String>) -> Seq<Seq<char>>
    decreases xs.len(),
{
    if xs.len() == 0 {
        seq![]
    } else {
        prefixed(p, xs.drop_last()).push(p + xs.last()@)
    }
}

/// The single-letter switches with their conditions, in order.
pub open spec fn short_pairs(task: Task, opts: ArgOpts) -> Seq<(bool, Seq<char>)> {
    let f = task.flags;
    seq![
        (f.archive, "-a"@),
        (f.hardlinks, "-H"@),
        (f.acls, "-A"@),
        (f.xattrs, "-X"@),
        (f.compress, "-z"@),
        (f.verbose, "-v"@),
        (opts.quiet, "-q"@),
        (f.human && !opts.dry_run, "-h"@),
        (f.update, "-u"@),
        (f.checksum, "-c"@),
    ]
}

/// The single-letter switches that apply, in order.
pub open spec fn seg_short(task: Task, opts: ArgOpts) -> Seq<Seq<char>> {
    switches(short_pairs(task, opts))
}

/// The long transfer switches with their conditions, in order.
pub open spec fn long_pairs(task: Task) -> Seq<(bool, Seq<char>)> {
    let f = task.flags;
    seq![
        (f.delete, "--delete"@),
        (f.delete_excluded, "--delete-excluded"@),
        (f.backup, "--backup"@),
        (f.partial, "--partial"@),
        (f.size_only, "--size-only"@),
        (f.existing, "--existing"@),
        (f.ignore_existing, "--ignore-existing"@),
    ]
}

/// The long transfer options that apply, in order, ending with the
/// bandwidth limit and the progress feed.
pub open spec fn seg_long(task: Task, progress: bool) -> Seq<Seq<char>> {
    let f = task.flags;
    switches(long_pairs(task)) + opt_arg(
        f.bwlimit_kbps > 0,
        "--bwlimit="@ + dec(f.bwlimit_kbps as nat),
    ) + opt_arg(f.progress && progress, "--info=progress2"@)
}

/// `--link-dest` for a snapshot after the first, then the dry-run switches.
pub open spec fn seg_link_dry(link: Option<Seq<char>>, opts: ArgOpts) -> Seq<Seq<char>> {
    (match link {
        Some(l) => seq!["--link-dest="@ + l],
        None => seq![],
    }) + if opts.dry_run {
        seq!["-n"@, "--itemize-changes"@] + opt_arg(opts.stats, "--stats"@)
    } else {
        seq![]
    }
}

/// The filter rules, in the order filter, include, include-from, exclude,
/// exclude-from, files-from; the file names expanded as paths.
pub open spec fn seg_filters(env: Env, task: Task) -> Seq<Seq<char>> {
    let fl = task.filters;
    prefixed("--filter="@, fl.filter@) + prefixed("--include="@, fl.includes@) + opt_arg(
        fl.include_from@.len() > 0,
        "--include-from="@ + spec_expand_path(env, fl.include_from@),
    ) + prefixed("--exclude="@, fl.excludes@) + opt_arg(
        fl.exclude_from@.len() > 0,
        "--exclude-from="@ + spec_expand_path(env, fl.exclude_from@),
    ) + opt_arg(
        fl.files_from@.len() > 0,
        "--files-from="@ + spec_expand_path(env, fl.files_from@),
    )
}

/// The ssh command line for a transfer with a remote side: batch mode, the
/// port when it is not 22, the key file when one is set, and the trimmed
/// extra options when there are any.
pub open spec fn spec_rsh(task: Task, src: Seq<char>, dst: Seq<char>) -> Option<Seq<char>> {
    if !(spec_is_remote(src) || spec_is_remote(dst)) {
        None
    } else {
        let s = task.ssh;
        Some(
            "ssh -o BatchMode=yes"@ + (if s.port != 22 {
                " -p "@ + dec(s.port as nat)
            } else {
                seq![]
            }) + (if s.keyfile@.len() > 0 {
                " -i "@ + s.keyfile@
            } else {
                seq![]
            }) + (if trim(s.extra@).len() > 0 {
                " "@ + trim(s.extra@)
            } else {
                seq![]
            }),
        )
    }
}

/// `--rsh`, the raw arguments, and the paths behind the `--` guard.
pub open spec fn seg_tail(task: Task, ep: (Seq<char>, Seq<char>, Option<Seq<char>>)) -> Seq<
    Seq<char>,
> {
    (match spec_rsh(task, ep.0, ep.1) {
        Some(r) => seq!["--rsh="@ + r],
        None => seq![],
    }) + (if trim(task.advanced.raw_args@).len() > 0 {
        spec_split_args(task.advanced.raw_args@)
    } else {
        seq![]
    }) + seq!["--"@, ep.0, ep.1]
}

/// The whole rsync argument list for a task with endpoints `ep`; the progress
/// feed only where `progress` allows it.
pub open spec fn spec_assemble(
    env: Env,
    task: Task,
    ep: (Seq<char>, Seq<char>, Option<Seq<char>>),
    opts: ArgOpts,
    progress: bool,
) -> Seq<Seq<char>> {
    seg_short(task, opts) + seg_long(task, progress) + seg_link_dry(ep.2, opts) + seg_filters(
        env,
        task,
    ) + seg_tail(task, ep)
}

/// The argument list of a task as the TUI runs it.
pub open spec fn spec_build_args(env: Env, task: Task, names: Seq<String>, opts: ArgOpts) -> Seq<
    Seq<char>,
> {
    spec_assemble(env, task, spec_resolve(env, task, names), opts, true)
}

fn push_lit(args: &mut Vec<String>, lit: &str)
    ensures
        final(args).deep_view() == old(args).deep_view().push(lit@),
{
    push_arg(args, String::from_str(lit));
}

fn push_opt(args: &mut Vec<String>, b: bool, lit: &str)
    ensures
        final(args).deep_view() == old(args).deep_view() + opt_arg(b, lit@),
{
    if b {
        push_lit(args, lit);
        assert(args.deep_view() =~= old(args).deep_view() + opt_arg(b, lit@));
    } else {
        assert(old(args).deep_view() =~= old(args).deep_view() + opt_arg(b, lit@));
    }
}

fn joined(prefix: &str, rest: &[char]) -> (r: String)
    ensures
        r@ == prefix@ + rest@,
{
    let mut v = chars_of(prefix);
    extend_chars(&mut v, rest);
    string_of(v.as_slice())
}

fn push_prefixed(args: &mut Vec<String>, prefix: &str, xs: &Vec<String>)
    ensures
        final(args).deep_view() == old(args).deep_view() + prefixed(prefix@, xs@),
{
    let mut i: usize = 0;
    assert(xs@.take(0) =~= Seq::<String>::empty());
    assert(args.deep_view() =~= old(args).deep_view() + prefixed(prefix@, xs@.take(0)));
    while i < xs.len()
        invariant
            i <= xs@.len(),
            args.deep_view() == old(args).deep_view() + prefixed(prefix@, xs@.take(i as int)),
        decreases xs@.len() - i,
    {
        let c = chars_of(xs[i].as_str());
        let a = joined(prefix, c.as_slice());
        push_arg(args, a);
        assert(xs@.take(i + 1).drop_last() == xs@.take(i as int));
        assert(xs@.take(i + 1).last() == xs@[i as int]);
        i = i + 1;
        assert(args.deep_view() =~= old(args).deep_view() + prefixed(prefix@, xs@.take(i as int)));
    }
    assert(xs@.take(i as int) == xs@);
}

/// The switches of `ps` whose condition holds, in order.
pub open spec fn switches(ps: Seq<(bool, Seq<char>)>) -> Seq<Seq<char>>
    decreases ps.len(),
{
    if ps.len() == 0 {
        seq![]
    } else {
        switches(ps.drop_last()) + opt_arg(ps.last().0, ps.last().1)
    }
}

spec fn pair_views(ps: Seq<(bool, &str)>) -> Seq<(bool, Seq<char>)> {
    ps.map_values(|p: (bool, &str)| (p.0, p.1@))
}

fn push_switches(args: &mut Vec<String>, ps: &Vec<(bool, &str)>)
    ensures
        final(args).deep_view() == old(args).deep_view() + switches(pair_views(ps@)),
{
    let ghost g = old(args).deep_view();
    let ghost pv = pair_views(ps@);
    let mut i: usize = 0;
    assert(pv.take(0) =~= Seq::<(bool, Seq<char>)>::empty());
    assert(args.deep_view() =~= g + switches(pv.take(0)));
    while i < ps.len()
        invariant
            i <= ps@.len(),
            pv == pair_views(ps@),
            pv.len() == ps@.len(),
            args.deep_view() == g + switches(pv.take(i as int)),
        decreases ps@.len() - i,
    {
        let (b, lit) = ps[i];
        let ghost before = args.deep_view();
        push_opt(args, b, lit);
        assert(pv[i as int] == (b, lit@));
        assert(pv.take(i + 1).drop_last() == pv.take(i as int));
        assert(pv.take(i + 1).last() == pv[i as int]);
        i = i + 1;
        assert(args.deep_view() =~= g + switches(pv.take(i as int)));
    }
    assert(pv.take(i as int) == pv);
}

fn push_short(args: &mut Vec<String>, task: &Task, opts: ArgOpts)
    ensures
        final(args).deep_view() == old(args).deep_view() + seg_short(*task, opts),
{
    let f = &task.flags;
    let ps: Vec<(bool, &str)> = vec![
        (f.archive, "-a"),
        (f.hardlinks, "-H"),
        (f.acls, "-A"),
        (f.xattrs, "-X"),
        (f.compress, "-z"),
        (f.verbose, "-v"),
        (opts.quiet, "-q"),
        (f.human && !opts.dry_run, "-h"),
        (f.update, "-u"),
        (f.checksum, "-c"),
    ];
    push_switches(args, &ps);
    assert(pair_views(ps@) =~= short_pairs(*task, opts));
}

fn push_long(args: &mut Vec<String>, task: &Task, progress: bool)
    ensures
        final(args).deep_view() == old(args).deep_view() + seg_long(*task, progress),
{
    let f = &task.flags;
    let ps: Vec<(bool, &str)> = vec![
        (f.delete, "--delete"),
        (f.delete_excluded, "--delete-excluded"),
        (f.backup, "--backup"),
        (f.partial, "--partial"),
        (f.size_only, "--size-only"),
        (f.existing, "--existing"),
        (f.ignore_existing, "--ignore-existing"),
    ];
    push_switches(args, &ps);
    assert(pair_views(ps@) =~= long_pairs(*task));
    let ghost mid = args.deep_view();
    if f.bwlimit_kbps > 0 {
        let mut v = chars_of("--bwlimit=");
        push_dec(&mut v, f.bwlimit_kbps as u64);
        push_arg(args, string_of(v.as_slice()));
    }
    assert(args.deep_view() =~= mid + opt_arg(
        f.bwlimit_kbps > 0,
        "--bwlimit="@ + dec(f.bwlimit_kbps as nat),
    ));
    push_opt(args, f.progress && progress, "--info=progress2");
    assert(args.deep_view() =~= old(args).deep_view() + seg_long(*task, progress));
}

fn push_link_dry(args: &mut Vec<String>, link: &Option<String>, opts: ArgOpts)
    ensures
        final(args).deep_view() == old(args).deep_view() + seg_link_dry(
            match *link {
                Some(l) => Some(l@),
                None => None,
            },
            opts,
        ),
{
    match link {
        Some(l) => {
            let c = chars_of(l.as_str());
            push_arg(args, joined("--link-dest=", c.as_slice()));
        },
        None => {},
    }
    let ghost mid = args.deep_view();
    if opts.dry_run {
        push_lit(args, "-n");
        push_lit(args, "--itemize-changes");
        push_opt(args, opts.stats, "--stats");
    }
    assert(args.deep_view() =~= old(args).deep_view() + seg_link_dry(
        match *link {
            Some(l) => Some(l@),
            None => None,
        },
        opts,
    ));
}

fn push_file_opt(args: &mut Vec<String>, prefix: &str, path: &String, env: &Env)
    ensures
        final(args).deep_view() == old(args).deep_view() + opt_arg(
            path@.len() > 0,
            prefix@ + spec_expand_path(*env, path@),
        ),
{
    if path.as_str().unicode_len() > 0 {
        let e = expand_path(path.as_str(), env);
        let c = chars_of(e.as_str());
        push_arg(args, joined(prefix, c.as_slice()));
    }
    assert(args.deep_view() =~= old(args).deep_view() + opt_arg(
        path@.len() > 0,
        prefix@ + spec_expand_path(*env, path@),
    ));
}

fn push_filters(args: &mut Vec<String>, task: &Task, env: &Env)
    ensures
        final(args).deep_view() == old(args).deep_view() + seg_filters(*env, *task),
{
    let fl = &task.filters;
    push_prefixed(args, "--filter=", &fl.filter);
    push_prefixed(args, "--include=", &fl.includes);
    push_file_opt(args, "--include-from=", &fl.include_from, env);
    push_prefixed(args, "--exclude=", &fl.excludes);
    push_file_opt(args, "--exclude-from=", &fl.exclude_from, env);
    push_file_opt(args, "--files-from=", &fl.files_from, env);
    assert(args.deep_view() =~= old(args).deep_view() + seg_filters(*env, *task));
}

/// The ssh command for `--rsh`, or `None` when neither side is remote.
pub fn build_rsh(task: &Task, ep: &Endpoints) -> (r: Option<String>)
    ensures
        match r {
            Some(x) => spec_rsh(*task, ep.src@, ep.dst@) == Some(x@),
            None => spec_rsh(*task, ep.src@, ep.dst@) is None,
        },
{
    if !(is_remote_path(ep.src.as_str()) || is_remote_path(ep.dst.as_str())) {
        return None;
    }
    let s = &task.ssh;
    let mut v = chars_of("ssh -o BatchMode=yes");
    let ghost base = v@;
    if s.port != 22 {
        extend_str(&mut v, " -p ");
        push_dec(&mut v, s.port as u64);
    }
    let ghost with_port = v@;
    let key = chars_of(s.keyfile.as_str());
    if key.len() > 0 {
        extend_str(&mut v, " -i ");
        extend_chars(&mut v, key.as_slice());
    }
    let ghost with_key = v@;
    let ex = chars_of(s.extra.as_str());
    let t = trim_chars(ex.as_slice());
    if t.len() > 0 {
        extend_str(&mut v, " ");
        extend_chars(&mut v, t.as_slice());
    }
    assert(v@ =~= "ssh -o BatchMode=yes"@ + (if s.port != 22 {
        " -p "@ + dec(s.port as nat)
    } else {
        seq![]
    }) + (if s.keyfile@.len() > 0 {
        " -i "@ + s.keyfile@
    } else {
        seq![]
    }) + (if trim(s.extra@).len() > 0 {
        " "@ + trim(s.extra@)
    } else {
        seq![]
    }));
    Some(string_of(v.as_slice()))
}

fn push_tail(args: &mut Vec<String>, task: &Task, ep: &Endpoints)
    ensures
        final(args).deep_view() == old(args).deep_view() + seg_tail(*task, ep@),
{
    match build_rsh(task, ep) {
        Some(r) => {
            let c = chars_of(r.as_str());
            push_arg(args, joined("--rsh=", c.as_slice()));
        },
        None => {},
    }
    let ghost mid = args.deep_view();
    let raw = chars_of(task.advanced.raw_args.as_str());
    let t = trim_chars(raw.as_slice());
    if t.len() > 0 {
        let mut words = split_args(task.advanced.raw_args.as_str());
        let ghost w = words.deep_view();
        let ghost before = args.deep_view();
        args.append(&mut words);
        assert(args.deep_view() =~= before + w);
    }
    let ghost mid2 = args.deep_view();
    push_lit(args, "--");
    push_arg(args, ep.src.clone());
    push_arg(args, ep.dst.clone());
    assert(args.deep_view() =~= old(args).deep_view() + seg_tail(*task, ep@));
}

fn assemble(task: &Task, ep: &Endpoints, opts: ArgOpts, env: &Env, progress: bool) -> (r: Vec<
    String,
>)
    ensures
        r.deep_view() == spec_assemble(*env, *task, ep@, opts, progress),
{
    let mut args: Vec<String> = Vec::new();
    assert(args.deep_view() =~= Seq::<Seq<char>>::empty());
    push_short(&mut args, task, opts);
    push_long(&mut args, task, progress);
    push_link_dry(&mut args, &ep.link_dest, opts);
    push_filters(&mut args, task, env);
    push_tail(&mut args, task, ep);
    assert(args.deep_view() =~= spec_assemble(*env, *task, ep@, opts, progress));
    args
}

/// The rsync arguments of a task, with `--stats` on a dry run and without
/// `-q`: what the TUI runs and previews.
pub fn build_args(task: &Task, dry_run: bool, env: &Env, names: &[String]) -> (r: Vec<String>)
    requires
        resolvable(*task, names@),
    ensures
        r.deep_view() == spec_build_args(
            *env,
            *task,
            names@,
            ArgOpts { dry_run, stats: true, quiet: false },
        ),
{
    build_args_with(task, ArgOpts { dry_run, stats: true, quiet: false }, env, names)
}

/// The rsync arguments of a task built with `opts`.
pub fn build_args_with(task: &Task, opts: ArgOpts, env: &Env, names: &[String]) -> (r: Vec<String>)
    requires
        resolvable(*task, names@),
    ensures
        r.deep_view() == spec_build_args(*env, *task, names@, opts),
{
    let ep = resolve(task, env, names);
    assemble(task, &ep, opts, env, true)
}

/// Words joined by single spaces.
pub open spec fn join_space(xs: Seq<Seq<char>>) -> Seq<char>
    decreases xs.len(),
{
    if xs.len() == 0 {
        seq![]
    } else if xs.len() == 1 {
        xs[0]
    } else {
        join_space(xs.drop_last()) + seq![' '] + xs.last()
    }
}

/// `rsync` and the task's arguments, as one line (what `list` prints).
pub fn resolved_command(task: &Task, dry_run: bool, env: &Env, names: &[String]) -> (r: String)
    requires
        resolvable(*task, names@),
    ensures
        r@ == "rsync "@ + join_space(
            spec_build_args(*env, *task, names@, ArgOpts { dry_run, stats: true, quiet: false }),
        ),
{
    let args = build_args(task, dry_run, env, names);
    let ghost xs = args.deep_view();
    let mut out = chars_of("rsync ");
    let ghost head = out@;
    let mut i: usize = 0;
    assert(xs.take(0) =~= Seq::<Seq<char>>::empty());
    assert(out@ =~= head + join_space(xs.take(0)));
    while i < args.len()
        invariant
            i <= args@.len(),
            xs == args.deep_view(),
            out@ == head + join_space(xs.take(i as int)),
        decreases args@.len() - i,
    {
        if i > 0 {
            out.push(' ');
        }
        extend_str(&mut out, args[i].as_str());
        assert(xs[i as int] == args@[i as int]@);
        assert(xs.take(i + 1).drop_last() == xs.take(i as int));
        assert(xs.take(i + 1).last() == xs[i as int]);
        if i == 0 {
            assert(xs.take(1) == seq![xs[0]]);
        }
        i = i + 1;
        assert(out@ =~= head + join_space(xs.take(i as int)));
    }
    assert(xs.take(i as int) == xs);
    string_of(out.as_slice())
}

/// The options of a headless run: no `--stats` block, and `-q` on a real run
/// unless `-v` asks for rsync's own output.
pub open spec fn headless_opts(dry_run: bool, verbose: bool) -> ArgOpts {
    ArgOpts { dry_run, stats: false, quiet: !dry_run && !verbose }
}

/// The argument list of a task in a headless run: a real run is quiet unless
/// `verbose` asks for rsync's own output, a dry run is never quiet, and
/// neither carries `--stats` or the TUI's `--info=progress2`.
pub fn headless_args(task: &Task, dry_run: bool, verbose: bool, env: &Env, names: &[String]) -> (r:
    Vec<String>)
    requires
        resolvable(*task, names@),
    ensures
        r.deep_view() == spec_assemble(
            *env,
            *task,
            spec_resolve(*env, *task, names@),
            headless_opts(dry_run, verbose),
            false,
        ),
{
    let ep = resolve(task, env, names);
    assemble(task, &ep, ArgOpts { dry_run, stats: false, quiet: !dry_run && !verbose }, env, false)
}

} // verus!
