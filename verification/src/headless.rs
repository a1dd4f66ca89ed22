//! Headless runs: choosing the tasks of `PROFILE[/TASK]`, the `--delete`
//! gate, and what the run reports and exits with.

use vstd::prelude::*;
use crate::env::Env;
use crate::profile::{Profile, Task};
use crate::rsync::{
    join_space, prepare_dest, resolvable, resolved_command, spec_build_args, spec_is_remote,
    spec_resolve, ArgOpts,
};
use crate::text::{chars_eq, chars_of, dec, extend_chars, extend_str, find, find_char_from,
    lemma_find_from, push_dec, string_of};

verus! {

/// Why a target names nothing.
#[derive(Debug)]
pub enum SelectError {
    /// There are no profiles at all.
    NoProfiles,
    /// No profile has the name; `have` lists the names there are.
    NoProfile { name: String, have: Vec<String> },
    /// The profile has no task with the id; `have` lists its task ids.
    NoTask { id: String, profile: String, have: Vec<String> },
}

/// The profile name and the optional task id of `PROFILE[/TASK]` (split at
/// the first `/`).
pub open spec fn split_target(t: Seq<char>) -> (Seq<char>, Option<Seq<char>>) {
    match find(t, '/') {
        Some(k) => (t.take(k), Some(t.skip(k + 1))),
        None => (t, None),
    }
}

/// The index of the first profile named `name`.
pub open spec fn find_profile(ps: Seq<Profile>, name: Seq<char>, from: int) -> Option<int>
    decreases ps.len() - from,
{
    if from < 0 || from >= ps.len() {
        None
    } else if ps[from].name@ == name {
        Some(from)
    } else {
        find_profile(ps, name, from + 1)
    }
}

/// The index of the first task with id `id`.
pub open spec fn find_task(ts: Seq<Task>, id: Seq<char>, from: int) -> Option<int>
    decreases ts.len() - from,
{
    if from < 0 || from >= ts.len() {
        None
    } else if ts[from].id@ == id {
        Some(from)
    } else {
        find_task(ts, id, from + 1)
    }
}

/// `find_profile` finds the first match.
pub proof fn lemma_find_profile(ps: Seq<Profile>, name: Seq<char>, from: int)
    requires
        0 <= from,
    ensures
        match find_profile(ps, name, from) {
            Some(k) => from <= k < ps.len() && ps[k].name@ == name && forall|j: int|
                from <= j < k ==> ps[j].name@ != name,
            None => forall|j: int| from <= j < ps.len() ==> ps[j].name@ != name,
        },
    decreases ps.len() - from,
{
    if from < ps.len() && ps[from].name@ != name {
        lemma_find_profile(ps, name, from + 1);
    }
}

/// `find_task` finds the first match.
pub proof fn lemma_find_task(ts: Seq<Task>, id: Seq<char>, from: int)
    requires
        0 <= from,
    ensures
        match find_task(ts, id, from) {
            Some(k) => from <= k < ts.len() && ts[k].id@ == id && forall|j: int|
                from <= j < k ==> ts[j].id@ != id,
            None => forall|j: int| from <= j < ts.len() ==> ts[j].id@ != id,
        },
    decreases ts.len() - from,
{
    if from < ts.len() && ts[from].id@ != id {
        lemma_find_task(ts, id, from + 1);
    }
}

fn profile_index(ps: &[Profile], name: &[char]) -> (r: Option<usize>)
    ensures
        match r {
            Some(k) => find_profile(ps@, name@, 0) == Some(k as int),
            None => find_profile(ps@, name@, 0) is None,
        },
{
    let mut i: usize = 0;
    while i < ps.len()
        invariant
            i <= ps@.len(),
            find_profile(ps@, name@, 0) == find_profile(ps@, name@, i as int),
        decreases ps@.len() - i,
    {
        let n = chars_of(ps[i].name.as_str());
        if chars_eq(n.as_slice(), name) {
            return Some(i);
        }
        i = i + 1;
    }
    None
}

fn task_index(ts: &Vec<Task>, id: &[char]) -> (r: Option<usize>)
    ensures
        match r {
            Some(k) => find_task(ts@, id@, 0) == Some(k as int),
            None => find_task(ts@, id@, 0) is None,
        },
{
    let mut i: usize = 0;
    while i < ts.len()
        invariant
            i <= ts@.len(),
            find_task(ts@, id@, 0) == find_task(ts@, id@, i as int),
        decreases ts@.len() - i,
    {
        let n = chars_of(ts[i].id.as_str());
        if chars_eq(n.as_slice(), id) {
            return Some(i);
        }
        i = i + 1;
    }
    None
}

fn slice_chars(c: &[char], lo: usize, hi: usize) -> (r: Vec<char>)
    requires
        lo <= hi <= c@.len(),
    ensures
        r@ == c@.subrange(lo as int, hi as int),
{
    let mut r: Vec<char> = Vec::new();
    let mut j: usize = lo;
    while j < hi
        invariant
            lo <= j <= hi <= c@.len(),
            r@ == c@.subrange(lo as int, j as int),
        decreases hi - j,
    {
        r.push(c[j]);
        j = j + 1;
        assert(r@ =~= c@.subrange(lo as int, j as int));
    }
    r
}

/// The names of the profiles, in order.
pub open spec fn profile_names(ps: Seq<Profile>) -> Seq<Seq<char>> {
    ps.map_values(|p: Profile| p.name@)
}

/// The ids of the tasks, in order.
pub open spec fn task_ids(ts: Seq<Task>) -> Seq<Seq<char>> {
    ts.map_values(|t: Task| t.id@)
}

/// What `select` answers for `target`: the indices of the chosen profile's
/// tasks, or the error.
pub open spec fn spec_select(ps: Seq<Profile>, target: Seq<char>) -> Result<(int, Seq<int>), ()> {
    if ps.len() == 0 {
        Err(())
    } else {
        let (name, id) = split_target(target);
        match find_profile(ps, name, 0) {
            None => Err(()),
            Some(p) => match id {
                None => Ok((p, Seq::new(ps[p].tasks@.len(), |i: int| i))),
                Some(id) => match find_task(ps[p].tasks@, id, 0) {
                    Some(t) => Ok((p, seq![t])),
                    None => Err(()),
                },
            },
        }
    }
}

/// The message of the error that `select` answers for `target`, when it
/// answers one.
pub open spec fn spec_select_message(ps: Seq<Profile>, target: Seq<char>) -> Seq<char> {
    let (name, id) = split_target(target);
    if ps.len() == 0 {
        "no profiles configured (add one in the TUI: lazyrsync)"@
    } else {
        match find_profile(ps, name, 0) {
            None => "no profile named '"@ + name + "' (have: "@ + join_with(
                profile_names(ps),
                ", "@,
            ) + ")"@,
            Some(p) => "no task '"@ + id.unwrap_or(seq![]) + "' in profile '"@ + name
                + "' (have: "@ + join_with(task_ids(ps[p].tasks@), ", "@) + ")"@,
        }
    }
}

fn names_of(ps: &[Profile]) -> (r: Vec<String>)
    ensures
        r.deep_view() == profile_names(ps@),
{
    let mut r: Vec<String> = Vec::new();
    let mut i: usize = 0;
    while i < ps.len()
        invariant
            i <= ps@.len(),
            r.deep_view() == profile_names(ps@).take(i as int),
        decreases ps@.len() - i,
    {
        let nm = ps[i].name.clone();
        assert(nm@ == profile_names(ps@)[i as int]);
        crate::rsync::push_arg(&mut r, nm);
        assert(profile_names(ps@).take(i + 1) =~= profile_names(ps@).take(i as int).push(
            profile_names(ps@)[i as int],
        ));
        i = i + 1;
        assert(r.deep_view() =~= profile_names(ps@).take(i as int));
    }
    assert(profile_names(ps@).take(i as int) =~= profile_names(ps@));
    r
}

fn ids_of(ts: &Vec<Task>) -> (r: Vec<String>)
    ensures
        r.deep_view() == task_ids(ts@),
{
    let mut r: Vec<String> = Vec::new();
    let mut i: usize = 0;
    while i < ts.len()
        invariant
            i <= ts@.len(),
            r.deep_view() == task_ids(ts@).take(i as int),
        decreases ts@.len() - i,
    {
        let nm = ts[i].id.clone();
        assert(nm@ == task_ids(ts@)[i as int]);
        crate::rsync::push_arg(&mut r, nm);
        assert(task_ids(ts@).take(i + 1) =~= task_ids(ts@).take(i as int).push(
            task_ids(ts@)[i as int],
        ));
        i = i + 1;
        assert(r.deep_view() =~= task_ids(ts@).take(i as int));
    }
    assert(task_ids(ts@).take(i as int) =~= task_ids(ts@));
    r
}

/// Chooses the tasks that `PROFILE` (all its tasks, in order) or
/// `PROFILE/TASK` (the first task with that id) names.  The first profile
/// with the name is taken.
pub fn select<'a>(profiles: &'a [Profile], target: &str) -> (r: Result<Vec<&'a Task>, SelectError>)
    ensures
        match spec_select(profiles@, target@) {
            Ok((p, idx)) => r matches Ok(v) && v@.len() == idx.len() && forall|i: int|
                0 <= i < idx.len() ==> *v@[i] == profiles@[p].tasks@[#[trigger] idx[i]],
            Err(_) => r is Err,
        },
        match r {
            Err(SelectError::NoProfiles) => profiles@.len() == 0,
            Err(SelectError::NoProfile { name, have }) => profiles@.len() > 0 && name@
                == split_target(target@).0 && have.deep_view() == profile_names(profiles@)
                && find_profile(profiles@, name@, 0) is None,
            Err(SelectError::NoTask { id, profile, have }) => ({
                let p = find_profile(profiles@, split_target(target@).0, 0);
                &&& p is Some
                &&& profile@ == split_target(target@).0
                &&& split_target(target@).1 == Some(id@)
                &&& have.deep_view() == task_ids(profiles@[p->0].tasks@)
                &&& find_task(profiles@[p->0].tasks@, id@, 0) is None
            }),
            Ok(_) => true,
        },
{
    if profiles.len() == 0 {
        return Err(SelectError::NoProfiles);
    }
    let t = chars_of(target);
    let slash = find_char_from(t.as_slice(), '/', 0);
    proof {
        lemma_find_from(t@, '/', 0);
    }
    let (name, id): (Vec<char>, Option<Vec<char>>) = match slash {
        Some(k) => {
            assert(k < t.len());
            let n = slice_chars(t.as_slice(), 0, k);
            let i = slice_chars(t.as_slice(), k + 1, t.len());
            assert(n@ == t@.take(k as int));
            assert(i@ == t@.skip(k + 1));
            (n, Some(i))
        },
        None => (t, None),
    };
    let p = match profile_index(profiles, name.as_slice()) {
        Some(p) => p,
        None => {
            return Err(
                SelectError::NoProfile { name: string_of(name.as_slice()), have: names_of(profiles) },
            );
        },
    };
    proof {
        lemma_find_profile(profiles@, name@, 0);
    }
    let profile = &profiles[p];
    match id {
        None => {
            let mut v: Vec<&'a Task> = Vec::new();
            let mut i: usize = 0;
            while i < profile.tasks.len()
                invariant
                    i <= profile.tasks@.len(),
                    v@.len() == i,
                    forall|j: int| 0 <= j < i ==> *v@[j] == profile.tasks@[j],
                decreases profile.tasks@.len() - i,
            {
                v.push(&profile.tasks[i]);
                i = i + 1;
            }
            Ok(v)
        },
        Some(id) => match task_index(&profile.tasks, id.as_slice()) {
            Some(k) => {
                proof {
                    lemma_find_task(profile.tasks@, id@, 0);
                }
                let mut v: Vec<&'a Task> = Vec::new();
                v.push(&profile.tasks[k]);
                Ok(v)
            },
            None => Err(
                SelectError::NoTask {
                    id: string_of(id.as_slice()),
                    profile: string_of(name.as_slice()),
                    have: ids_of(&profile.tasks),
                },
            ),
        },
    }
}

/// `xs` joined with `sep` between neighbours.
pub open spec fn join_with(xs: Seq<Seq<char>>, sep: Seq<char>) -> Seq<char>
    decreases xs.len(),
{
    if xs.len() == 0 {
        seq![]
    } else if xs.len() == 1 {
        xs[0]
    } else {
        join_with(xs.drop_last(), sep) + sep + xs.last()
    }
}

fn push_joined(out: &mut Vec<char>, xs: &Vec<String>, sep: &str)
    ensures
        final(out)@ == old(out)@ + join_with(xs.deep_view(), sep@),
{
    let ghost d = xs.deep_view();
    let ghost head = old(out)@;
    let mut i: usize = 0;
    assert(d.take(0) =~= Seq::<Seq<char>>::empty());
    assert(out@ =~= head + join_with(d.take(0), sep@));
    while i < xs.len()
        invariant
            i <= xs@.len(),
            d == xs.deep_view(),
            out@ == head + join_with(d.take(i as int), sep@),
        decreases xs@.len() - i,
    {
        if i > 0 {
            extend_str(out, sep);
        }
        extend_str(out, xs[i].as_str());
        assert(d[i as int] == xs@[i as int]@);
        assert(d.take(i + 1).drop_last() == d.take(i as int));
        assert(d.take(i + 1).last() == d[i as int]);
        if i == 0 {
            assert(d.take(1) == seq![d[0]]);
        }
        i = i + 1;
        assert(out@ =~= head + join_with(d.take(i as int), sep@));
    }
    assert(d.take(i as int) == d);
}

impl SelectError {
    /// The message for the error, as the headless commands print it.
    pub open spec fn spec_message(&self) -> Seq<char> {
        match self {
            SelectError::NoProfiles => "no profiles configured (add one in the TUI: lazyrsync)"@,
            SelectError::NoProfile { name, have } => "no profile named '"@ + name@ + "' (have: "@
                + join_with(have.deep_view(), ", "@) + ")"@,
            SelectError::NoTask { id, profile, have } => "no task '"@ + id@ + "' in profile '"@
                + profile@ + "' (have: "@ + join_with(have.deep_view(), ", "@) + ")"@,
        }
    }

    /// The message for the error.
    pub fn message(&self) -> (r: String)
        ensures
            r@ == self.spec_message(),
    {
        match self {
            SelectError::NoProfiles => String::from_str(
                "no profiles configured (add one in the TUI: lazyrsync)",
            ),
            SelectError::NoProfile { name, have } => {
                let mut v = chars_of("no profile named '");
                extend_str(&mut v, name.as_str());
                extend_str(&mut v, "' (have: ");
                push_joined(&mut v, have, ", ");
                extend_str(&mut v, ")");
                string_of(v.as_slice())
            },
            SelectError::NoTask { id, profile, have } => {
                let mut v = chars_of("no task '");
                extend_str(&mut v, id.as_str());
                extend_str(&mut v, "' in profile '");
                extend_str(&mut v, profile.as_str());
                extend_str(&mut v, "' (have: ");
                push_joined(&mut v, have, ", ");
                extend_str(&mut v, ")");
                string_of(v.as_slice())
            },
        }
    }
}

/// `PROFILE/TASK` names one of the tasks that `PROFILE` names: when the task
/// target is found, the whole profile is found too, and the chosen task is
/// among its tasks, with the id asked for.  And an id that the profile's
/// tasks carry is always found.
pub proof fn law_task_target_is_one_of_the_profile_tasks(
    ps: Seq<Profile>,
    name: Seq<char>,
    id: Seq<char>,
)
    requires
        !name.contains('/'),
    ensures
        spec_select(ps, name + seq!['/'] + id) matches Ok((p, idx)) ==> (spec_select(
            ps,
            name,
        ) matches Ok((q, all)) && q == p && idx.len() == 1 && all.contains(idx[0])
            && ps[p].tasks@[idx[0]].id@ == id),
        (spec_select(ps, name) matches Ok((p, all)) && exists|t: int|
            0 <= t < ps[p].tasks@.len() && (#[trigger] ps[p].tasks@[t]).id@ == id) ==> spec_select(
            ps,
            name + seq!['/'] + id,
        ) is Ok,
{
    let t = name + seq!['/'] + id;
    lemma_find_from(name, '/', 0);
    lemma_find_from(t, '/', 0);
    assert(t[name.len() as int] == '/');
    match find(t, '/') {
        Some(k) => {
            if k < name.len() {
                assert(t[k] == name[k]);
            }
            assert(k == name.len());
        },
        None => {},
    }
    assert(t.take(name.len() as int) =~= name);
    assert(t.skip(name.len() + 1int) =~= id);
    assert(split_target(t) == (name, Some(id)));
    assert(split_target(name) == (name, None::<Seq<char>>));
    match find_profile(ps, name, 0) {
        Some(p) => {
            lemma_find_task(ps[p].tasks@, id, 0);
            match find_task(ps[p].tasks@, id, 0) {
                Some(k) => {
                    let all = Seq::new(ps[p].tasks@.len(), |i: int| i);
                    assert(all[k] == k);
                },
                None => {},
            }
        },
        None => {},
    }
}

/// The line `list` prints when there are no profiles.
pub open spec fn no_profiles_line() -> Seq<char> {
    "No profiles. Add one in the TUI (run `lazyrsync`)."@
}

/// The lines of the first `k` tasks of a profile in `list`: the id, then the
/// resolved command (`cmds[i]` for task `i`) below it.
pub open spec fn spec_task_lines(ts: Seq<Task>, cmds: Seq<String>, k: int) -> Seq<Seq<char>>
    decreases k,
{
    if k <= 0 {
        seq![]
    } else {
        spec_task_lines(ts, cmds, k - 1) + seq!["  "@ + ts[k - 1].id@, "      "@ + cmds[k - 1]@]
    }
}

/// The lines of one profile in `list`: its name, its tasks, a blank line.
pub open spec fn spec_profile_lines(p: Profile, cmds: Seq<String>) -> Seq<Seq<char>> {
    seq![p.name@] + spec_task_lines(p.tasks@, cmds, p.tasks@.len() as int) + seq![seq![]]
}

/// The lines of the first `k` profiles in `list`.
pub open spec fn spec_profiles_lines(ps: Seq<Profile>, cmds: Seq<Vec<String>>, k: int) -> Seq<
    Seq<char>,
>
    decreases k,
{
    if k <= 0 {
        seq![]
    } else {
        spec_profiles_lines(ps, cmds, k - 1) + spec_profile_lines(ps[k - 1], cmds[k - 1]@)
    }
}

/// What `list` prints: each profile with its task ids and their resolved
/// commands, or a hint when there is no profile.
pub open spec fn spec_list(ps: Seq<Profile>, cmds: Seq<Vec<String>>) -> Seq<Seq<char>> {
    if ps.len() == 0 {
        seq![no_profiles_line()]
    } else {
        spec_profiles_lines(ps, cmds, ps.len() as int)
    }
}

fn prefixed_line(prefix: &str, s: &str) -> (r: String)
    ensures
        r@ == prefix@ + s@,
{
    let mut v = chars_of(prefix);
    extend_str(&mut v, s);
    string_of(v.as_slice())
}

/// The lines that `lazyrsync list` prints, one per element; `commands[p][t]`
/// is the resolved command of task `t` of profile `p`.
pub fn list_lines(profiles: &[Profile], commands: &[Vec<String>]) -> (r: Vec<String>)
    requires
        commands@.len() == profiles@.len(),
        forall|p: int|
            0 <= p < profiles@.len() ==> (#[trigger] commands@[p])@.len()
                == profiles@[p].tasks@.len(),
    ensures
        r.deep_view() == spec_list(profiles@, commands@),
{
    let mut out: Vec<String> = Vec::new();
    if profiles.len() == 0 {
        out.push(String::from_str("No profiles. Add one in the TUI (run `lazyrsync`)."));
        proof {
            reveal_strlit("No profiles. Add one in the TUI (run `lazyrsync`).");
        }
        assert(out.deep_view() =~= spec_list(profiles@, commands@));
        return out;
    }
    let mut p: usize = 0;
    while p < profiles.len()
        invariant
            p <= profiles@.len(),
            commands@.len() == profiles@.len(),
            forall|q: int|
                0 <= q < profiles@.len() ==> (#[trigger] commands@[q])@.len()
                    == profiles@[q].tasks@.len(),
            out.deep_view() == spec_profiles_lines(profiles@, commands@, p as int),
        decreases profiles@.len() - p,
    {
        let pr = &profiles[p];
        let cmds = &commands[p];
        let ghost before = out.deep_view();
        out.push(pr.name.clone());
        let mut t: usize = 0;
        assert(out.deep_view() =~= before + seq![pr.name@] + spec_task_lines(
            pr.tasks@,
            cmds@,
            0,
        ));
        while t < pr.tasks.len()
            invariant
                t <= pr.tasks@.len(),
                cmds@.len() == pr.tasks@.len(),
                out.deep_view() == before + seq![pr.name@] + spec_task_lines(
                    pr.tasks@,
                    cmds@,
                    t as int,
                ),
            decreases pr.tasks@.len() - t,
        {
            let ghost mid = out.deep_view();
            out.push(prefixed_line("  ", pr.tasks[t].id.as_str()));
            out.push(prefixed_line("      ", cmds[t].as_str()));
            assert(out.deep_view() =~= mid + seq![
                "  "@ + pr.tasks@[t as int].id@,
                "      "@ + cmds@[t as int]@,
            ]);
            t = t + 1;
        }
        let ghost body = out.deep_view();
        out.push(String::new());
        assert(out.deep_view() =~= body + seq![seq![]]);
        assert(*pr == profiles@[p as int]);
        assert(*cmds == commands@[p as int]);
        assert(out.deep_view() =~= before + spec_profile_lines(profiles@[p as int], commands@[p as int]@));
        p = p + 1;
    }
    out
}

/// The command `list` shows for a task: the TUI's rsync invocation of a real
/// run, arguments joined by single spaces.
pub open spec fn listed_command(env: Env, t: Task, names: Seq<String>) -> Seq<char> {
    "rsync "@ + join_space(
        spec_build_args(env, t, names, ArgOpts { dry_run: false, stats: true, quiet: false }),
    )
}

/// Whether `cmds` holds, for every task of every profile, its listed command
/// (`names[p][t]` being the entries under task `t`'s snapshot root).
pub open spec fn commands_listed(
    env: Env,
    ps: Seq<Profile>,
    names: Seq<Vec<Vec<String>>>,
    cmds: Seq<Vec<String>>,
) -> bool {
    &&& cmds.len() == ps.len()
    &&& forall|p: int|
        0 <= p < ps.len() ==> (#[trigger] cmds[p])@.len() == ps[p].tasks@.len() && forall|t: int|
            0 <= t < ps[p].tasks@.len() ==> (#[trigger] cmds[p]@[t])@ == listed_command(
                env,
                ps[p].tasks@[t],
                names[p]@[t]@,
            )
}

/// What `lazyrsync list` prints, one line per element: every profile with
/// its task ids and the command each task resolves to (`resolved_command`
/// of a real run), or a hint when there is no profile.  `names[p][t]` holds
/// the entries under the snapshot root of task `t` of profile `p`.
pub fn list_output(profiles: &[Profile], env: &Env, names: &[Vec<Vec<String>>]) -> (r: Vec<String>)
    requires
        names@.len() == profiles@.len(),
        forall|p: int|
            0 <= p < profiles@.len() ==> (#[trigger] names@[p])@.len()
                == profiles@[p].tasks@.len(),
        forall|p: int, t: int|
            0 <= p < profiles@.len() && 0 <= t < profiles@[p].tasks@.len() ==> resolvable(
                #[trigger] profiles@[p].tasks@[t],
                #[trigger] names@[p]@[t]@,
            ),
    ensures
        exists|cmds: Seq<Vec<String>>|
            commands_listed(*env, profiles@, names@, cmds) && r.deep_view() == spec_list(
                profiles@,
                cmds,
            ),
{
    let mut commands: Vec<Vec<String>> = Vec::new();
    let mut p: usize = 0;
    while p < profiles.len()
        invariant
            p <= profiles@.len(),
            names@.len() == profiles@.len(),
            forall|q: int|
                0 <= q < profiles@.len() ==> (#[trigger] names@[q])@.len()
                    == profiles@[q].tasks@.len(),
            forall|q: int, t: int|
                0 <= q < profiles@.len() && 0 <= t < profiles@[q].tasks@.len() ==> resolvable(
                    #[trigger] profiles@[q].tasks@[t],
                    #[trigger] names@[q]@[t]@,
                ),
            commands@.len() == p,
            forall|q: int|
                0 <= q < p ==> (#[trigger] commands@[q])@.len() == profiles@[q].tasks@.len()
                    && forall|t: int|
                    0 <= t < profiles@[q].tasks@.len() ==> (#[trigger] commands@[q]@[t])@
                        == listed_command(*env, profiles@[q].tasks@[t], names@[q]@[t]@),
        decreases profiles@.len() - p,
    {
        let tasks = &profiles[p].tasks;
        let ns = &names[p];
        let mut cmds: Vec<String> = Vec::new();
        let mut t: usize = 0;
        while t < tasks.len()
            invariant
                t <= tasks@.len(),
                *tasks == profiles@[p as int].tasks,
                *ns == names@[p as int],
                ns@.len() == tasks@.len(),
                forall|u: int| 0 <= u < tasks@.len() ==> resolvable(#[trigger] tasks@[u], ns@[u]@),
                cmds@.len() == t,
                forall|u: int|
                    0 <= u < t ==> (#[trigger] cmds@[u])@ == listed_command(
                        *env,
                        tasks@[u],
                        ns@[u]@,
                    ),
            decreases tasks@.len() - t,
        {
            assert(resolvable(tasks@[t as int], ns@[t as int]@));
            let c = resolved_command(&tasks[t], false, env, ns[t].as_slice());
            cmds.push(c);
            t = t + 1;
        }
        commands.push(cmds);
        p = p + 1;
    }
    assert(commands_listed(*env, profiles@, names@, commands@));
    list_lines(profiles, commands.as_slice())
}

/// How one task of a headless run ended.
#[derive(Clone, Copy, Debug, PartialEq, Eq, Structural)]
pub enum TaskOutcome {
    /// rsync exited with this status.
    Exited(i32),
    /// rsync was killed by a signal.
    Killed,
    /// rsync could not be started (or its destination prepared).
    NotStarted,
}

/// Whether a task succeeded: rsync exited 0, or 24 (source files vanished
/// during the transfer).
pub open spec fn spec_ok(o: TaskOutcome) -> bool {
    o == TaskOutcome::Exited(0) || o == TaskOutcome::Exited(24)
}

/// The exit status a task stands for: rsync's own, or 3 when it could not
/// start or was killed.
pub open spec fn spec_task_code(o: TaskOutcome) -> i32 {
    match o {
        TaskOutcome::Exited(c) => c,
        _ => 3,
    }
}

/// The exit status of a whole run: 0 when every task succeeded, else the
/// status of the first task that failed.
pub open spec fn spec_exit_code(os: Seq<TaskOutcome>) -> i32
    decreases os.len(),
{
    if os.len() == 0 {
        0
    } else if !spec_ok(os[0]) {
        spec_task_code(os[0])
    } else {
        spec_exit_code(os.drop_first())
    }
}

/// How many tasks succeeded.
pub open spec fn count_ok(os: Seq<TaskOutcome>) -> nat
    decreases os.len(),
{
    if os.len() == 0 {
        0
    } else {
        count_ok(os.drop_last()) + if spec_ok(os.last()) {
            1nat
        } else {
            0nat
        }
    }
}

/// Whether a task succeeded.
pub fn task_ok(o: TaskOutcome) -> (r: bool)
    ensures
        r == spec_ok(o),
{
    match o {
        TaskOutcome::Exited(c) => c == 0 || c == 24,
        _ => false,
    }
}

/// The exit status a task stands for.
pub fn task_code(o: TaskOutcome) -> (r: i32)
    ensures
        r == spec_task_code(o),
{
    match o {
        TaskOutcome::Exited(c) => c,
        _ => 3,
    }
}

/// The exit status of a run whose tasks ended as `os`, in order.
pub fn exit_code(os: &[TaskOutcome]) -> (r: i32)
    ensures
        r == spec_exit_code(os@),
{
    let mut i: usize = 0;
    assert(os@.skip(0) == os@);
    while i < os.len()
        invariant
            i <= os@.len(),
            spec_exit_code(os@) == spec_exit_code(os@.skip(i as int)),
        decreases os@.len() - i,
    {
        assert(os@.skip(i as int)[0] == os@[i as int]);
        if !task_ok(os[i]) {
            return task_code(os[i]);
        }
        assert(os@.skip(i as int).drop_first() == os@.skip(i + 1));
        i = i + 1;
    }
    0
}

/// What a headless run does next.
#[derive(Clone, Copy, Debug, PartialEq, Eq, Structural)]
pub enum Step {
    /// Run the task at this index.
    Run(usize),
    /// Every task has had its turn: print the summary and exit with this
    /// status.
    Finish(i32),
}

/// The step of a run of `n` tasks after the first ones ended as `outcomes`.
pub open spec fn step_of(n: usize, outcomes: Seq<TaskOutcome>) -> Step {
    if outcomes.len() < n {
        Step::Run(outcomes.len() as usize)
    } else {
        Step::Finish(spec_exit_code(outcomes))
    }
}

/// The next step of a run of `n` tasks, of which the first ones ended as
/// `outcomes`: the next task runs whatever the earlier ones returned, and once
/// every task has had its turn the run exits with `exit_code`'s status.
pub fn next_step(n: usize, outcomes: &[TaskOutcome]) -> (r: Step)
    ensures
        r == step_of(n, outcomes@),
{
    if outcomes.len() < n {
        Step::Run(outcomes.len())
    } else {
        Step::Finish(exit_code(outcomes))
    }
}

/// A failing task does not stop the rest: while some task has not had its
/// turn, the next step runs the next task in order, the same step whatever
/// the earlier tasks returned; only when all `n` have run does the run finish,
/// with the status of the first failure (0 when none failed).
pub proof fn law_every_task_gets_its_turn(n: usize, a: Seq<TaskOutcome>, b: Seq<TaskOutcome>)
    requires
        a.len() == b.len(),
    ensures
        a.len() < n ==> step_of(n, a) == Step::Run(a.len() as usize) && step_of(n, a) == step_of(
            n,
            b,
        ),
        a.len() == n ==> step_of(n, a) == Step::Finish(spec_exit_code(a)),
{
}

/// The decimal notation of a signed status.
pub open spec fn dec_i32(c: i32) -> Seq<char> {
    if c < 0 {
        seq!['-'] + dec((-c) as nat)
    } else {
        dec(c as nat)
    }
}

fn push_i32(out: &mut Vec<char>, c: i32)
    ensures
        final(out)@ == old(out)@ + dec_i32(c),
{
    if c < 0 {
        out.push('-');
        let m: i64 = -(c as i64);
        push_dec(out, m as u64);
        assert(out@ =~= old(out)@ + dec_i32(c));
    } else {
        push_dec(out, c as u64);
    }
}

/// The line that reports a failed task: `✗ ID failed: exit CODE`.
pub open spec fn spec_failure_line(id: Seq<char>, o: TaskOutcome) -> Seq<char> {
    "✗ "@ + id + " failed: exit "@ + dec_i32(spec_task_code(o))
}

/// The line that reports a failed task.
pub fn failure_line(task: &Task, o: TaskOutcome) -> (r: String)
    ensures
        r@ == spec_failure_line(task.id@, o),
{
    let mut v = chars_of("✗ ");
    extend_str(&mut v, task.id.as_str());
    extend_str(&mut v, " failed: exit ");
    push_i32(&mut v, task_code(o));
    string_of(v.as_slice())
}

/// The line that opens a task's output: `→ NAME`.
pub fn header_line(task: &Task) -> (r: String)
    ensures
        r@ == "→ "@ + task.name@,
{
    let mut v = chars_of("→ ");
    extend_str(&mut v, task.name.as_str());
    string_of(v.as_slice())
}

/// The closing summary: `N tasks: OK ok, FAILED failed` (`task` when N is 1).
pub open spec fn spec_summary(os: Seq<TaskOutcome>) -> Seq<char> {
    dec(os.len()) + (if os.len() == 1 {
        " task: "@
    } else {
        " tasks: "@
    }) + dec(count_ok(os)) + " ok, "@ + dec((os.len() - count_ok(os)) as nat) + " failed"@
}

proof fn lemma_count_ok_le(os: Seq<TaskOutcome>)
    ensures
        count_ok(os) <= os.len(),
    decreases os.len(),
{
    if os.len() > 0 {
        lemma_count_ok_le(os.drop_last());
    }
}

/// The closing summary of a run whose tasks ended as `os`.
pub fn summary(os: &[TaskOutcome]) -> (r: String)
    ensures
        r@ == spec_summary(os@),
{
    let mut ok: usize = 0;
    let mut i: usize = 0;
    assert(os@.take(0) =~= Seq::<TaskOutcome>::empty());
    while i < os.len()
        invariant
            i <= os@.len(),
            ok == count_ok(os@.take(i as int)),
            ok <= i,
        decreases os@.len() - i,
    {
        assert(os@.take(i + 1).drop_last() == os@.take(i as int));
        assert(os@.take(i + 1).last() == os@[i as int]);
        if task_ok(os[i]) {
            ok = ok + 1;
        }
        i = i + 1;
    }
    assert(os@.take(i as int) == os@);
    let mut v: Vec<char> = Vec::new();
    push_dec(&mut v, os.len() as u64);
    if os.len() == 1 {
        extend_str(&mut v, " task: ");
    } else {
        extend_str(&mut v, " tasks: ");
    }
    push_dec(&mut v, ok as u64);
    extend_str(&mut v, " ok, ");
    push_dec(&mut v, (os.len() - ok) as u64);
    extend_str(&mut v, " failed");
    string_of(v.as_slice())
}

/// Whether a task removes files at the destination: `--delete` or
/// `--delete-excluded` (hand-written arguments are not read).
pub open spec fn spec_deletes(t: Task) -> bool {
    t.flags.delete || t.flags.delete_excluded
}

/// The first task of `ts` that the `--delete` gate stops, when the run is
/// real and `--yes` was not given.
pub open spec fn spec_refusal(ts: Seq<&Task>, dry_run: bool, yes: bool) -> Option<int> {
    if dry_run || yes {
        None
    } else {
        first_deleting(ts, 0)
    }
}

/// The index of the first task at or after `from` that deletes.
pub open spec fn first_deleting(ts: Seq<&Task>, from: int) -> Option<int>
    decreases ts.len() - from,
{
    if from < 0 || from >= ts.len() {
        None
    } else if spec_deletes(*ts[from]) {
        Some(from)
    } else {
        first_deleting(ts, from + 1)
    }
}

/// `first_deleting` finds the first deleting task.
pub proof fn lemma_first_deleting(ts: Seq<&Task>, from: int)
    requires
        0 <= from,
    ensures
        match first_deleting(ts, from) {
            Some(k) => from <= k < ts.len() && spec_deletes(*ts[k]) && forall|j: int|
                from <= j < k ==> !spec_deletes(*ts[j]),
            None => forall|j: int| from <= j < ts.len() ==> !spec_deletes(*ts[j]),
        },
    decreases ts.len() - from,
{
    if from < ts.len() && !spec_deletes(*ts[from]) {
        lemma_first_deleting(ts, from + 1);
    }
}

/// The `--delete` gate: the first task that would delete at the destination
/// in a real run without `--yes`; `None` when the run may go ahead.  A dry
/// run is never refused.
pub fn refusal(tasks: &[&Task], dry_run: bool, yes: bool) -> (r: Option<usize>)
    ensures
        match r {
            Some(k) => spec_refusal(tasks@, dry_run, yes) == Some(k as int),
            None => spec_refusal(tasks@, dry_run, yes) is None,
        },
{
    if dry_run || yes {
        return None;
    }
    let mut i: usize = 0;
    while i < tasks.len()
        invariant
            i <= tasks@.len(),
            first_deleting(tasks@, 0) == first_deleting(tasks@, i as int),
            !dry_run && !yes,
        decreases tasks@.len() - i,
    {
        if tasks[i].flags.delete || tasks[i].flags.delete_excluded {
            assert(spec_deletes(*tasks@[i as int]));
            return Some(i);
        }
        i = i + 1;
    }
    None
}

/// How a headless run starts: it stops at once with a status and a message
/// for stderr, or it runs the chosen tasks in order.
pub enum RunStart<'a> {
    Exit { code: i32, message: String },
    Tasks(Vec<&'a Task>),
}

impl<'a> RunStart<'a> {
    /// The status the run stops with at once, if it does.
    pub fn exit_code(&self) -> (r: Option<i32>)
        ensures
            match self {
                RunStart::Exit { code, .. } => r == Some(*code),
                RunStart::Tasks(_) => r is None,
            },
    {
        match self {
            RunStart::Exit { code, .. } => Some(*code),
            RunStart::Tasks(_) => None,
        }
    }
}

/// The message of a refused run; it always says that nothing ran.
pub open spec fn spec_refusal_message(id: Seq<char>) -> Seq<char> {
    "error: task '"@ + id + "' deletes files at the destination; rerun with --yes (nothing ran)"@
}

/// Starts a headless run of `PROFILE[/TASK]`: an unknown target stops with
/// status 2 and the error; a real run without `--yes` that would delete
/// stops with status 1 before anything runs; a target without tasks stops
/// with status 0 and says so; otherwise the chosen tasks run, in order.
pub fn run<'a>(profiles: &'a [Profile], target: &str, dry_run: bool, yes: bool) -> (r: RunStart<'a>)
    ensures
        match spec_select(profiles@, target@) {
            Err(_) => r matches RunStart::Exit { code, message } && code == 2 && message@
                == "error: "@ + spec_select_message(profiles@, target@),
            Ok((p, idx)) => match r {
                RunStart::Exit { code, message } => {
                    ||| idx.len() == 0 && code == 0 && message@ == "nothing to run: '"@ + target@
                        + "' has no tasks"@
                    ||| (idx.len() > 0 && code == 1 && !dry_run && !yes && exists|k: int|
                        0 <= k < idx.len() && spec_deletes(profiles@[p].tasks@[#[trigger] idx[k]])
                        && (forall|j: int|
                        0 <= j < k ==> !spec_deletes(profiles@[p].tasks@[#[trigger] idx[j]]))
                        && message@ == spec_refusal_message(profiles@[p].tasks@[idx[k]].id@))
                },
                RunStart::Tasks(v) => {
                    &&& idx.len() > 0
                    &&& v@.len() == idx.len()
                    &&& forall|i: int|
                        0 <= i < idx.len() ==> *v@[i] == profiles@[p].tasks@[#[trigger] idx[i]]
                    &&& (dry_run || yes || forall|i: int|
                        0 <= i < idx.len() ==> !spec_deletes(*v@[i]))
                },
            },
        },
{
    let tasks = match select(profiles, target) {
        Ok(t) => t,
        Err(e) => {
            let mut v = chars_of("error: ");
            let m = e.message();
            assert(m@ == spec_select_message(profiles@, target@));
            extend_str(&mut v, m.as_str());
            return RunStart::Exit { code: 2, message: string_of(v.as_slice()) };
        },
    };
    if tasks.len() == 0 {
        let mut v = chars_of("nothing to run: '");
        extend_str(&mut v, target);
        extend_str(&mut v, "' has no tasks");
        return RunStart::Exit { code: 0, message: string_of(v.as_slice()) };
    }
    match refusal(tasks.as_slice(), dry_run, yes) {
        Some(k) => {
            proof {
                lemma_first_deleting(tasks@, 0);
                let (p, idx) = spec_select(profiles@, target@)->Ok_0;
                assert(*tasks@[k as int] == profiles@[p].tasks@[idx[k as int]]);
                assert(spec_deletes(profiles@[p].tasks@[idx[k as int]]));
            }
            let mut v = chars_of("error: task '");
            extend_str(&mut v, tasks[k].id.as_str());
            extend_str(&mut v, "' deletes files at the destination; rerun with --yes (nothing ran)");
            RunStart::Exit { code: 1, message: string_of(v.as_slice()) }
        },
        None => {
            proof {
                lemma_first_deleting(tasks@, 0);
            }
            RunStart::Tasks(tasks)
        },
    }
}

/// The destination whose missing parents a headless run creates before a
/// task: none on a dry run, which changes nothing, nor for a remote
/// destination; else the resolved destination.
pub fn dest_to_create(task: &Task, dry_run: bool, env: &Env, names: &[String]) -> (r: Option<
    String,
>)
    requires
        resolvable(*task, names@),
    ensures
        match r {
            Some(d) => !dry_run && d@ == spec_resolve(*env, *task, names@).1 && !spec_is_remote(d@),
            None => dry_run || spec_is_remote(spec_resolve(*env, *task, names@).1),
        },
{
    if dry_run {
        None
    } else {
        prepare_dest(task, env, names)
    }
}

/// A run exits 0 exactly when every task succeeded (or there were none);
/// otherwise it exits with the status of the first task that failed, which is
/// never 0.  One failing task does not hide the others' outcomes.
pub proof fn law_exit_zero_iff_every_task_succeeded(os: Seq<TaskOutcome>)
    ensures
        spec_exit_code(os) == 0 <==> forall|i: int| 0 <= i < os.len() ==> spec_ok(#[trigger] os[i]),
    decreases os.len(),
{
    if os.len() > 0 {
        law_exit_zero_iff_every_task_succeeded(os.drop_first());
        assert forall|i: int| 0 <= i < os.len() - 1 implies os.drop_first()[i] == #[trigger] os[i
            + 1] by {}
        if !spec_ok(os[0]) {
            assert(spec_task_code(os[0]) != 0);
        }
        if forall|i: int| 0 <= i < os.len() ==> spec_ok(#[trigger] os[i]) {
            assert forall|i: int| 0 <= i < os.drop_first().len() implies spec_ok(
                #[trigger] os.drop_first()[i],
            ) by {
                assert(spec_ok(os[i + 1]));
            }
        }
        if spec_exit_code(os) == 0 {
            assert forall|i: int| 0 <= i < os.len() implies spec_ok(#[trigger] os[i]) by {
                if i > 0 {
                    assert(os[i] == os.drop_first()[i - 1]);
                }
            }
        }
    }
}

/// The `--delete` gate never stops a dry run, nor a run given `--yes`, and
/// it stops a real run without `--yes` exactly when some chosen task deletes.
pub proof fn law_delete_gate(ts: Seq<&Task>, dry_run: bool, yes: bool)
    ensures
        (dry_run || yes) ==> spec_refusal(ts, dry_run, yes) is None,
        (!dry_run && !yes) ==> (spec_refusal(ts, dry_run, yes) is Some <==> exists|i: int|
            0 <= i < ts.len() && spec_deletes(*#[trigger] ts[i])),
{
    lemma_first_deleting(ts, 0);
}


/// Whether rsync's status counts as success: 0, or 24 (source files vanished
/// during the transfer), and nothing else.
pub open spec fn success_status(o: TaskOutcome) -> bool {
    o == TaskOutcome::Exited(0) || o == TaskOutcome::Exited(24)
}

/// Only statuses 0 and 24 succeed.  A run whose tasks all ended so exits 0;
/// otherwise it exits with the first other outcome's status: rsync's own
/// code, or 3 for a task that could not start or was killed.  The summary's
/// ok count is the number of tasks that ended with 0 or 24.
pub proof fn law_only_0_and_24_succeed(os: Seq<TaskOutcome>, c: i32)
    ensures
        spec_exit_code(seq![TaskOutcome::Exited(c)]) == (if c == 0 || c == 24 {
            0
        } else {
            c
        }),
        count_ok(seq![TaskOutcome::Exited(c)]) == (if c == 0 || c == 24 {
            1nat
        } else {
            0nat
        }),
        (forall|i: int| 0 <= i < os.len() ==> success_status(#[trigger] os[i])) ==> spec_exit_code(
            os,
        ) == 0,
        forall|k: int|
            0 <= k < os.len() && !success_status(#[trigger] os[k]) && (forall|j: int|
                0 <= j < k ==> success_status(#[trigger] os[j])) ==> spec_exit_code(os) == match os[k] {
                TaskOutcome::Exited(c) => c,
                _ => 3i32,
            },
        count_ok(os) == os.filter(|o: TaskOutcome| success_status(o)).len(),
    decreases os.len(),
{
    let one = seq![TaskOutcome::Exited(c)];
    assert(one.drop_first() =~= Seq::<TaskOutcome>::empty());
    assert(one.drop_last() =~= Seq::<TaskOutcome>::empty());
    assert(one[0] == TaskOutcome::Exited(c));
    assert(spec_exit_code(one.drop_first()) == 0);
    assert(count_ok(one.drop_last()) == 0);
    assert(one.last() == TaskOutcome::Exited(c));
    assert(spec_ok(TaskOutcome::Exited(c)) <==> (c == 0 || c == 24));
    if os.len() > 0 {
        let tail = os.drop_first();
        law_only_0_and_24_succeed(tail, c);
        assert forall|i: int| 0 <= i < tail.len() implies tail[i] == os[i + 1] by {}
        if forall|i: int| 0 <= i < os.len() ==> success_status(#[trigger] os[i]) {
            assert(success_status(os[0]));
            assert forall|i: int| 0 <= i < tail.len() implies success_status(#[trigger] tail[i]) by {
                assert(success_status(os[i + 1]));
            }
        }
        assert forall|k: int|
            0 <= k < os.len() && !success_status(#[trigger] os[k]) && (forall|j: int|
                0 <= j < k ==> success_status(#[trigger] os[j])) implies spec_exit_code(os)
            == match os[k] {
            TaskOutcome::Exited(c) => c,
            _ => 3i32,
        } by {
            if k > 0 {
                assert(success_status(os[0]));
                assert(tail[k - 1] == os[k]);
                assert forall|j: int| 0 <= j < k - 1 implies success_status(#[trigger] tail[j]) by {
                    assert(success_status(os[j + 1]));
                }
            }
        }
        let init = os.drop_last();
        law_only_0_and_24_succeed(init, c);
        let p = |o: TaskOutcome| success_status(o);
        assert(os == init.push(os.last()));
        init.lemma_filter_push(os.last(), p);
    } else {
        assert(os.filter(|o: TaskOutcome| success_status(o)) =~= Seq::<TaskOutcome>::empty());
    }
}

} // verus!
