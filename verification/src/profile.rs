//! The saved model: a profile holds tasks; a task holds one Source →
//! Destination transfer and its rsync options.

use vstd::prelude::*;

verus! {

/// What a task does: copy into the destination, or write the next numbered,
/// hardlinked snapshot under it.
#[derive(Clone, Copy, Debug, PartialEq, Eq, Structural)]
pub enum Action {
    Sync,
    Snapshot,
}

/// The rsync options of a task, as checkboxes and one number.
#[derive(Clone, Debug)]
pub struct Flags {
    pub archive: bool,
    pub hardlinks: bool,
    pub acls: bool,
    pub xattrs: bool,
    pub compress: bool,
    pub verbose: bool,
    pub human: bool,
    pub update: bool,
    pub checksum: bool,
    pub delete: bool,
    pub delete_excluded: bool,
    pub backup: bool,
    pub partial: bool,
    pub size_only: bool,
    pub existing: bool,
    pub ignore_existing: bool,
    pub bwlimit_kbps: u32,
    pub progress: bool,
}

/// The filter rules of a task.
#[derive(Clone, Debug)]
pub struct Filters {
    pub filter: Vec<String>,
    pub includes: Vec<String>,
    pub include_from: String,
    pub excludes: Vec<String>,
    pub exclude_from: String,
    pub files_from: String,
}

/// How a remote side is reached.
#[derive(Clone, Debug)]
pub struct Ssh {
    pub port: u16,
    pub keyfile: String,
    pub extra: String,
}

/// Hand-written rsync arguments.
#[derive(Clone, Debug)]
pub struct Advanced {
    pub raw_args: String,
}

/// One Source → Destination transfer.
#[derive(Clone, Debug)]
pub struct Task {
    pub id: String,
    pub name: String,
    pub action: Action,
    pub source: String,
    pub dest: String,
    pub flags: Flags,
    pub filters: Filters,
    pub ssh: Ssh,
    pub advanced: Advanced,
}

/// A named list of tasks.
#[derive(Clone, Debug)]
pub struct Profile {
    pub name: String,
    pub tasks: Vec<Task>,
}

impl Flags {
    /// The options of a new task: archive mode, compression, verbose output
    /// and the progress feed on; everything that deletes or skips, off.
    pub fn new() -> (f: Flags)
        ensures
            f.archive && f.compress && f.verbose && f.progress,
            !f.hardlinks && !f.acls && !f.xattrs && !f.human && !f.update && !f.checksum,
            !f.delete && !f.delete_excluded && !f.backup && !f.partial,
            !f.size_only && !f.existing && !f.ignore_existing,
            f.bwlimit_kbps == 0,
    {
        Flags {
            archive: true,
            hardlinks: false,
            acls: false,
            xattrs: false,
            compress: true,
            verbose: true,
            human: false,
            update: false,
            checksum: false,
            delete: false,
            delete_excluded: false,
            backup: false,
            partial: false,
            size_only: false,
            existing: false,
            ignore_existing: false,
            bwlimit_kbps: 0,
            progress: true,
        }
    }
}

impl Filters {
    /// No filter rules.
    pub fn new() -> (f: Filters)
        ensures
            f.filter@.len() == 0,
            f.includes@.len() == 0,
            f.excludes@.len() == 0,
            f.include_from@.len() == 0,
            f.exclude_from@.len() == 0,
            f.files_from@.len() == 0,
    {
        Filters {
            filter: Vec::new(),
            includes: Vec::new(),
            include_from: String::new(),
            excludes: Vec::new(),
            exclude_from: String::new(),
            files_from: String::new(),
        }
    }
}

impl Task {
    /// A Sync task named `name` from `source` to `dest`, with the default
    /// options, no filters, ssh on port 22 and no raw arguments.  Its id is
    /// its name until the caller assigns another.
    pub fn new(name: &str, source: &str, dest: &str) -> (t: Task)
        ensures
            t.id@ == name@,
            t.name@ == name@,
            t.source@ == source@,
            t.dest@ == dest@,
            t.action == Action::Sync,
            t.flags.archive && t.flags.compress && t.flags.verbose && t.flags.progress,
            !t.flags.hardlinks && !t.flags.acls && !t.flags.xattrs && !t.flags.human,
            !t.flags.update && !t.flags.checksum && !t.flags.delete && !t.flags.delete_excluded,
            !t.flags.backup && !t.flags.partial && !t.flags.size_only && !t.flags.existing,
            !t.flags.ignore_existing && t.flags.bwlimit_kbps == 0,
            t.filters.filter@.len() == 0,
            t.filters.includes@.len() == 0,
            t.filters.excludes@.len() == 0,
            t.filters.include_from@.len() == 0,
            t.filters.exclude_from@.len() == 0,
            t.filters.files_from@.len() == 0,
            t.ssh.port == 22,
            t.ssh.keyfile@.len() == 0,
            t.ssh.extra@.len() == 0,
            t.advanced.raw_args@.len() == 0,
    {
        Task {
            id: String::from_str(name),
            name: String::from_str(name),
            action: Action::Sync,
            source: String::from_str(source),
            dest: String::from_str(dest),
            flags: Flags::new(),
            filters: Filters::new(),
            ssh: Ssh { port: 22, keyfile: String::new(), extra: String::new() },
            advanced: Advanced { raw_args: String::new() },
        }
    }
}

impl Profile {
    /// A profile named `name` with no tasks.
    pub fn new(name: &str) -> (p: Profile)
        ensures
            p.name@ == name@,
            p.tasks@.len() == 0,
    {
        Profile { name: String::from_str(name), tasks: Vec::new() }
    }
}

} // verus!
