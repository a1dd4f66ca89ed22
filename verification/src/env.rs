//! The outside facts that path expansion reads: environment variables, the
//! contents of the hostname files, and one reading of the clock.  The program
//! gathers them once; everything computed from them here is verified.

use vstd::prelude::*;
use crate::text::{chars_eq, chars_of, string_of, trim, trim_chars};
use std::fmt::Write;

verus! {

/// One reading of the wall clock: seconds and nanoseconds since the Unix
/// epoch, and the local offset from UTC in seconds.  The program takes the
/// reading (with the local time zone) and hands it in.
#[derive(Clone, Copy, Debug)]
pub struct Clock {
    pub secs: i64,
    pub nanos: u32,
    pub offset: i32,
}

/// Whether `chrono`'s strftime parser yields an error item for `fmt`.
pub uninterp spec fn strftime_rejects(fmt: Seq<char>) -> bool;

/// The text that `chrono` formats `fmt` to, for the instant `secs`/`nanos`
/// seen at the fixed offset `offset`; `None` where `chrono` fails.
pub uninterp spec fn chrono_offset_text(secs: i64, nanos: u32, offset: i32, fmt: Seq<char>) -> Option<
    Seq<char>,
>;

/// The text that `chrono` formats `fmt` to, for the instant `secs`/`nanos`
/// in UTC; `None` where `chrono` fails.
pub uninterp spec fn chrono_utc_text(secs: i64, nanos: u32, fmt: Seq<char>) -> Option<Seq<char>>;

/// Calls `chrono::format::StrftimeItems::new(fmt)` and reports whether any
/// item it yields is `Item::Error`.  Claimed: the answer is `strftime_rejects`
/// of the format's characters.
#[verifier::external_body]
fn strftime_has_error(fmt: &str) -> (r: bool)
    ensures
        r == strftime_rejects(fmt@),
{
    chrono::format::StrftimeItems::new(fmt).any(|item| matches!(item, chrono::format::Item::Error))
}

/// Formats the instant with `chrono::DateTime::format` at the fixed offset
/// (`FixedOffset::east_opt`, `DateTime::from_timestamp`, `with_timezone`), and
/// writes the result to a string.  Claimed: the outcome is
/// `chrono_offset_text` of the arguments; `None` when the offset or instant is
/// out of range or the formatter reports an error.
#[verifier::external_body]
fn format_at_offset(secs: i64, nanos: u32, offset: i32, fmt: &str) -> (r: Option<String>)
    ensures
        match r {
            Some(t) => chrono_offset_text(secs, nanos, offset, fmt@) == Some(t@),
            None => chrono_offset_text(secs, nanos, offset, fmt@) is None,
        },
{
    let off = chrono::FixedOffset::east_opt(offset)?;
    let dt = chrono::DateTime::from_timestamp(secs, nanos)?.with_timezone(&off);
    let mut out = String::new();
    write!(out, "{}", dt.format(fmt)).ok()?;
    Some(out)
}

/// Formats the instant in UTC with `chrono::DateTime::<Utc>::format` and
/// writes the result to a string.  Claimed: the outcome is `chrono_utc_text`
/// of the arguments; `None` when the instant is out of range or the formatter
/// reports an error.
#[verifier::external_body]
fn format_in_utc(secs: i64, nanos: u32, fmt: &str) -> (r: Option<String>)
    ensures
        match r {
            Some(t) => chrono_utc_text(secs, nanos, fmt@) == Some(t@),
            None => chrono_utc_text(secs, nanos, fmt@) is None,
        },
{
    let dt = chrono::DateTime::from_timestamp(secs, nanos)?;
    let mut out = String::new();
    write!(out, "{}", dt.format(fmt)).ok()?;
    Some(out)
}

/// What `{now:FMT}` (`utc == false`) or `{utcnow:FMT}` (`utc == true`)
/// expands to at the clock reading `c`: nothing when the format is rejected.
pub open spec fn spec_format_now(c: Clock, fmt: Seq<char>, utc: bool) -> Option<Seq<char>> {
    if strftime_rejects(fmt) {
        None
    } else if utc {
        chrono_utc_text(c.secs, c.nanos, fmt)
    } else {
        chrono_offset_text(c.secs, c.nanos, c.offset, fmt)
    }
}

/// The current date and time in `fmt`, locally or in UTC; `None` when `chrono`
/// rejects the format.
pub fn format_now(c: Clock, fmt: &str, utc: bool) -> (r: Option<String>)
    ensures
        match r {
            Some(t) => spec_format_now(c, fmt@, utc) == Some(t@),
            None => spec_format_now(c, fmt@, utc) is None,
        },
{
    if strftime_has_error(fmt) {
        return None;
    }
    if utc {
        format_in_utc(c.secs, c.nanos, fmt)
    } else {
        format_at_offset(c.secs, c.nanos, c.offset, fmt)
    }
}

/// The value of the variable `name` in `vars`: the last binding wins.
pub open spec fn lookup(vars: Seq<(String, String)>, name: Seq<char>) -> Option<Seq<char>>
    decreases vars.len(),
{
    if vars.len() == 0 {
        None
    } else if vars.last().0@ == name {
        Some(vars.last().1@)
    } else {
        lookup(vars.drop_last(), name)
    }
}

/// The value of `name` when it is set and not empty.
pub open spec fn nonempty(vars: Seq<(String, String)>, name: Seq<char>) -> Option<Seq<char>> {
    match lookup(vars, name) {
        Some(v) => if v.len() > 0 {
            Some(v)
        } else {
            None
        },
        None => None,
    }
}

/// The first file whose trimmed content is not empty, trimmed.
pub open spec fn host_from_files(files: Seq<String>) -> Option<Seq<char>>
    decreases files.len(),
{
    if files.len() == 0 {
        None
    } else if trim(files[0]@).len() > 0 {
        Some(trim(files[0]@))
    } else {
        host_from_files(files.drop_first())
    }
}

/// The outside facts that expansion reads, gathered once by the program.
pub struct Env {
    /// The environment variables, as `(name, value)` pairs.
    pub vars: Vec<(String, String)>,
    /// The contents of the hostname files that could be read, in the order
    /// `/etc/hostname`, `/proc/sys/kernel/hostname`.
    pub hostname_files: Vec<String>,
    /// The clock reading that `{now}` and `{utcnow}` format.
    pub clock: Clock,
}

impl Env {
    /// An environment with no variables and no hostname files.
    pub fn new(clock: Clock) -> (e: Env)
        ensures
            e.vars@.len() == 0,
            e.hostname_files@.len() == 0,
            e.clock == clock,
    {
        Env { vars: Vec::new(), hostname_files: Vec::new(), clock }
    }

    /// Binds `name` to `value`, over any earlier binding.
    pub fn set_var(&mut self, name: &str, value: &str)
        ensures
            final(self).vars@.len() == old(self).vars@.len() + 1,
            final(self).vars@.drop_last() == old(self).vars@,
            final(self).vars@.last().0@ == name@,
            final(self).vars@.last().1@ == value@,
            final(self).hostname_files == old(self).hostname_files,
            final(self).clock == old(self).clock,
            forall|n: Seq<char>|
                #![auto]
                lookup(final(self).vars@, n) == if n == name@ {
                    Some(value@)
                } else {
                    lookup(old(self).vars@, n)
                },
    {
        let ghost before = self.vars@;
        self.vars.push((String::from_str(name), String::from_str(value)));
        assert(self.vars@.drop_last() =~= before);
    }

    /// Records the content of one hostname file, after those already recorded.
    pub fn add_hostname_file(&mut self, content: &str)
        ensures
            final(self).vars == old(self).vars,
            final(self).clock == old(self).clock,
            final(self).hostname_files@.len() == old(self).hostname_files@.len() + 1,
            final(self).hostname_files@.drop_last() == old(self).hostname_files@,
            final(self).hostname_files@.last()@ == content@,
    {
        self.hostname_files.push(String::from_str(content));
        assert(self.hostname_files@.drop_last() =~= old(self).hostname_files@);
    }

    /// The value of `name` (`std::env::var` on the gathered variables).
    pub fn var(&self, name: &[char]) -> (r: Option<String>)
        ensures
            match r {
                Some(v) => lookup(self.vars@, name@) == Some(v@),
                None => lookup(self.vars@, name@) is None,
            },
    {
        let mut i: usize = self.vars.len();
        assert(self.vars@.take(i as int) == self.vars@);
        while i > 0
            invariant
                i <= self.vars@.len(),
                lookup(self.vars@, name@) == lookup(self.vars@.take(i as int), name@),
            decreases i,
        {
            let k = chars_of(self.vars[i - 1].0.as_str());
            assert(self.vars@.take(i as int).last() == self.vars@[i - 1]);
            if chars_eq(k.as_slice(), name) {
                return Some(self.vars[i - 1].1.clone());
            }
            assert(self.vars@.take(i as int).drop_last() == self.vars@.take(i - 1));
            i = i - 1;
        }
        None
    }

    /// The value of `name` when it is set and not empty.
    pub fn var_nonempty(&self, name: &[char]) -> (r: Option<String>)
        ensures
            match r {
                Some(v) => nonempty(self.vars@, name@) == Some(v@),
                None => nonempty(self.vars@, name@) is None,
            },
    {
        match self.var(name) {
            Some(v) => if v.as_str().unicode_len() > 0 {
                Some(v)
            } else {
                None
            },
            None => None,
        }
    }

    /// The machine's name: the first hostname file with content, else
    /// `$HOSTNAME`, else `$HOST` (empty values skipped).
    pub open spec fn spec_hostname(self) -> Option<Seq<char>> {
        match host_from_files(self.hostname_files@) {
            Some(h) => Some(h),
            None => match nonempty(self.vars@, "HOSTNAME"@) {
                Some(h) => Some(h),
                None => nonempty(self.vars@, "HOST"@),
            },
        }
    }

    /// The current user: `$USER`, else `$LOGNAME` (empty values skipped).
    pub open spec fn spec_user(self) -> Option<Seq<char>> {
        match nonempty(self.vars@, "USER"@) {
            Some(u) => Some(u),
            None => nonempty(self.vars@, "LOGNAME"@),
        }
    }

    /// The machine's name, as `{hostname}` expands it.
    pub fn hostname(&self) -> (r: Option<String>)
        ensures
            match r {
                Some(h) => self.spec_hostname() == Some(h@),
                None => self.spec_hostname() is None,
            },
    {
        let mut i: usize = 0;
        assert(self.hostname_files@.skip(0) == self.hostname_files@);
        while i < self.hostname_files.len()
            invariant
                i <= self.hostname_files@.len(),
                host_from_files(self.hostname_files@) == host_from_files(
                    self.hostname_files@.skip(i as int),
                ),
            decreases self.hostname_files@.len() - i,
        {
            let c = chars_of(self.hostname_files[i].as_str());
            let t = trim_chars(c.as_slice());
            assert(self.hostname_files@.skip(i as int)[0] == self.hostname_files@[i as int]);
            if t.len() > 0 {
                return Some(string_of(t.as_slice()));
            }
            assert(self.hostname_files@.skip(i as int).drop_first() == self.hostname_files@.skip(
                i + 1,
            ));
            i = i + 1;
        }
        let hn = chars_of("HOSTNAME");
        let h = chars_of("HOST");
        match self.var_nonempty(hn.as_slice()) {
            Some(v) => Some(v),
            None => self.var_nonempty(h.as_slice()),
        }
    }

    /// The current user, as `{user}` expands it.
    pub fn user(&self) -> (r: Option<String>)
        ensures
            match r {
                Some(u) => self.spec_user() == Some(u@),
                None => self.spec_user() is None,
            },
    {
        let u = chars_of("USER");
        let l = chars_of("LOGNAME");
        match self.var_nonempty(u.as_slice()) {
            Some(v) => Some(v),
            None => self.var_nonempty(l.as_slice()),
        }
    }
}

} // verus!
