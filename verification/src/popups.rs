//! The two confirmation popups: the alert shown before enabling a flag that
//! deletes, and the confirmation before a run.  What they show and how they
//! answer a key; drawing is left to the terminal front end.

use vstd::prelude::*;
use crate::profile::Task;
use crate::text::{chars_of, dec, extend_str, push_dec, string_of};

verus! {

/// A key as the popups read it.
#[derive(Clone, Copy, Debug, PartialEq, Eq, Structural)]
pub enum Key {
    Char(char),
    Enter,
    Esc,
    Other,
}

/// What the alert asks to do once confirmed.
#[derive(Clone, Copy, Debug)]
pub enum AlertAction {
    /// Turn on the flag at `field_index` of the task's flag list.
    EnableFlag { field_index: usize, label: &'static str },
}

/// The alert shown before a flag that removes files is turned on.
pub struct Alert {
    action: AlertAction,
}

/// How the alert answers a key.
#[derive(Clone, Copy, Debug)]
pub enum AlertReply {
    /// Turn the flag on, then close.
    Enable { field_index: usize, label: &'static str },
    /// Close without changing anything.
    Close,
    /// Keep the alert open.
    Ignore,
}

/// Whether a key confirms a popup (`y` or Enter).
pub open spec fn is_yes(k: Key) -> bool {
    k == Key::Char('y') || k == Key::Enter
}

/// Whether a key dismisses a popup (`n`, `q` or Esc).
pub open spec fn is_no(k: Key) -> bool {
    k == Key::Char('n') || k == Key::Char('q') || k == Key::Esc
}

fn key_is_yes(k: Key) -> (r: bool)
    ensures
        r == is_yes(k),
{
    match k {
        Key::Char(c) => c == 'y',
        Key::Enter => true,
        _ => false,
    }
}

fn key_is_no(k: Key) -> (r: bool)
    ensures
        r == is_no(k),
{
    match k {
        Key::Char(c) => c == 'n' || c == 'q',
        Key::Esc => true,
        _ => false,
    }
}

impl Alert {
    /// The alert for enabling the flag at `field_index`, named `label`.
    pub fn enable_flag(field_index: usize, label: &'static str) -> (a: Alert)
        ensures
            a.action() == (AlertAction::EnableFlag { field_index, label }),
    {
        Alert { action: AlertAction::EnableFlag { field_index, label } }
    }

    /// What the alert will do once confirmed.
    pub closed spec fn action(&self) -> AlertAction {
        self.action
    }

    /// The alert's question: `Enable LABEL ?`.
    pub fn prompt(&self) -> (r: String)
        ensures
            match self.action() {
                AlertAction::EnableFlag { label, .. } => r@ == "Enable "@ + label@ + " ?"@,
            },
    {
        let AlertAction::EnableFlag { label, .. } = self.action;
        let mut v = chars_of("Enable ");
        extend_str(&mut v, label);
        extend_str(&mut v, " ?");
        string_of(v.as_slice())
    }

    /// The alert's answer to a key: `y` or Enter enables the flag and
    /// closes; `n`, `q` or Esc closes; anything else is ignored.
    pub fn on_key(&self, key: Key) -> (r: AlertReply)
        ensures
            is_yes(key) ==> match self.action() {
                AlertAction::EnableFlag { field_index, label } => r == (AlertReply::Enable {
                    field_index,
                    label,
                }),
            },
            is_no(key) ==> r == AlertReply::Close,
            !is_yes(key) && !is_no(key) ==> r == AlertReply::Ignore,
    {
        if key_is_yes(key) {
            let AlertAction::EnableFlag { field_index, label } = self.action;
            AlertReply::Enable { field_index, label }
        } else if key_is_no(key) {
            AlertReply::Close
        } else {
            AlertReply::Ignore
        }
    }
}

/// The confirmation shown before a batch of tasks runs.
pub struct ConfirmRun {
    batch: Vec<Task>,
}

/// How the run confirmation answers a key.
pub enum ConfirmReply {
    /// Start the batch (the popup gives its tasks away).
    Start(Vec<Task>),
    /// Close without running.
    Close,
    /// Keep the popup open.
    Ignore,
}

/// One row of the confirmation: a task id, flagged when it deletes.
pub struct ConfirmRow {
    pub id: String,
    pub delete: bool,
}

/// What the confirmation shows for a given height.
pub struct ConfirmLayout {
    /// The title: ` Run N task ` or ` Run N tasks `.
    pub title: String,
    /// The task rows that fit, in order.
    pub rows: Vec<ConfirmRow>,
    /// How many more tasks did not fit, when some did not.
    pub more: Option<usize>,
    /// The `--delete` warning, when some task deletes.
    pub warning: Option<String>,
    /// The label of the confirming key: `Run` or `Run all`.
    pub run_label: String,
    /// The height of the box: its lines and two borders.
    pub box_height: u16,
}

/// How many tasks of `ts` have `--delete` on.
pub open spec fn count_deletes(ts: Seq<Task>) -> nat
    decreases ts.len(),
{
    if ts.len() == 0 {
        0
    } else {
        count_deletes(ts.drop_last()) + if ts.last().flags.delete {
            1nat
        } else {
            0nat
        }
    }
}

/// How many task rows fit in a popup of `height`: the height less 8, but at
/// least 3 and at most the larger of the task count and 3.
pub open spec fn spec_max_rows(height: u16, n: nat) -> nat {
    let avail: int = if height >= 8 {
        height - 8
    } else {
        0
    };
    let hi: int = if n > 3 {
        n as int
    } else {
        3
    };
    if avail < 3 {
        3
    } else if avail > hi {
        hi as nat
    } else {
        avail as nat
    }
}

/// The `--delete` warning for `n` tasks of which `dels` delete.
pub open spec fn spec_warning(n: nat, dels: nat) -> Seq<char> {
    if n == 1 {
        "⚠ this uses --delete — destination files will be removed."@
    } else {
        "⚠ "@ + dec(dels) + " of these use --delete — destination files will be removed."@
    }
}

proof fn lemma_count_deletes_le(ts: Seq<Task>)
    ensures
        count_deletes(ts) <= ts.len(),
    decreases ts.len(),
{
    if ts.len() > 0 {
        lemma_count_deletes_le(ts.drop_last());
    }
}

impl ConfirmRun {
    /// A confirmation for running `batch`, in order.
    pub fn new(batch: Vec<Task>) -> (c: ConfirmRun)
        ensures
            c.batch() == batch@,
    {
        ConfirmRun { batch }
    }

    /// The tasks the confirmation would start.
    pub closed spec fn batch(&self) -> Seq<Task> {
        self.batch@
    }

    /// The confirmation's answer to a key: `y` or Enter starts the batch
    /// (and the popup keeps no tasks); `n`, `q` or Esc closes; anything else
    /// is ignored.
    pub fn on_key(&mut self, key: Key) -> (r: ConfirmReply)
        ensures
            is_yes(key) ==> (r matches ConfirmReply::Start(b) && b@ == old(self).batch()
                && final(self).batch().len() == 0),
            is_no(key) ==> (r matches ConfirmReply::Close && final(self).batch() == old(self).batch()),
            !is_yes(key) && !is_no(key) ==> (r matches ConfirmReply::Ignore && final(self).batch() == old(self).batch()),
    {
        if key_is_yes(key) {
            let mut taken: Vec<Task> = Vec::new();
            std::mem::swap(&mut taken, &mut self.batch);
            ConfirmReply::Start(taken)
        } else if key_is_no(key) {
            ConfirmReply::Close
        } else {
            ConfirmReply::Ignore
        }
    }

    /// What the confirmation shows in a popup of `height` rows: one row per
    /// task that fits (ids, with `--delete` flagged), how many more there are,
    /// the `--delete` warning when any task deletes, the title and key label
    /// by the number of tasks, and the box height.
    pub fn layout(&self, height: u16) -> (r: ConfirmLayout)
        ensures
            ({
                let n = self.batch().len();
                let m = spec_max_rows(height, n);
                let shown = if n < m {
                    n
                } else {
                    m
                };
                let dels = count_deletes(self.batch());
                &&& r.rows@.len() == shown
                &&& forall|i: int|
                    0 <= i < shown ==> (#[trigger] r.rows@[i]).id@ == self.batch()[i].id@
                        && r.rows@[i].delete == self.batch()[i].flags.delete
                &&& r.more == if n > m {
                    Some((n - m) as usize)
                } else {
                    None
                }
                &&& match r.warning {
                    Some(w) => dels > 0 && w@ == spec_warning(n, dels),
                    None => dels == 0,
                }
                &&& r.title@ == " Run "@ + dec(n) + (if n == 1 {
                    " task "@
                } else {
                    " tasks "@
                })
                &&& r.run_label@ == if n == 1 {
                    "Run"@
                } else {
                    "Run all"@
                }
                &&& r.box_height == 1 + shown + (if n > m {
                    1int
                } else {
                    0
                }) + (if dels > 0 {
                    2int
                } else {
                    0
                }) + 2
            }),
    {
        let n = self.batch.len();
        let avail: usize = if height >= 8 {
            (height - 8) as usize
        } else {
            0
        };
        let hi: usize = if n > 3 {
            n
        } else {
            3
        };
        let m: usize = if avail < 3 {
            3
        } else if avail > hi {
            hi
        } else {
            avail
        };
        let mut rows: Vec<ConfirmRow> = Vec::new();
        let mut dels: usize = 0;
        let mut i: usize = 0;
        assert(self.batch@.take(0) =~= Seq::<Task>::empty());
        while i < n
            invariant
                n == self.batch@.len(),
                i <= n,
                dels == count_deletes(self.batch@.take(i as int)),
                dels <= i,
                rows@.len() == if i < m {
                    i
                } else {
                    m
                },
                forall|j: int|
                    0 <= j < rows@.len() ==> (#[trigger] rows@[j]).id@ == self.batch@[j].id@
                        && rows@[j].delete == self.batch@[j].flags.delete,
            decreases n - i,
        {
            let t = &self.batch[i];
            if i < m {
                rows.push(ConfirmRow { id: t.id.clone(), delete: t.flags.delete });
            }
            if t.flags.delete {
                dels = dels + 1;
            }
            assert(self.batch@.take(i + 1).drop_last() == self.batch@.take(i as int));
            assert(self.batch@.take(i + 1).last() == self.batch@[i as int]);
            i = i + 1;
        }
        assert(self.batch@.take(i as int) == self.batch@);
        let more = if n > m {
            Some(n - m)
        } else {
            None
        };
        let warning = if dels > 0 {
            if n == 1 {
                Some(String::from_str("⚠ this uses --delete — destination files will be removed."))
            } else {
                let mut v = chars_of("⚠ ");
                push_dec(&mut v, dels as u64);
                extend_str(&mut v, " of these use --delete — destination files will be removed.");
                Some(string_of(v.as_slice()))
            }
        } else {
            None
        };
        let mut t = chars_of(" Run ");
        push_dec(&mut t, n as u64);
        if n == 1 {
            extend_str(&mut t, " task ");
        } else {
            extend_str(&mut t, " tasks ");
        }
        let run_label = if n == 1 {
            String::from_str("Run")
        } else {
            String::from_str("Run all")
        };
        let lines: usize = 1 + rows.len() + (if n > m {
            1
        } else {
            0
        }) + (if dels > 0 {
            2
        } else {
            0
        });
        ConfirmLayout {
            title: string_of(t.as_slice()),
            rows,
            more,
            warning,
            run_label,
            box_height: (lines + 2) as u16,
        }
    }
}

} // verus!
