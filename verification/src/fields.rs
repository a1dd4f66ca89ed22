//! The status line and geometry of the path fields in the editor: what a
//! typed path looks like to the user (colour tone and hint), and how a field
//! scrolls to keep the cursor visible.

use vstd::prelude::*;
use crate::completion::{hits_in_order, path_hits, Entry};
use crate::env::Env;
use crate::paths::{expand_path, expand_tilde, spec_expand_path, spec_expand_tilde};
use crate::rsync::{is_remote_path, spec_is_remote};
use crate::text::{chars_of, dec, extend_str, push_dec, string_of, trim, trim_chars};

verus! {

/// The colour role a field's border and hint take.
#[derive(Clone, Copy, Debug, PartialEq, Eq, Structural)]
pub enum Tone {
    Accent,
    Added,
    Deleted,
}

/// How far a field scrolls so that the cursor (at `cursor`, shown one column
/// in) stays inside `inner_w` columns.
pub open spec fn spec_cursor_scroll(cursor: usize, inner_w: usize) -> u16 {
    if inner_w == 0 {
        0
    } else if cursor + 1 >= inner_w {
        ((cursor + 1 - inner_w + 1) as int) as u16
    } else {
        0
    }
}

fn cursor_scroll(cursor: usize, inner_w: usize) -> (r: u16)
    requires
        cursor < usize::MAX,
    ensures
        r == spec_cursor_scroll(cursor, inner_w),
{
    if inner_w == 0 {
        return 0;
    }
    let col = cursor + 1;
    if col >= inner_w {
        (col - inner_w + 1) as u16
    } else {
        0
    }
}

/// Where a field box scrolls its content and puts the cursor.
pub struct FieldBoxLayout {
    pub scroll_x: u16,
    pub cursor_at: Option<(u16, u16)>,
}

/// The horizontal scroll of a field box of width `width` showing content
/// `content_width` columns wide: follow the cursor when there is one, else
/// show the end of the content.
pub open spec fn spec_field_scroll(width: u16, content_width: usize, cursor: Option<usize>) -> u16 {
    let inner_w: usize = if width >= 2 {
        (width - 2) as usize
    } else {
        0
    };
    match cursor {
        Some(c) => spec_cursor_scroll(c, inner_w),
        None => (if content_width >= inner_w {
            content_width - inner_w
        } else {
            0
        }) as u16,
    }
}

/// How far right of the border the cursor at `c` shows in a field box that
/// has scrolled by `scroll` columns.
pub open spec fn spec_cursor_shift(c: usize, scroll: u16) -> u16 {
    if ((c + 1) as int) as u16 >= scroll {
        (((c + 1) as int) as u16 - scroll) as u16
    } else {
        0
    }
}

/// The scroll and cursor position of a field box at `(x, y)` of width
/// `width`.  The cursor sits one column in from the border, moved left by
/// the scroll.
pub fn field_box_layout(x: u16, y: u16, width: u16, content_width: usize, cursor: Option<usize>) -> (r:
    FieldBoxLayout)
    requires
        cursor matches Some(c) ==> c < usize::MAX && y < u16::MAX && x + 1 + spec_cursor_shift(
            c,
            spec_field_scroll(width, content_width, cursor),
        ) <= u16::MAX,
    ensures
        r.scroll_x == spec_field_scroll(width, content_width, cursor),
        match cursor {
            Some(c) => r.cursor_at == Some(
                ((x + 1 + spec_cursor_shift(c, r.scroll_x)) as u16, (y + 1) as u16),
            ),
            None => r.cursor_at is None,
        },
{
    let inner_w: usize = if width >= 2 {
        (width - 2) as usize
    } else {
        0
    };
    let scroll_x: u16 = match cursor {
        Some(c) => cursor_scroll(c, inner_w),
        None => (if content_width >= inner_w {
            content_width - inner_w
        } else {
            0
        }) as u16,
    };
    let cursor_at = match cursor {
        Some(c) => {
            let col: u16 = (c + 1) as u16;
            let shift: u16 = if col >= scroll_x {
                col - scroll_x
            } else {
                0
            };
            Some((x + 1 + shift, y + 1))
        },
        None => None,
    };
    FieldBoxLayout { scroll_x, cursor_at }
}

fn is_remote_buf(b: &str) -> (r: bool)
    ensures
        r == spec_is_remote(b@),
{
    is_remote_path(b)
}

/// `N match` or `N matches`.
pub open spec fn spec_plural_matches(n: nat) -> Seq<char> {
    dec(n) + if n == 1 {
        " match"@
    } else {
        " matches"@
    }
}

fn plural_matches(n: usize) -> (r: String)
    ensures
        r@ == spec_plural_matches(n as nat),
{
    let mut v: Vec<char> = Vec::new();
    push_dec(&mut v, n as u64);
    if n == 1 {
        extend_str(&mut v, " match");
    } else {
        extend_str(&mut v, " matches");
    }
    string_of(v.as_slice())
}

/// The path on disk that a path field's status looks at: the trimmed text
/// expanded, or `None` when the field is empty or names a remote side.
pub open spec fn spec_status_path(env: Env, buffer: Seq<char>) -> Option<Seq<char>> {
    let b = trim(buffer);
    if b.len() == 0 || spec_is_remote(spec_expand_path(env, b)) {
        None
    } else {
        Some(spec_expand_path(env, b))
    }
}

/// The local path whose disk state the field status needs, or `None` when
/// the field is empty or remote (placeholders are resolved first, so a
/// `{now:%H:%M}` colon does not make a path remote).
pub fn field_status_path(buffer: &str, env: &Env) -> (r: Option<String>)
    ensures
        match r {
            Some(p) => spec_status_path(*env, buffer@) == Some(p@),
            None => spec_status_path(*env, buffer@) is None,
        },
{
    let c = chars_of(buffer);
    let t = trim_chars(c.as_slice());
    if t.len() == 0 {
        return None;
    }
    let ts = string_of(t.as_slice());
    let p = expand_path(ts.as_str(), env);
    if is_remote_buf(p.as_str()) {
        None
    } else {
        Some(p)
    }
}

/// What the disk says of a path field's local path.
pub struct DiskFacts {
    /// The path is a directory.
    pub is_dir: bool,
    /// The path's parent is missing, empty or a directory.
    pub parent_exists: bool,
}

/// The tone and hint of a path field: a hint only while focused.  An existing
/// directory counts its completions; a path with completions counts them; a
/// missing destination is a new directory (or a new path when its parent is
/// missing too); a missing source is not found.
pub open spec fn spec_field_status(
    env: Env,
    buffer: Seq<char>,
    focused: bool,
    is_dest: bool,
    hits: nat,
    facts: (bool, bool),
) -> (Tone, Option<Seq<char>>) {
    match spec_status_path(env, buffer) {
        None => (Tone::Accent, None),
        Some(_) => if facts.0 {
            (Tone::Added, if focused {
                Some(spec_plural_matches(hits))
            } else {
                None
            })
        } else if hits > 0 {
            (Tone::Accent, if focused {
                Some(spec_plural_matches(hits))
            } else {
                None
            })
        } else if is_dest {
            (Tone::Added, if focused {
                Some(
                    if facts.1 {
                        "new dir"@
                    } else {
                        "new path"@
                    },
                )
            } else {
                None
            })
        } else {
            (Tone::Deleted, if focused {
                Some("not found"@)
            } else {
                None
            })
        },
    }
}

/// The tone and hint of a path field.  `listing` is the content of the
/// directory that `completion::hits_dir` names for the typed text, and
/// `facts` what the disk says of `field_status_path`.
pub fn field_status(
    buffer: &str,
    focused: bool,
    is_dest: bool,
    env: &Env,
    listing: &[Entry],
    facts: &DiskFacts,
) -> (r: (Tone, Option<String>))
    ensures
        ({
            let hits = if spec_is_remote(buffer@) {
                0
            } else {
                hits_in_order(buffer@, listing@).len()
            };
            &&& r.0 == spec_field_status(
                *env,
                buffer@,
                focused,
                is_dest,
                hits,
                (facts.is_dir, facts.parent_exists),
            ).0
            &&& match r.1 {
                Some(h) => spec_field_status(
                    *env,
                    buffer@,
                    focused,
                    is_dest,
                    hits,
                    (facts.is_dir, facts.parent_exists),
                ).1 == Some(h@),
                None => spec_field_status(
                    *env,
                    buffer@,
                    focused,
                    is_dest,
                    hits,
                    (facts.is_dir, facts.parent_exists),
                ).1 is None,
            }
        }),
{
    if field_status_path(buffer, env).is_none() {
        return (Tone::Accent, None);
    }
    let hits = path_hits(buffer, listing);
    proof {
        vstd::seq_lib::to_multiset_len(hits.deep_view());
        if !spec_is_remote(buffer@) {
            vstd::seq_lib::to_multiset_len(hits_in_order(buffer@, listing@));
        }
    }
    let n = hits.len();
    if facts.is_dir {
        return (Tone::Added, if focused {
            Some(plural_matches(n))
        } else {
            None
        });
    }
    if n > 0 {
        return (Tone::Accent, if focused {
            Some(plural_matches(n))
        } else {
            None
        });
    }
    if is_dest {
        (Tone::Added, if focused {
            Some(
                if facts.parent_exists {
                    String::from_str("new dir")
                } else {
                    String::from_str("new path")
                },
            )
        } else {
            None
        })
    } else {
        (Tone::Deleted, if focused {
            Some(String::from_str("not found"))
        } else {
            None
        })
    }
}

/// The file that a file field's status looks at: the trimmed text with `~`
/// expanded, or `None` when the field is empty.
pub fn file_status_path(buffer: &str, env: &Env) -> (r: Option<String>)
    ensures
        match r {
            Some(p) => trim(buffer@).len() > 0 && p@ == spec_expand_tilde(env.vars@, trim(buffer@)),
            None => trim(buffer@).len() == 0,
        },
{
    let c = chars_of(buffer);
    let t = trim_chars(c.as_slice());
    if t.len() == 0 {
        return None;
    }
    let ts = string_of(t.as_slice());
    Some(expand_tilde(ts.as_str(), env))
}

/// The tone and hint of a file field (filter list files): empty asks for a
/// path, an existing file is found, anything else is not found.  `is_file`
/// is what the disk says of `file_status_path`.
pub fn file_status(buffer: &str, focused: bool, is_file: bool) -> (r: (Tone, Option<String>))
    ensures
        trim(buffer@).len() == 0 ==> r.0 == Tone::Accent && (match r.1 {
            Some(h) => focused && h@ == "path to file"@,
            None => !focused,
        }),
        trim(buffer@).len() > 0 && is_file ==> r.0 == Tone::Added && (match r.1 {
            Some(h) => focused && h@ == "found"@,
            None => !focused,
        }),
        trim(buffer@).len() > 0 && !is_file ==> r.0 == Tone::Deleted && (match r.1 {
            Some(h) => focused && h@ == "not found"@,
            None => !focused,
        }),
{
    let c = chars_of(buffer);
    let t = trim_chars(c.as_slice());
    if t.len() == 0 {
        return (Tone::Accent, if focused {
            Some(String::from_str("path to file"))
        } else {
            None
        });
    }
    if is_file {
        (Tone::Added, if focused {
            Some(String::from_str("found"))
        } else {
            None
        })
    } else {
        (Tone::Deleted, if focused {
            Some(String::from_str("not found"))
        } else {
            None
        })
    }
}

} // verus!
