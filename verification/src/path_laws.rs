//! What path expansion promises of every input: plain text passes through,
//! doubled escapes come back as typed, unknown names stay literal and values
//! are inserted as they are.

use vstd::prelude::*;
use crate::env::{chrono_offset_text, chrono_utc_text, lookup, strftime_rejects, Env};
use crate::paths::{
    env_from, lemma_name_end, name_end, ph_from, spec_braced, spec_expand_env, spec_expand_path,
    spec_expand_placeholders, spec_expand_tilde, spec_placeholder, split_body,
};
use crate::text::{find_from, is_name_char, is_prefix, lemma_find_from};

verus! {

proof fn lemma_find_shift(s: Seq<char>, c: char, j: int, m: int)
    requires
        0 <= j <= m,
        j <= s.len(),
    ensures
        find_from(s.skip(j), c, m - j) == match find_from(s, c, m) {
            Some(k) => Some(k - j),
            None => None::<int>,
        },
    decreases s.len() - m,
{
    assert(s.skip(j).len() == s.len() - j);
    if m < s.len() {
        assert(s.skip(j)[m - j] == s[m]);
        if s[m] != c {
            lemma_find_shift(s, c, j, m + 1);
        }
    }
}

proof fn lemma_ph_shift(env: Env, s: Seq<char>, j: int, i: int)
    requires
        0 <= j <= i,
        j <= s.len(),
    ensures
        ph_from(env, s, i) == ph_from(env, s.skip(j), i - j),
    decreases s.len() - i,
{
    let t = s.skip(j);
    assert(t.len() == s.len() - j);
    if i < s.len() {
        assert(t[i - j] == s[i]);
        if i + 1 < s.len() {
            assert(t[i + 1 - j] == s[i + 1]);
        }
        if i + 1 < s.len() && s[i] == '{' && s[i + 1] == '{' {
            lemma_ph_shift(env, s, j, i + 2);
        } else if i + 1 < s.len() && s[i] == '}' && s[i + 1] == '}' {
            lemma_ph_shift(env, s, j, i + 2);
        } else if s[i] == '{' {
            lemma_find_shift(s, '}', j, i + 1);
            lemma_find_from(s, '}', i + 1);
            match find_from(s, '}', i + 1) {
                Some(k) => {
                    assert(t.subrange(i + 1 - j, k - j) == s.subrange(i + 1, k));
                    lemma_ph_shift(env, s, j, k + 1);
                },
                None => {
                    assert(t.skip(i - j) == s.skip(i));
                },
            }
        } else {
            lemma_ph_shift(env, s, j, i + 1);
        }
    }
}

proof fn lemma_name_end_shift(s: Seq<char>, j: int, m: int)
    requires
        0 <= j <= m,
        j <= s.len(),
    ensures
        name_end(s.skip(j), m - j) == name_end(s, m) - j,
    decreases s.len() - m,
{
    assert(s.skip(j).len() == s.len() - j);
    if m < s.len() {
        assert(s.skip(j)[m - j] == s[m]);
        if is_name_char(s[m]) {
            lemma_name_end_shift(s, j, m + 1);
        }
    }
}

proof fn lemma_env_shift(vars: Seq<(String, String)>, s: Seq<char>, j: int, i: int)
    requires
        0 <= j <= i,
        j <= s.len(),
    ensures
        env_from(vars, s, i) == env_from(vars, s.skip(j), i - j),
    decreases s.len() - i,
{
    let t = s.skip(j);
    assert(t.len() == s.len() - j);
    if i < s.len() {
        assert(t[i - j] == s[i]);
        if i + 1 < s.len() {
            assert(t[i + 1 - j] == s[i + 1]);
        }
        if s[i] != '$' {
            lemma_env_shift(vars, s, j, i + 1);
        } else if i + 1 < s.len() && s[i + 1] == '$' {
            lemma_env_shift(vars, s, j, i + 2);
        } else if i + 1 < s.len() && s[i + 1] == '{' {
            lemma_find_shift(s, '}', j, i + 2);
            lemma_find_from(s, '}', i + 2);
            match find_from(s, '}', i + 2) {
                Some(k) => {
                    assert(t.subrange(i + 2 - j, k - j) == s.subrange(i + 2, k));
                    lemma_env_shift(vars, s, j, k + 1);
                },
                None => {
                    assert(t.skip(i - j) == s.skip(i));
                },
            }
        } else {
            lemma_name_end_shift(s, j, i + 1);
            lemma_name_end(s, i + 1);
            let e = name_end(s, i + 1);
            if e == i + 1 {
                lemma_env_shift(vars, s, j, i + 1);
            } else {
                assert(t.subrange(i + 1 - j, e - j) == s.subrange(i + 1, e));
                lemma_env_shift(vars, s, j, e);
            }
        }
    }
}

/// `s` with every brace doubled: how a literal brace is written in a path.
pub open spec fn escape_braces(s: Seq<char>) -> Seq<char>
    decreases s.len(),
{
    if s.len() == 0 {
        seq![]
    } else if s[0] == '{' || s[0] == '}' {
        seq![s[0], s[0]] + escape_braces(s.drop_first())
    } else {
        seq![s[0]] + escape_braces(s.drop_first())
    }
}

/// `s` with every `$` doubled: how a literal `$` is written in a path.
pub open spec fn escape_dollars(s: Seq<char>) -> Seq<char>
    decreases s.len(),
{
    if s.len() == 0 {
        seq![]
    } else if s[0] == '$' {
        seq!['$', '$'] + escape_dollars(s.drop_first())
    } else {
        seq![s[0]] + escape_dollars(s.drop_first())
    }
}

/// A path without braces is left exactly as typed by placeholder expansion
/// (a literal `%` included).
pub proof fn law_placeholders_leave_brace_free_text(env: Env, s: Seq<char>)
    requires
        !s.contains('{'),
        !s.contains('}'),
    ensures
        spec_expand_placeholders(env, s) == s,
{
    lemma_plain_ph(env, s, 0);
    assert(s.skip(0) == s);
}

proof fn lemma_plain_ph(env: Env, s: Seq<char>, i: int)
    requires
        0 <= i <= s.len(),
        !s.contains('{'),
        !s.contains('}'),
    ensures
        ph_from(env, s, i) == s.skip(i),
    decreases s.len() - i,
{
    if i < s.len() {
        assert(s[i] != '{' && s[i] != '}') by {
            if s[i] == '{' || s[i] == '}' {
                assert(s.contains(s[i]));
            }
        }
        lemma_plain_ph(env, s, i + 1);
        assert(s.skip(i) =~= seq![s[i]] + s.skip(i + 1));
    } else {
        assert(s.skip(i) =~= Seq::<char>::empty());
    }
}

proof fn lemma_plain_env(vars: Seq<(String, String)>, s: Seq<char>, i: int)
    requires
        0 <= i <= s.len(),
        !s.contains('$'),
    ensures
        env_from(vars, s, i) == s.skip(i),
    decreases s.len() - i,
{
    if i < s.len() {
        assert(s[i] != '$') by {
            if s[i] == '$' {
                assert(s.contains(s[i]));
            }
        }
        lemma_plain_env(vars, s, i + 1);
        assert(s.skip(i) =~= seq![s[i]] + s.skip(i + 1));
    } else {
        assert(s.skip(i) =~= Seq::<char>::empty());
    }
}

/// A path without `$` is left exactly as typed by variable expansion.
pub proof fn law_env_leaves_dollar_free_text(vars: Seq<(String, String)>, s: Seq<char>)
    requires
        !s.contains('$'),
    ensures
        spec_expand_env(vars, s) == s,
{
    lemma_plain_env(vars, s, 0);
    assert(s.skip(0) == s);
}

/// A path with no brace, no `$` and no leading `~` is used exactly as typed.
pub proof fn law_plain_path_is_used_as_typed(env: Env, s: Seq<char>)
    requires
        !s.contains('{'),
        !s.contains('}'),
        !s.contains('$'),
        s.len() == 0 || s[0] != '~',
    ensures
        spec_expand_path(env, s) == s,
{
    law_placeholders_leave_brace_free_text(env, s);
    reveal_strlit("~");
    reveal_strlit("~/");
    if s.len() > 0 {
        assert(s != "~"@);
        if is_prefix("~/"@, s) {
            assert(s.take(2)[0] == s[0]);
        }
    }
    assert(spec_expand_tilde(env.vars@, s) == s);
    law_env_leaves_dollar_free_text(env.vars@, s);
}

/// Doubling braces escapes them: expanding the escaped text gives back the
/// text as written, whatever braces, names or formats it holds.
pub proof fn law_doubled_braces_come_back_literal(env: Env, s: Seq<char>)
    ensures
        spec_expand_placeholders(env, escape_braces(s)) == s,
    decreases s.len(),
{
    let t = escape_braces(s);
    if s.len() > 0 {
        let rest = escape_braces(s.drop_first());
        law_doubled_braces_come_back_literal(env, s.drop_first());
        if s[0] == '{' || s[0] == '}' {
            assert(t == seq![s[0], s[0]] + rest);
            assert(t.skip(2) == rest);
            lemma_ph_shift(env, t, 2, 2);
            assert(ph_from(env, t, 0) == seq![s[0]] + ph_from(env, t, 2));
        } else {
            assert(t == seq![s[0]] + rest);
            assert(t.skip(1) == rest);
            lemma_ph_shift(env, t, 1, 1);
            assert(ph_from(env, t, 0) == seq![s[0]] + ph_from(env, t, 1));
        }
        assert(s =~= seq![s[0]] + s.drop_first());
    }
}

/// Doubling `$` escapes it: expanding the escaped text gives back the text as
/// written, whatever variable names it holds.
pub proof fn law_doubled_dollars_come_back_literal(vars: Seq<(String, String)>, s: Seq<char>)
    ensures
        spec_expand_env(vars, escape_dollars(s)) == s,
    decreases s.len(),
{
    let t = escape_dollars(s);
    if s.len() > 0 {
        let rest = escape_dollars(s.drop_first());
        law_doubled_dollars_come_back_literal(vars, s.drop_first());
        if s[0] == '$' {
            assert(t == seq!['$', '$'] + rest);
            assert(t.skip(2) == rest);
            lemma_env_shift(vars, t, 2, 2);
            assert(env_from(vars, t, 0) == seq!['$'] + env_from(vars, t, 2));
        } else {
            assert(t == seq![s[0]] + rest);
            assert(t.skip(1) == rest);
            lemma_env_shift(vars, t, 1, 1);
            assert(env_from(vars, t, 0) == seq![s[0]] + env_from(vars, t, 1));
        }
        assert(s =~= seq![s[0]] + s.drop_first());
    }
}

/// A closed `{body}` whose placeholder is unknown or unresolvable is left
/// exactly as typed, and expansion goes on after it.
pub proof fn law_unknown_placeholder_stays_literal(env: Env, body: Seq<char>, rest: Seq<char>)
    requires
        !body.contains('}'),
        body.len() == 0 || body[0] != '{',
        spec_placeholder(env, split_body(body).0, split_body(body).1) is None,
    ensures
        spec_expand_placeholders(env, seq!['{'] + body + seq!['}'] + rest) == seq!['{'] + body
            + seq!['}'] + spec_expand_placeholders(env, rest),
{
    let s = seq!['{'] + body + seq!['}'] + rest;
    let n = body.len() as int;
    assert(s[0] == '{');
    assert(s[n + 1] == '}');
    assert forall|m: int| 1 <= m < n + 1 implies s[m] != '}' by {
        assert(s[m] == body[m - 1]);
        if s[m] == '}' {
            assert(body.contains(body[m - 1]));
        }
    }
    lemma_find_upto(s, '}', 1, n + 1);
    assert(s.subrange(1, n + 1) == body);
    assert(spec_braced(env, body) == seq!['{'] + body + seq!['}']);
    if n > 0 {
        assert(s[1] == body[0]);
    }
    lemma_ph_shift(env, s, n + 2, n + 2);
    assert(s.skip(n + 2) == rest);
}

proof fn lemma_find_upto(s: Seq<char>, c: char, m: int, k: int)
    requires
        0 <= m <= k < s.len(),
        s[k] == c,
        forall|x: int| m <= x < k ==> s[x] != c,
    ensures
        find_from(s, c, m) == Some(k),
    decreases k - m,
{
    if m < k {
        lemma_find_upto(s, c, m + 1, k);
    }
}

/// An unset `${NAME}` is left exactly as typed, and expansion goes on after it.
pub proof fn law_unset_braced_variable_stays_literal(
    vars: Seq<(String, String)>,
    name: Seq<char>,
    rest: Seq<char>,
)
    requires
        !name.contains('}'),
        lookup(vars, name) is None,
    ensures
        spec_expand_env(vars, seq!['$', '{'] + name + seq!['}'] + rest) == seq!['$', '{'] + name
            + seq!['}'] + spec_expand_env(vars, rest),
{
    let s = seq!['$', '{'] + name + seq!['}'] + rest;
    let n = name.len() as int;
    assert(s[0] == '$' && s[1] == '{');
    assert(s[n + 2] == '}');
    assert forall|m: int| 2 <= m < n + 2 implies s[m] != '}' by {
        assert(s[m] == name[m - 2]);
        if s[m] == '}' {
            assert(name.contains(name[m - 2]));
        }
    }
    lemma_find_upto(s, '}', 2, n + 2);
    assert(s.subrange(2, n + 2) == name);
    lemma_env_shift(vars, s, n + 3, n + 3);
    assert(s.skip(n + 3) == rest);
}

/// A set `${NAME}` becomes its value exactly: the value is never rescanned
/// for `$`, placeholders or anything else.
pub proof fn law_braced_variable_value_is_verbatim(
    vars: Seq<(String, String)>,
    name: Seq<char>,
    value: Seq<char>,
    rest: Seq<char>,
)
    requires
        !name.contains('}'),
        lookup(vars, name) == Some(value),
    ensures
        spec_expand_env(vars, seq!['$', '{'] + name + seq!['}'] + rest) == value
            + spec_expand_env(vars, rest),
{
    let s = seq!['$', '{'] + name + seq!['}'] + rest;
    let n = name.len() as int;
    assert(s[0] == '$' && s[1] == '{');
    assert(s[n + 2] == '}');
    assert forall|m: int| 2 <= m < n + 2 implies s[m] != '}' by {
        assert(s[m] == name[m - 2]);
        if s[m] == '}' {
            assert(name.contains(name[m - 2]));
        }
    }
    lemma_find_upto(s, '}', 2, n + 2);
    assert(s.subrange(2, n + 2) == name);
    lemma_env_shift(vars, s, n + 3, n + 3);
    assert(s.skip(n + 3) == rest);
}

/// A bare `$NAME` (ended by a character that cannot be part of a name)
/// becomes the variable's value exactly when it is set, and stays as typed
/// when it is not.
pub proof fn law_bare_variable(vars: Seq<(String, String)>, name: Seq<char>, rest: Seq<char>)
    requires
        name.len() > 0,
        forall|m: int| 0 <= m < name.len() ==> is_name_char(#[trigger] name[m]),
        rest.len() == 0 || !is_name_char(rest[0]),
    ensures
        spec_expand_env(vars, seq!['$'] + name + rest) == match lookup(vars, name) {
            Some(v) => v,
            None => seq!['$'] + name,
        } + spec_expand_env(vars, rest),
{
    let s = seq!['$'] + name + rest;
    let n = name.len() as int;
    assert(s[0] == '$');
    assert(s[1] == name[0]);
    assert(is_name_char(name[0]));
    lemma_name_end_upto(s, 1, n + 1);
    assert(s.subrange(1, n + 1) == name);
    lemma_env_shift(vars, s, n + 1, n + 1);
    assert(s.skip(n + 1) == rest);
}

proof fn lemma_name_end_upto(s: Seq<char>, m: int, e: int)
    requires
        0 <= m <= e <= s.len(),
        forall|x: int| m <= x < e ==> is_name_char(#[trigger] s[x]),
        e == s.len() || !is_name_char(s[e]),
    ensures
        name_end(s, m) == e,
    decreases e - m,
{
    if m < e {
        lemma_name_end_upto(s, m + 1, e);
    }
}

proof fn lemma_find_none(s: Seq<char>, c: char, m: int)
    requires
        0 <= m,
        !s.contains(c),
    ensures
        find_from(s, c, m) is None,
    decreases s.len() - m,
{
    if m < s.len() {
        assert(s[m] != c) by {
            if s[m] == c {
                assert(s.contains(s[m]));
            }
        }
        lemma_find_none(s, c, m + 1);
    }
}

/// A `{` that no `}` closes leaves the rest of the path exactly as typed.
pub proof fn law_unclosed_placeholder_stays_literal(env: Env, s: Seq<char>)
    requires
        s.len() > 0,
        s[0] == '{',
        s.len() == 1 || s[1] != '{',
        !s.contains('}'),
    ensures
        spec_expand_placeholders(env, s) == s,
{
    lemma_find_none(s, '}', 1);
    assert(s.skip(0) == s);
}

/// A `${` that no `}` closes leaves the rest of the path exactly as typed.
pub proof fn law_unclosed_variable_stays_literal(vars: Seq<(String, String)>, s: Seq<char>)
    requires
        s.len() >= 2,
        s[0] == '$',
        s[1] == '{',
        !s.contains('}'),
    ensures
        spec_expand_env(vars, s) == s,
{
    lemma_find_none(s, '}', 2);
    assert(s.skip(0) == s);
}


/// A closed `{body}` (its body neither holds `}` nor starts with `{`) becomes
/// what the placeholder stands for, or stays as typed, and expansion goes on
/// after it.
proof fn lemma_closed_placeholder(env: Env, body: Seq<char>, rest: Seq<char>)
    requires
        !body.contains('}'),
        body.len() == 0 || body[0] != '{',
    ensures
        spec_expand_placeholders(env, seq!['{'] + body + seq!['}'] + rest) == spec_braced(env, body)
            + spec_expand_placeholders(env, rest),
{
    let s = seq!['{'] + body + seq!['}'] + rest;
    let n = body.len() as int;
    assert(s[0] == '{');
    assert(s[n + 1] == '}');
    assert forall|m: int| 1 <= m < n + 1 implies s[m] != '}' by {
        assert(s[m] == body[m - 1]);
        if s[m] == '}' {
            assert(body.contains(body[m - 1]));
        }
    }
    lemma_find_upto(s, '}', 1, n + 1);
    assert(s.subrange(1, n + 1) == body);
    if n > 0 {
        assert(s[1] == body[0]);
    }
    lemma_ph_shift(env, s, n + 2, n + 2);
    assert(s.skip(n + 2) == rest);
}

/// What chrono gives for `fmt` at the clock reading, at the local offset
/// (`utc == false`) or in UTC; nothing when chrono rejects the format.
pub open spec fn chrono_text(env: Env, fmt: Seq<char>, utc: bool) -> Option<Seq<char>> {
    if strftime_rejects(fmt) {
        None
    } else if utc {
        chrono_utc_text(env.clock.secs, env.clock.nanos, fmt)
    } else {
        chrono_offset_text(env.clock.secs, env.clock.nanos, env.clock.offset, fmt)
    }
}

/// `{body}` replaced by chrono's text, or left as typed without one.
pub open spec fn or_literal(v: Option<Seq<char>>, body: Seq<char>) -> Seq<char> {
    match v {
        Some(t) => t,
        None => seq!['{'] + body + seq!['}'],
    }
}

/// `{now}` and `{now:FMT}` are the clock read at the local offset, whatever
/// the format: a bare `{now}` is the local date (`%Y-%m-%d`), never the UTC
/// one.  Only `{utcnow}` and `{utcnow:FMT}` are formatted in UTC.  A format
/// that chrono rejects leaves the placeholder as typed.
pub proof fn law_now_is_local_time_and_utcnow_is_utc(env: Env, fmt: Seq<char>, rest: Seq<char>)
    requires
        !fmt.contains('}'),
    ensures
        spec_expand_placeholders(env, "{now}"@ + rest) == or_literal(
            chrono_text(env, "%Y-%m-%d"@, false),
            "now"@,
        ) + spec_expand_placeholders(env, rest),
        spec_expand_placeholders(env, "{now:"@ + fmt + "}"@ + rest) == or_literal(
            chrono_text(env, fmt, false),
            "now:"@ + fmt,
        ) + spec_expand_placeholders(env, rest),
        spec_expand_placeholders(env, "{utcnow}"@ + rest) == or_literal(
            chrono_text(env, "%Y-%m-%d"@, true),
            "utcnow"@,
        ) + spec_expand_placeholders(env, rest),
        spec_expand_placeholders(env, "{utcnow:"@ + fmt + "}"@ + rest) == or_literal(
            chrono_text(env, fmt, true),
            "utcnow:"@ + fmt,
        ) + spec_expand_placeholders(env, rest),
{
    reveal_strlit("{now}");
    reveal_strlit("{now:");
    reveal_strlit("{utcnow}");
    reveal_strlit("{utcnow:");
    reveal_strlit("}");
    reveal_strlit("now");
    reveal_strlit("utcnow");
    reveal_strlit("now:");
    reveal_strlit("utcnow:");
    reveal_strlit("hostname");
    reveal_strlit("user");
    reveal_strlit("%Y-%m-%d");
    lemma_now_body(env, None, rest, false);
    lemma_now_body(env, Some(fmt), rest, false);
    lemma_now_body(env, None, rest, true);
    lemma_now_body(env, Some(fmt), rest, true);
    assert("{now}"@ =~= seq!['{'] + "now"@ + seq!['}']);
    assert("{utcnow}"@ =~= seq!['{'] + "utcnow"@ + seq!['}']);
    assert("{now:"@ + fmt + "}"@ =~= seq!['{'] + ("now"@ + seq![':'] + fmt) + seq!['}']);
    assert("{utcnow:"@ + fmt + "}"@ =~= seq!['{'] + ("utcnow"@ + seq![':'] + fmt) + seq!['}']);
    assert("now:"@ + fmt =~= "now"@ + seq![':'] + fmt);
    assert("utcnow:"@ + fmt =~= "utcnow"@ + seq![':'] + fmt);
    assert("{now}"@ + rest =~= seq!['{'] + "now"@ + seq!['}'] + rest);
    assert("{utcnow}"@ + rest =~= seq!['{'] + "utcnow"@ + seq!['}'] + rest);
    assert("{now:"@ + fmt + "}"@ + rest =~= seq!['{'] + ("now"@ + seq![':'] + fmt) + seq!['}']
        + rest);
    assert("{utcnow:"@ + fmt + "}"@ + rest =~= seq!['{'] + ("utcnow"@ + seq![':'] + fmt) + seq![
        '}',
    ] + rest);
}

/// The body of a `now` or `utcnow` placeholder with the optional format.
spec fn clock_body(utc: bool, arg: Option<Seq<char>>) -> Seq<char> {
    let name = if utc {
        "utcnow"@
    } else {
        "now"@
    };
    match arg {
        Some(f) => name + seq![':'] + f,
        None => name,
    }
}

proof fn lemma_now_body(env: Env, arg: Option<Seq<char>>, rest: Seq<char>, utc: bool)
    requires
        arg matches Some(f) ==> !f.contains('}'),
    ensures
        spec_expand_placeholders(env, seq!['{'] + clock_body(utc, arg) + seq!['}'] + rest)
            == or_literal(chrono_text(env, arg.unwrap_or("%Y-%m-%d"@), utc), clock_body(utc, arg))
            + spec_expand_placeholders(env, rest),
{
    reveal_strlit("now");
    reveal_strlit("utcnow");
    reveal_strlit("hostname");
    reveal_strlit("user");
    let name = if utc {
        "utcnow"@
    } else {
        "now"@
    };
    let body = clock_body(utc, arg);
    assert(!name.contains(':') && !name.contains('}')) by {
        if name.contains(':') || name.contains('}') {
            let i = choose|i: int| 0 <= i < name.len() && (name[i] == ':' || name[i] == '}');
            assert(name[i] != ':' && name[i] != '}');
        }
    }
    match arg {
        Some(f) => {
            assert(body[name.len() as int] == ':');
            assert forall|x: int| 0 <= x < name.len() implies body[x] != ':' by {
                assert(body[x] == name[x]);
                if name[x] == ':' {
                    assert(name.contains(':'));
                }
            }
            lemma_find_upto(body, ':', 0, name.len() as int);
            assert(body.take(name.len() as int) =~= name);
            assert(body.skip(name.len() + 1int) =~= f);
            assert(!body.contains('}')) by {
                if body.contains('}') {
                    let i = choose|i: int| 0 <= i < body.len() && body[i] == '}';
                    if i < name.len() {
                        assert(name[i] == '}');
                        assert(name.contains('}'));
                    } else if i > name.len() {
                        assert(f[i - name.len() - 1] == '}');
                        assert(f.contains('}'));
                    }
                }
            }
        },
        None => {
            lemma_find_none(body, ':', 0);
        },
    }
    assert(body[0] != '{');
    lemma_closed_placeholder(env, body, rest);
}

} // verus!
