//! Dynamic paths: `{now}`-style placeholders, `~`, and `$VAR` / `${VAR}`,
//! each expanded from the gathered [`Env`], and path completion.

use vstd::prelude::*;
use crate::env::{format_now, lookup, nonempty, spec_format_now, Clock, Env};
use crate::text::{
    chars_eq, chars_of, extend_chars, extend_str, find, find_char_from, find_from, is_name_char,
    is_prefix, lemma_find_from, name_char, starts_with, string_of,
};

verus! {

/// The name and argument of a placeholder body: `name:arg` splits at the
/// first `:`.
pub open spec fn split_body(body: Seq<char>) -> (Seq<char>, Option<Seq<char>>) {
    match find(body, ':') {
        Some(k) => (body.take(k), Some(body.skip(k + 1))),
        None => (body, None),
    }
}

/// What the placeholder `name` (with its optional argument) stands for, or
/// `None` when it is unknown or cannot be resolved.
pub open spec fn spec_placeholder(env: Env, name: Seq<char>, arg: Option<Seq<char>>) -> Option<
    Seq<char>,
> {
    if name == "now"@ {
        spec_format_now(env.clock, arg.unwrap_or("%Y-%m-%d"@), false)
    } else if name == "utcnow"@ {
        spec_format_now(env.clock, arg.unwrap_or("%Y-%m-%d"@), true)
    } else if name == "hostname"@ && arg is None {
        env.spec_hostname()
    } else if name == "user"@ && arg is None {
        env.spec_user()
    } else {
        None
    }
}

/// What a closed `{body}` becomes: its value, or itself when it has none.
pub open spec fn spec_braced(env: Env, body: Seq<char>) -> Seq<char> {
    match spec_placeholder(env, split_body(body).0, split_body(body).1) {
        Some(v) => v,
        None => seq!['{'] + body + seq!['}'],
    }
}

/// `s` from index `i` on, with placeholders expanded: `{{` and `}}` stand for
/// one brace, a closed `{body}` for its value (or itself when unknown), and an
/// unclosed `{` leaves the rest as typed.
pub open spec fn ph_from(env: Env, s: Seq<char>, i: int) -> Seq<char>
    decreases s.len() - i,
{
    if i < 0 || i >= s.len() {
        seq![]
    } else if i + 1 < s.len() && s[i] == '{' && s[i + 1] == '{' {
        seq!['{'] + ph_from(env, s, i + 2)
    } else if i + 1 < s.len() && s[i] == '}' && s[i + 1] == '}' {
        seq!['}'] + ph_from(env, s, i + 2)
    } else if s[i] == '{' {
        match find_from(s, '}', i + 1) {
            Some(k) => {
                proof {
                    lemma_find_from(s, '}', i + 1);
                }
                spec_braced(env, s.subrange(i + 1, k)) + ph_from(env, s, k + 1)
            },
            None => s.skip(i),
        }
    } else {
        seq![s[i]] + ph_from(env, s, i + 1)
    }
}

/// `s` with its placeholders expanded.
pub open spec fn spec_expand_placeholders(env: Env, s: Seq<char>) -> Seq<char> {
    ph_from(env, s, 0)
}

/// `s` from index `i` on, with environment variables expanded: `$$` stands
/// for `$`, `${NAME}` and `$NAME` for the variable's value (or themselves when
/// it is unset), an unclosed `${` leaves the rest as typed, and a `$` not
/// followed by a name stays.
pub open spec fn env_from(vars: Seq<(String, String)>, s: Seq<char>, i: int) -> Seq<char>
    decreases s.len() - i,
{
    if i < 0 || i >= s.len() {
        seq![]
    } else if s[i] != '$' {
        seq![s[i]] + env_from(vars, s, i + 1)
    } else if i + 1 < s.len() && s[i + 1] == '$' {
        seq!['$'] + env_from(vars, s, i + 2)
    } else if i + 1 < s.len() && s[i + 1] == '{' {
        match find_from(s, '}', i + 2) {
            Some(k) => {
                proof {
                    lemma_find_from(s, '}', i + 2);
                }
                let name = s.subrange(i + 2, k);
                (match lookup(vars, name) {
                    Some(v) => v,
                    None => seq!['$', '{'] + name + seq!['}'],
                }) + env_from(vars, s, k + 1)
            },
            None => s.skip(i),
        }
    } else {
        let e = name_end(s, i + 1);
        if e == i + 1 {
            seq!['$'] + env_from(vars, s, i + 1)
        } else {
            proof {
                lemma_name_end(s, i + 1);
            }
            let name = s.subrange(i + 1, e);
            (match lookup(vars, name) {
                Some(v) => v,
                None => seq!['$'] + name,
            }) + env_from(vars, s, e)
        }
    }
}

/// The end of the run of name characters that starts at `j`.
pub open spec fn name_end(s: Seq<char>, j: int) -> int
    decreases s.len() - j,
{
    if j < 0 || j >= s.len() || !is_name_char(s[j]) {
        j
    } else {
        name_end(s, j + 1)
    }
}

/// `name_end` stops at the first character that is not a name character.
pub proof fn lemma_name_end(s: Seq<char>, j: int)
    requires
        0 <= j,
    ensures
        j <= name_end(s, j) <= if j <= s.len() {
            s.len() as int
        } else {
            j
        },
        forall|m: int| j <= m < name_end(s, j) ==> is_name_char(#[trigger] s[m]),
        name_end(s, j) < s.len() ==> !is_name_char(s[name_end(s, j)]),
    decreases s.len() - j,
{
    if j < s.len() && is_name_char(s[j]) {
        lemma_name_end(s, j + 1);
    }
}

/// `s` with its environment variables expanded from `vars`.
pub open spec fn spec_expand_env(vars: Seq<(String, String)>, s: Seq<char>) -> Seq<char> {
    env_from(vars, s, 0)
}

/// `s` with a leading `~` (alone, or before `/`) replaced by `$HOME`, when
/// `$HOME` is set and not empty.
pub open spec fn spec_expand_tilde(vars: Seq<(String, String)>, s: Seq<char>) -> Seq<char> {
    match nonempty(vars, "HOME"@) {
        Some(home) => if s == "~"@ {
            home
        } else if is_prefix("~/"@, s) {
            home + seq!['/'] + s.skip(2)
        } else {
            s
        },
        None => s,
    }
}

/// A path as a task uses it: placeholders first, then `~`, then variables.
pub open spec fn spec_expand_path(env: Env, s: Seq<char>) -> Seq<char> {
    spec_expand_env(env.vars@, spec_expand_tilde(env.vars@, spec_expand_placeholders(env, s)))
}

spec fn opt_view(arg: Option<&[char]>) -> Option<Seq<char>> {
    match arg {
        Some(a) => Some(a@),
        None => None,
    }
}

fn placeholder(env: &Env, name: &[char], arg: Option<&[char]>) -> (r: Option<String>)
    ensures
        match r {
            Some(v) => spec_placeholder(*env, name@, opt_view(arg)) == Some(v@),
            None => spec_placeholder(*env, name@, opt_view(arg)) is None,
        },
{
    proof {
        reveal_strlit("now");
        reveal_strlit("utcnow");
        assert("now"@.len() == 3);
        assert("utcnow"@.len() == 6);
    }
    let now = chars_of("now");
    let utcnow = chars_of("utcnow");
    let hostname = chars_of("hostname");
    let user = chars_of("user");
    if chars_eq(name, now.as_slice()) || chars_eq(name, utcnow.as_slice()) {
        let utc = chars_eq(name, utcnow.as_slice());
        let fmt: String = match arg {
            Some(a) => string_of(a),
            None => String::from_str("%Y-%m-%d"),
        };
        assert(fmt@ == opt_view(arg).unwrap_or("%Y-%m-%d"@));
        assert(utc ==> name@ != "now"@);
        format_now(env.clock, fmt.as_str(), utc)
    } else if chars_eq(name, hostname.as_slice()) && arg.is_none() {
        env.hostname()
    } else if chars_eq(name, user.as_slice()) && arg.is_none() {
        env.user()
    } else {
        None
    }
}

fn braced(env: &Env, s: &[char], lo: usize, hi: usize) -> (r: Vec<char>)
    requires
        lo <= hi <= s@.len(),
    ensures
        r@ == spec_braced(*env, s@.subrange(lo as int, hi as int)),
{
    let ghost body = s@.subrange(lo as int, hi as int);
    let mut b: Vec<char> = Vec::new();
    let mut i: usize = lo;
    while i < hi
        invariant
            lo <= i <= hi <= s@.len(),
            b@ == s@.subrange(lo as int, i as int),
        decreases hi - i,
    {
        b.push(s[i]);
        i = i + 1;
        assert(b@ =~= s@.subrange(lo as int, i as int));
    }
    assert(b@ == body);
    let colon = find_char_from(b.as_slice(), ':', 0);
    let value = match colon {
        Some(k) => {
            proof {
                lemma_find_from(body, ':', 0);
            }
            let mut n: Vec<char> = Vec::new();
            let mut a: Vec<char> = Vec::new();
            let mut j: usize = 0;
            while j < b.len()
                invariant
                    k < b@.len(),
                    j <= b@.len(),
                    n@ == b@.take(if j < k { j as int } else { k as int }),
                    a@ == if j <= k { seq![] } else { b@.subrange(k + 1, j as int) },
                decreases b@.len() - j,
            {
                if j < k {
                    n.push(b[j]);
                } else if j > k {
                    a.push(b[j]);
                }
                j = j + 1;
                assert(n@ =~= b@.take(if j < k { j as int } else { k as int }));
                assert(a@ =~= if j <= k { seq![] } else { b@.subrange(k + 1, j as int) });
            }
            assert(a@ =~= b@.skip(k + 1));
            placeholder(env, n.as_slice(), Some(a.as_slice()))
        },
        None => placeholder(env, b.as_slice(), None),
    };
    match value {
        Some(v) => chars_of(v.as_str()),
        None => {
            let mut r: Vec<char> = Vec::new();
            r.push('{');
            extend_chars(&mut r, b.as_slice());
            r.push('}');
            assert(r@ =~= seq!['{'] + body + seq!['}']);
            r
        },
    }
}

/// Expands the placeholders of a path: `{now}`, `{now:FORMAT}`, `{utcnow}`,
/// `{utcnow:FORMAT}`, `{hostname}` and `{user}`.  Unknown or unresolvable
/// placeholders and an unclosed `{` are left as typed; `{{` and `}}` are
/// literal braces.
pub fn expand_placeholders(s: &str, env: &Env) -> (r: String)
    ensures
        r@ == spec_expand_placeholders(*env, s@),
{
    let c = chars_of(s);
    let mut out: Vec<char> = Vec::new();
    let mut i: usize = 0;
    while i < c.len()
        invariant
            i <= c@.len(),
            c@ == s@,
            out@ + ph_from(*env, c@, i as int) == ph_from(*env, c@, 0),
        decreases c@.len() - i,
    {
        let ghost before = out@;
        if i + 1 < c.len() && c[i] == '{' && c[i + 1] == '{' {
            out.push('{');
            i = i + 2;
            assert(before + ph_from(*env, c@, i - 2) == out@ + ph_from(*env, c@, i as int));
        } else if i + 1 < c.len() && c[i] == '}' && c[i + 1] == '}' {
            out.push('}');
            i = i + 2;
            assert(before + ph_from(*env, c@, i - 2) == out@ + ph_from(*env, c@, i as int));
        } else if c[i] == '{' {
            match find_char_from(c.as_slice(), '}', i + 1) {
                Some(k) => {
                    proof {
                        lemma_find_from(c@, '}', i + 1);
                    }
                    let v = braced(env, c.as_slice(), i + 1, k);
                    extend_chars(&mut out, v.as_slice());
                    let ghost j = i;
                    i = k + 1;
                    assert(before + ph_from(*env, c@, j as int) == out@ + ph_from(
                        *env,
                        c@,
                        i as int,
                    ));
                },
                None => {
                    let mut j: usize = i;
                    while j < c.len()
                        invariant
                            i <= j <= c@.len(),
                            out@ == before + c@.subrange(i as int, j as int),
                        decreases c@.len() - j,
                    {
                        out.push(c[j]);
                        j = j + 1;
                        assert(out@ =~= before + c@.subrange(i as int, j as int));
                    }
                    assert(c@.subrange(i as int, j as int) == c@.skip(i as int));
                    assert(ph_from(*env, c@, j as int) == Seq::<char>::empty());
                    assert(out@ =~= out@ + ph_from(*env, c@, j as int));
                    i = j;
                },
            }
        } else {
            out.push(c[i]);
            i = i + 1;
            assert(before + ph_from(*env, c@, i - 1) =~= out@ + ph_from(*env, c@, i as int));
        }
    }
    assert(out@ =~= out@ + ph_from(*env, c@, i as int));
    string_of(out.as_slice())
}

fn push_range(out: &mut Vec<char>, c: &[char], lo: usize, hi: usize)
    requires
        lo <= hi <= c@.len(),
    ensures
        final(out)@ == old(out)@ + c@.subrange(lo as int, hi as int),
{
    let mut j: usize = lo;
    while j < hi
        invariant
            lo <= j <= hi <= c@.len(),
            out@ == old(out)@ + c@.subrange(lo as int, j as int),
        decreases hi - j,
    {
        out.push(c[j]);
        j = j + 1;
        assert(out@ =~= old(out)@ + c@.subrange(lo as int, j as int));
    }
}

/// Expands `$NAME`, `${NAME}` and `$$` in `s` from the gathered environment.
/// Unset variables, an unclosed `${` and a `$` before no name are left as
/// typed; values are inserted as they are, never rescanned.
pub fn expand_env(s: &str, env: &Env) -> (r: String)
    ensures
        r@ == spec_expand_env(env.vars@, s@),
{
    let c = chars_of(s);
    let ghost vars = env.vars@;
    let mut out: Vec<char> = Vec::new();
    let mut i: usize = 0;
    while i < c.len()
        invariant
            i <= c@.len(),
            c@ == s@,
            vars == env.vars@,
            out@ + env_from(vars, c@, i as int) == env_from(vars, c@, 0),
        decreases c@.len() - i,
    {
        let ghost before = out@;
        let ghost j0 = i as int;
        if c[i] != '$' {
            out.push(c[i]);
            i = i + 1;
            assert(before + env_from(vars, c@, j0) =~= out@ + env_from(vars, c@, i as int));
        } else if i + 1 < c.len() && c[i + 1] == '$' {
            out.push('$');
            i = i + 2;
            assert(before + env_from(vars, c@, j0) =~= out@ + env_from(vars, c@, i as int));
        } else if i + 1 < c.len() && c[i + 1] == '{' {
            match find_char_from(c.as_slice(), '}', i + 2) {
                Some(k) => {
                    proof {
                        lemma_find_from(c@, '}', i + 2);
                    }
                    let mut name: Vec<char> = Vec::new();
                    push_range(&mut name, c.as_slice(), i + 2, k);
                    assert(name@ =~= c@.subrange(i + 2, k as int));
                    match env.var(name.as_slice()) {
                        Some(v) => extend_str(&mut out, v.as_str()),
                        None => {
                            out.push('$');
                            out.push('{');
                            extend_chars(&mut out, name.as_slice());
                            out.push('}');
                            assert(out@ =~= before + (seq!['$', '{'] + name@ + seq!['}']));
                        },
                    }
                    i = k + 1;
                    assert(before + env_from(vars, c@, j0) =~= out@ + env_from(
                        vars,
                        c@,
                        i as int,
                    ));
                },
                None => {
                    let n = c.len();
                    push_range(&mut out, c.as_slice(), i, n);
                    assert(c@.subrange(j0, n as int) == c@.skip(j0));
                    i = n;
                    assert(env_from(vars, c@, i as int) == Seq::<char>::empty());
                    assert(before + env_from(vars, c@, j0) =~= out@ + env_from(
                        vars,
                        c@,
                        i as int,
                    ));
                },
            }
        } else {
            let mut e: usize = i + 1;
            proof {
                lemma_name_end(c@, i + 1);
            }
            while e < c.len() && name_char(c[e])
                invariant
                    i + 1 <= e <= c@.len(),
                    name_end(c@, i + 1) == name_end(c@, e as int),
                decreases c@.len() - e,
            {
                e = e + 1;
            }
            if e == i + 1 {
                out.push('$');
                i = i + 1;
                assert(before + env_from(vars, c@, j0) =~= out@ + env_from(
                    vars,
                    c@,
                    i as int,
                ));
            } else {
                let mut name: Vec<char> = Vec::new();
                push_range(&mut name, c.as_slice(), i + 1, e);
                assert(name@ =~= c@.subrange(i + 1, e as int));
                match env.var(name.as_slice()) {
                    Some(v) => extend_str(&mut out, v.as_str()),
                    None => {
                        out.push('$');
                        extend_chars(&mut out, name.as_slice());
                        assert(out@ =~= before + (seq!['$'] + name@));
                    },
                }
                i = e;
                assert(before + env_from(vars, c@, j0) =~= out@ + env_from(vars, c@, i as int));
            }
        }
    }
    assert(out@ =~= out@ + env_from(vars, c@, i as int));
    string_of(out.as_slice())
}

/// Replaces a leading `~` (the whole path, or before a `/`) with `$HOME`,
/// when `$HOME` is set and not empty.
pub fn expand_tilde(s: &str, env: &Env) -> (r: String)
    ensures
        r@ == spec_expand_tilde(env.vars@, s@),
{
    proof {
        reveal_strlit("~");
        reveal_strlit("~/");
    }
    let c = chars_of(s);
    let home_name = chars_of("HOME");
    match env.var_nonempty(home_name.as_slice()) {
        Some(home) => {
            let tilde = chars_of("~");
            let tilde_slash = chars_of("~/");
            if chars_eq(c.as_slice(), tilde.as_slice()) {
                home
            } else if starts_with(c.as_slice(), tilde_slash.as_slice()) {
                let mut out = chars_of(home.as_str());
                out.push('/');
                let n = c.len();
                push_range(&mut out, c.as_slice(), 2, n);
                assert(c@.subrange(2, n as int) == c@.skip(2));
                string_of(out.as_slice())
            } else {
                String::from_str(s)
            }
        },
        None => String::from_str(s),
    }
}

/// Expands a path as a task uses it: placeholders, then `~`, then
/// environment variables.
pub fn expand_path(s: &str, env: &Env) -> (r: String)
    ensures
        r@ == spec_expand_path(*env, s@),
{
    let a = expand_placeholders(s, env);
    let b = expand_tilde(a.as_str(), env);
    expand_env(b.as_str(), env)
}

} // verus!
