//! Tab completion of a path field: which directory to list, which of its
//! entries match what was typed (smart case, hidden entries only on `.`), and
//! the longest common prefix of the matches.

use vstd::prelude::*;
use crate::env::Env;
use crate::paths::{expand_tilde, spec_expand_tilde};
use crate::rsync::{is_remote_path, push_arg, spec_is_remote};
use crate::text::{
    chars_of, extend_chars, is_prefix, lemma_lex_antisym, lemma_lex_total, lemma_lex_trans,
    lex_le, lex_le_chars, starts_with, string_of,
};

verus! {

/// One entry of a listed directory: its name, and whether it is (or leads to)
/// a directory.
#[derive(Clone, Debug)]
pub struct Entry {
    pub name: String,
    pub is_dir: bool,
}

/// Whether `char::is_uppercase` holds of `c` (the Unicode `Uppercase`
/// property).
pub uninterp spec fn char_is_uppercase(c: char) -> bool;

/// What `str::to_lowercase` makes of `s`.
pub uninterp spec fn str_lowercase(s: Seq<char>) -> Seq<char>;

/// Calls `char::is_uppercase`.  Claimed: the answer is `char_is_uppercase`
/// of the character.
#[verifier::external_body]
fn is_upper(c: char) -> (r: bool)
    ensures
        r == char_is_uppercase(c),
{
    c.is_uppercase()
}

/// Calls `str::to_lowercase`.  Claimed: the result is `str_lowercase` of the
/// string's characters.
#[verifier::external_body]
fn to_lower(s: &str) -> (r: String)
    ensures
        r@ == str_lowercase(s@),
{
    s.to_lowercase()
}

/// The index of the last `/` in `s`, if any.
pub open spec fn last_slash(s: Seq<char>) -> Option<int>
    decreases s.len(),
{
    if s.len() == 0 {
        None
    } else if s.last() == '/' {
        Some(s.len() - 1)
    } else {
        last_slash(s.drop_last())
    }
}

proof fn lemma_last_slash(s: Seq<char>)
    ensures
        match last_slash(s) {
            Some(k) => 0 <= k < s.len() && s[k] == '/' && forall|j: int|
                k < j < s.len() ==> s[j] != '/',
            None => forall|j: int| 0 <= j < s.len() ==> s[j] != '/',
        },
    decreases s.len(),
{
    if s.len() > 0 && s.last() != '/' {
        lemma_last_slash(s.drop_last());
        assert forall|j: int| 0 <= j < s.len() - 1 implies s.drop_last()[j] == s[j] by {}
    }
}

/// The typed directory part (before the last `/`) and the fragment after it.
pub open spec fn split_buffer(b: Seq<char>) -> (Seq<char>, Seq<char>) {
    match last_slash(b) {
        Some(k) => (b.take(k), b.skip(k + 1)),
        None => (seq![], b),
    }
}

/// The directory that completion lists for the typed `b`, or `None` for a
/// remote path: `/` or `.` when no directory is typed, else the typed
/// directory with `~` expanded.
pub open spec fn spec_hits_dir(vars: Seq<(String, String)>, b: Seq<char>) -> Option<Seq<char>> {
    if spec_is_remote(b) {
        None
    } else {
        let d = split_buffer(b).0;
        if d.len() == 0 {
            Some(if b.len() > 0 && b[0] == '/' {
                "/"@
            } else {
                "."@
            })
        } else {
            Some(spec_expand_tilde(vars, d))
        }
    }
}

/// Whether an entry matches the typed fragment: hidden entries only when the
/// fragment starts with `.`; case-sensitive when the fragment holds an
/// uppercase letter, else compared in lower case.
pub open spec fn entry_matches(frag: Seq<char>, name: Seq<char>) -> bool {
    let hidden_ok = (frag.len() > 0 && frag[0] == '.') || !(name.len() > 0 && name[0] == '.');
    let sensitive = exists|i: int| 0 <= i < frag.len() && char_is_uppercase(#[trigger] frag[i]);
    hidden_ok && if sensitive {
        is_prefix(frag, name)
    } else {
        is_prefix(str_lowercase(frag), str_lowercase(name))
    }
}

/// How a matching entry is offered: behind the typed directory, with `/`
/// after a directory.
pub open spec fn entry_hit(b: Seq<char>, e: Entry) -> Seq<char> {
    let d = split_buffer(b).0;
    let full = if d.len() == 0 {
        if b.len() > 0 && b[0] == '/' {
            seq!['/'] + e.name@
        } else {
            e.name@
        }
    } else {
        d + seq!['/'] + e.name@
    };
    if e.is_dir {
        full.push('/')
    } else {
        full
    }
}

/// The offers for `b` among `entries`, in listing order.
pub open spec fn hits_in_order(b: Seq<char>, entries: Seq<Entry>) -> Seq<Seq<char>>
    decreases entries.len(),
{
    if entries.len() == 0 {
        seq![]
    } else {
        let rest = hits_in_order(b, entries.drop_last());
        if entry_matches(split_buffer(b).1, entries.last().name@) {
            rest.push(entry_hit(b, entries.last()))
        } else {
            rest
        }
    }
}

/// Whether `xs` is in the order of `String`.
pub open spec fn sorted(xs: Seq<Seq<char>>) -> bool {
    forall|i: int, j: int| 0 <= i < j < xs.len() ==> lex_le(#[trigger] xs[i], #[trigger] xs[j])
}

fn split_at_last_slash(b: &[char]) -> (r: (Vec<char>, Vec<char>))
    ensures
        r.0@ == split_buffer(b@).0,
        r.1@ == split_buffer(b@).1,
{
    proof {
        lemma_last_slash(b@);
    }
    let mut k: usize = b.len();
    while k > 0 && b[k - 1] != '/'
        invariant
            k <= b@.len(),
            forall|j: int| k <= j < b@.len() ==> b@[j] != '/',
        decreases k,
    {
        k = k - 1;
    }
    let mut d: Vec<char> = Vec::new();
    let mut f: Vec<char> = Vec::new();
    if k == 0 {
        proof {
            assert forall|j: int| 0 <= j < b@.len() implies b@[j] != '/' by {}
            lemma_no_slash(b@);
        }
        extend_chars(&mut f, b);
    } else {
        proof {
            lemma_last_slash_at(b@, k - 1);
        }
        let mut i: usize = 0;
        while i < b.len()
            invariant
                0 < k <= b@.len(),
                i <= b@.len(),
                d@ == b@.take(if i < k - 1 { i as int } else { k - 1 }),
                f@ == if i <= k { seq![] } else { b@.subrange(k as int, i as int) },
            decreases b@.len() - i,
        {
            if i < k - 1 {
                d.push(b[i]);
            } else if i >= k {
                f.push(b[i]);
            }
            i = i + 1;
            assert(d@ =~= b@.take(if i < k - 1 { i as int } else { k - 1 }));
            assert(f@ =~= if i <= k { seq![] } else { b@.subrange(k as int, i as int) });
        }
        assert(f@ =~= b@.skip(k as int));
    }
    (d, f)
}

proof fn lemma_no_slash(s: Seq<char>)
    requires
        forall|j: int| 0 <= j < s.len() ==> s[j] != '/',
    ensures
        last_slash(s) is None,
    decreases s.len(),
{
    if s.len() > 0 {
        lemma_no_slash(s.drop_last());
    }
}

proof fn lemma_last_slash_at(s: Seq<char>, k: int)
    requires
        0 <= k < s.len(),
        s[k] == '/',
        forall|j: int| k < j < s.len() ==> s[j] != '/',
    ensures
        last_slash(s) == Some(k),
    decreases s.len(),
{
    if s.last() != '/' {
        lemma_last_slash_at(s.drop_last(), k);
    }
}

/// The directory to list for completing `buffer`, or `None` when the
/// buffer is a remote path (which is never completed).
pub fn hits_dir(buffer: &str, env: &Env) -> (r: Option<String>)
    ensures
        match r {
            Some(d) => spec_hits_dir(env.vars@, buffer@) == Some(d@),
            None => spec_hits_dir(env.vars@, buffer@) is None,
        },
{
    proof {
        reveal_strlit("/");
        reveal_strlit(".");
    }
    if is_remote_path(buffer) {
        return None;
    }
    let b = chars_of(buffer);
    let (d, _) = split_at_last_slash(b.as_slice());
    if d.len() == 0 {
        if b.len() > 0 && b[0] == '/' {
            Some(String::from_str("/"))
        } else {
            Some(String::from_str("."))
        }
    } else {
        let ds = string_of(d.as_slice());
        Some(expand_tilde(ds.as_str(), env))
    }
}

fn has_upper(s: &[char]) -> (r: bool)
    ensures
        r == exists|i: int| 0 <= i < s@.len() && char_is_uppercase(#[trigger] s@[i]),
{
    let mut i: usize = 0;
    while i < s.len()
        invariant
            i <= s@.len(),
            forall|j: int| 0 <= j < i ==> !char_is_uppercase(#[trigger] s@[j]),
        decreases s@.len() - i,
    {
        if is_upper(s[i]) {
            return true;
        }
        i = i + 1;
    }
    false
}

fn insert_sorted(v: &mut Vec<String>, x: String)
    requires
        sorted(old(v).deep_view()),
    ensures
        sorted(final(v).deep_view()),
        final(v).deep_view().to_multiset() == old(v).deep_view().to_multiset().insert(x@),
        final(v).deep_view().len() == old(v).deep_view().len() + 1,
{
    let ghost d = v.deep_view();
    let xc = chars_of(x.as_str());
    let mut j: usize = 0;
    let mut stop = false;
    while !stop && j < v.len()
        invariant
            j <= v@.len(),
            d == v.deep_view(),
            d.len() == v@.len(),
            xc@ == x@,
            sorted(d),
            forall|i: int| 0 <= i < j ==> lex_le(#[trigger] d[i], x@),
            stop ==> j < d.len() && !lex_le(d[j as int], x@),
        decreases v@.len() - j, if stop { 0int } else { 1int },
    {
        let c = chars_of(v[j].as_str());
        assert(d[j as int] == v@[j as int]@);
        if !lex_le_chars(c.as_slice(), xc.as_slice()) {
            stop = true;
        } else {
            j = j + 1;
        }
    }
    proof {
        if j < d.len() {
            assert(!lex_le(d[j as int], x@));
            assert forall|k: int| j <= k < d.len() implies !lex_le(#[trigger] d[k], x@) by {
                if lex_le(d[k], x@) {
                    if k > j {
                        lemma_lex_trans(d[j as int], d[k], x@);
                    }
                }
            }
        }
    }
    let ghost xv = x@;
    v.insert(j, x);
    let ghost e = v.deep_view();
    assert(e =~= d.insert(j as int, xv));
    proof {
        vstd::seq_lib::to_multiset_insert(d, j as int, xv);
        assert forall|a: int, b: int| 0 <= a < b < e.len() implies lex_le(
            #[trigger] e[a],
            #[trigger] e[b],
        ) by {
            if b < j {
            } else if b == j {
                assert(e[a] == d[a]);
            } else if a == j {
                assert(e[b] == d[b - 1]);
                assert(!lex_le(d[b - 1], xv));
                lemma_lex_total(d[b - 1], xv);
            } else if a < j {
                assert(e[a] == d[a]);
                assert(e[b] == d[b - 1]);
            } else {
                assert(e[a] == d[a - 1]);
                assert(e[b] == d[b - 1]);
            }
        }
    }
}

/// The entries that match what was typed, offered as completions in the
/// order of `String`: `listing` is the content of the directory that
/// `hits_dir` names (empty when it could not be read).  A remote path has no
/// completions.
pub fn path_hits(buffer: &str, listing: &[Entry]) -> (r: Vec<String>)
    ensures
        spec_is_remote(buffer@) ==> r.deep_view().len() == 0,
        !spec_is_remote(buffer@) ==> r.deep_view().to_multiset() == hits_in_order(
            buffer@,
            listing@,
        ).to_multiset(),
        sorted(r.deep_view()),
{
    let mut hits: Vec<String> = Vec::new();
    assert(hits.deep_view() =~= Seq::<Seq<char>>::empty());
    if is_remote_path(buffer) {
        return hits;
    }
    let b = chars_of(buffer);
    let (d, frag) = split_at_last_slash(b.as_slice());
    let sensitive = has_upper(frag.as_slice());
    let frag_s = string_of(frag.as_slice());
    let frag_lower = chars_of(to_lower(frag_s.as_str()).as_str());
    let hidden_ok_all = frag.len() > 0 && frag[0] == '.';
    let mut i: usize = 0;
    assert(listing@.take(0) =~= Seq::<Entry>::empty());
    while i < listing.len()
        invariant
            i <= listing@.len(),
            b@ == buffer@,
            d@ == split_buffer(buffer@).0,
            frag@ == split_buffer(buffer@).1,
            frag_lower@ == str_lowercase(frag@),
            sensitive == exists|k: int| 0 <= k < frag@.len() && char_is_uppercase(#[trigger] frag@[k]),
            hidden_ok_all == (frag@.len() > 0 && frag@[0] == '.'),
            sorted(hits.deep_view()),
            hits.deep_view().to_multiset() == hits_in_order(buffer@, listing@.take(i as int)).to_multiset(),
        decreases listing@.len() - i,
    {
        let e = &listing[i];
        let name = chars_of(e.name.as_str());
        let hidden = name.len() > 0 && name[0] == '.';
        let matches = if !hidden_ok_all && hidden {
            false
        } else if sensitive {
            starts_with(name.as_slice(), frag.as_slice())
        } else {
            let nl = chars_of(to_lower(e.name.as_str()).as_str());
            starts_with(nl.as_slice(), frag_lower.as_slice())
        };
        assert(listing@.take(i + 1).drop_last() == listing@.take(i as int));
        assert(listing@.take(i + 1).last() == listing@[i as int]);
        assert(matches == entry_matches(frag@, e.name@));
        if matches {
            let mut full: Vec<char> = Vec::new();
            if d.len() == 0 {
                if b.len() > 0 && b[0] == '/' {
                    full.push('/');
                }
                extend_chars(&mut full, name.as_slice());
            } else {
                extend_chars(&mut full, d.as_slice());
                full.push('/');
                extend_chars(&mut full, name.as_slice());
            }
            if e.is_dir {
                full.push('/');
            }
            assert(full@ =~= entry_hit(buffer@, *e));
            let ghost before = hits_in_order(buffer@, listing@.take(i as int));
            insert_sorted(&mut hits, string_of(full.as_slice()));
            proof {
                vstd::seq_lib::to_multiset_build(before, entry_hit(buffer@, *e));
            }
        }
        i = i + 1;
    }
    assert(listing@.take(i as int) == listing@);
    hits
}

/// The length of the longest common prefix of `a` and `b`.
pub open spec fn common_len(a: Seq<char>, b: Seq<char>) -> nat
    decreases a.len(),
{
    if a.len() == 0 || b.len() == 0 || a[0] != b[0] {
        0
    } else {
        1 + common_len(a.drop_first(), b.drop_first())
    }
}

/// The shortest common prefix length of `first` with each of `rest`.
pub open spec fn min_common(first: Seq<char>, rest: Seq<Seq<char>>) -> nat
    decreases rest.len(),
{
    if rest.len() == 0 {
        first.len()
    } else {
        let m = min_common(first, rest.drop_last());
        let c = common_len(first, rest.last());
        if c < m {
            c
        } else {
            m
        }
    }
}

/// What completing `buffer` against the completions `hits` gives: the buffer
/// when there are none, the only one, or the longest prefix that all share.
pub open spec fn spec_complete(buffer: Seq<char>, hits: Seq<Seq<char>>) -> Seq<char> {
    if hits.len() == 0 {
        buffer
    } else if hits.len() == 1 {
        hits[0]
    } else {
        hits[0].take(min_common(hits[0], hits.drop_first()) as int)
    }
}

proof fn lemma_common_len(a: Seq<char>, b: Seq<char>)
    ensures
        common_len(a, b) <= a.len(),
        common_len(a, b) <= b.len(),
        forall|i: int| 0 <= i < common_len(a, b) ==> a[i] == b[i],
        common_len(a, b) < a.len() && common_len(a, b) < b.len() ==> a[common_len(a, b) as int]
            != b[common_len(a, b) as int],
    decreases a.len(),
{
    if !(a.len() == 0 || b.len() == 0 || a[0] != b[0]) {
        lemma_common_len(a.drop_first(), b.drop_first());
        assert forall|i: int| 0 <= i < common_len(a, b) implies a[i] == b[i] by {
            if i > 0 {
                assert(a[i] == a.drop_first()[i - 1]);
                assert(b[i] == b.drop_first()[i - 1]);
            }
        }
    }
}

fn common_len_exec(a: &[char], b: &[char]) -> (r: usize)
    ensures
        r == common_len(a@, b@),
{
    let mut i: usize = 0;
    assert(a@.skip(0) == a@ && b@.skip(0) == b@);
    while i < a.len() && i < b.len() && a[i] == b[i]
        invariant
            i <= a@.len(),
            i <= b@.len(),
            common_len(a@, b@) == i + common_len(a@.skip(i as int), b@.skip(i as int)),
        decreases a@.len() - i,
    {
        assert(a@.skip(i as int).drop_first() == a@.skip(i + 1));
        assert(b@.skip(i as int).drop_first() == b@.skip(i + 1));
        i = i + 1;
    }
    i
}

/// Completes `buffer` against its completions `hits` (as `path_hits` gives
/// them): unchanged with none, the single one, else the longest prefix that
/// all of them share.
pub fn complete_from_hits(buffer: &str, hits: &Vec<String>) -> (r: String)
    ensures
        r@ == spec_complete(buffer@, hits.deep_view()),
{
    if hits.len() == 0 {
        return String::from_str(buffer);
    }
    if hits.len() == 1 {
        return hits[0].clone();
    }
    let ghost h = hits.deep_view();
    let first = chars_of(hits[0].as_str());
    let mut len: usize = first.len();
    let mut i: usize = 1;
    assert(h.drop_first().take(0) =~= Seq::<Seq<char>>::empty());
    while i < hits.len()
        invariant
            1 <= i <= hits@.len(),
            h == hits.deep_view(),
            first@ == h[0],
            len == min_common(h[0], h.drop_first().take(i - 1)),
            len <= first@.len(),
        decreases hits@.len() - i,
    {
        let c = chars_of(hits[i].as_str());
        let cl = common_len_exec(first.as_slice(), c.as_slice());
        proof {
            lemma_common_len(first@, c@);
        }
        assert(h.drop_first().take(i as int).drop_last() == h.drop_first().take(i - 1));
        assert(h.drop_first().take(i as int).last() == h[i as int]);
        if cl < len {
            len = cl;
        }
        i = i + 1;
    }
    assert(h.drop_first().take(i - 1) == h.drop_first());
    let mut out: Vec<char> = Vec::new();
    let mut j: usize = 0;
    while j < len
        invariant
            j <= len <= first@.len(),
            out@ == first@.take(j as int),
        decreases len - j,
    {
        out.push(first[j]);
        j = j + 1;
        assert(out@ =~= first@.take(j as int));
    }
    string_of(out.as_slice())
}

/// Completes what was typed in a path field against the listing of the
/// directory that `hits_dir` names.  A remote path, or one with no match,
/// stays as typed.
pub fn complete_path(buffer: &str, listing: &[Entry]) -> (r: String)
    ensures
        spec_is_remote(buffer@) ==> r@ == buffer@,
        exists|hits: Seq<Seq<char>>|
            #![auto]
            sorted(hits) && (spec_is_remote(buffer@) ==> hits.len() == 0) && (!spec_is_remote(
                buffer@,
            ) ==> hits.to_multiset() == hits_in_order(buffer@, listing@).to_multiset()) && r@
                == spec_complete(buffer@, hits),
{
    let hits = path_hits(buffer, listing);
    let r = complete_from_hits(buffer, &hits);
    assert(sorted(hits.deep_view()));
    r
}

proof fn lemma_min_common(first: Seq<char>, rest: Seq<Seq<char>>)
    ensures
        min_common(first, rest) <= first.len(),
        forall|k: int| 0 <= k < rest.len() ==> min_common(first, rest) <= common_len(first, #[trigger] rest[k]),
        rest.len() > 0 ==> exists|k: int|
            0 <= k < rest.len() && min_common(first, rest) == common_len(first, #[trigger] rest[k]),
    decreases rest.len(),
{
    if rest.len() > 0 {
        let init = rest.drop_last();
        lemma_min_common(first, init);
        lemma_common_len(first, rest.last());
        assert forall|k: int| 0 <= k < rest.len() implies min_common(first, rest) <= common_len(
            first,
            #[trigger] rest[k],
        ) by {
            if k < init.len() {
                assert(rest[k] == init[k]);
            }
        }
        if min_common(first, rest) == common_len(first, rest.last()) {
            assert(min_common(first, rest) == common_len(first, rest[rest.len() - 1]));
        } else {
            let k = choose|k: int|
                0 <= k < init.len() && min_common(first, init) == common_len(first, #[trigger] init[k]);
            assert(rest[k] == init[k]);
        }
    }
}

/// Completion offers the longest prefix that every completion shares: it is
/// a prefix of each of them, and when it stops short of the first, some
/// completion ends there or goes on differently.
pub proof fn law_completion_is_the_longest_common_prefix(buffer: Seq<char>, hits: Seq<Seq<char>>)
    requires
        hits.len() > 0,
    ensures
        forall|k: int| 0 <= k < hits.len() ==> is_prefix(spec_complete(buffer, hits), #[trigger] hits[k]),
        ({
            let c = spec_complete(buffer, hits);
            c.len() < hits[0].len() ==> exists|k: int|
                0 <= k < hits.len() && ((#[trigger] hits[k]).len() <= c.len() || hits[k][c.len() as int]
                    != hits[0][c.len() as int])
        }),
{
    if hits.len() == 1 {
        assert(hits[0].take(hits[0].len() as int) == hits[0]);
    } else {
        let first = hits[0];
        let rest = hits.drop_first();
        lemma_min_common(first, rest);
        let m = min_common(first, rest);
        let c = first.take(m as int);
        assert forall|k: int| 0 <= k < hits.len() implies is_prefix(c, #[trigger] hits[k]) by {
            if k == 0 {
            } else {
                assert(hits[k] == rest[k - 1]);
                lemma_common_len(first, rest[k - 1]);
                assert(hits[k].take(m as int) =~= c);
            }
        }
        let k = choose|k: int| 0 <= k < rest.len() && m == common_len(first, #[trigger] rest[k]);
        lemma_common_len(first, rest[k]);
        assert(hits[k + 1] == rest[k]);
    }
}


/// Whether an entry is hidden: its name starts with `.`.
pub open spec fn is_hidden(e: Entry) -> bool {
    e.name@.len() > 0 && e.name@[0] == '.'
}

/// The entries of a listing that are not hidden, in order.
pub open spec fn visible(entries: Seq<Entry>) -> Seq<Entry>
    decreases entries.len(),
{
    if entries.len() == 0 {
        seq![]
    } else if is_hidden(entries.last()) {
        visible(entries.drop_last())
    } else {
        visible(entries.drop_last()).push(entries.last())
    }
}

/// Hidden entries are offered only to a fragment that starts with `.`: for
/// any other typed text the completions are those of the listing with its
/// hidden entries taken out, and adding a hidden entry to a listing changes
/// no completion.
pub proof fn law_hidden_entries_need_a_typed_dot(b: Seq<char>, entries: Seq<Entry>, e: Entry)
    requires
        !(split_buffer(b).1.len() > 0 && split_buffer(b).1[0] == '.'),
    ensures
        hits_in_order(b, entries) == hits_in_order(b, visible(entries)),
        is_hidden(e) ==> hits_in_order(b, entries.push(e)) == hits_in_order(b, entries),
    decreases entries.len(),
{
    if is_hidden(e) {
        assert(entries.push(e).drop_last() == entries);
        assert(!entry_matches(split_buffer(b).1, e.name@));
    }
    if entries.len() > 0 {
        let init = entries.drop_last();
        let last = entries.last();
        law_hidden_entries_need_a_typed_dot(b, init, e);
        if is_hidden(last) {
            assert(!entry_matches(split_buffer(b).1, last.name@));
        } else {
            assert(visible(entries).drop_last() == visible(init));
            assert(visible(entries).last() == last);
        }
    }
}

} // verus!
