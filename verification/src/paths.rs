//! Path text: the form in which patterns and request paths meet, and the
//! joining of a mount prefix with a pattern.

use crate::text::chars_of;
use vstd::prelude::*;
use vstd::string::StringExecFns;

verus! {

/// A pattern in the form in which it is compiled: closed by a `/`, unless
/// it already ends in `/` or in the wildcard.
pub open spec fn normalized_pattern(p: Seq<char>) -> Seq<char> {
    if p.len() > 0 && (p.last() == '/' || p.last() == '*') {
        p
    } else {
        p.push('/')
    }
}

/// A request path in the form in which it is matched: closed by a `/`.
pub open spec fn normalized_path(p: Seq<char>) -> Seq<char> {
    if p.len() > 0 && p.last() == '/' {
        p
    } else {
        p.push('/')
    }
}

/// `s` without the `/` characters at its end.
pub open spec fn trimmed_end(s: Seq<char>) -> Seq<char>
    decreases s.len(),
{
    if s.len() > 0 && s.last() == '/' {
        trimmed_end(s.drop_last())
    } else {
        s
    }
}

/// `s` without the `/` characters at its start.
pub open spec fn trimmed_start(s: Seq<char>) -> Seq<char>
    decreases s.len(),
{
    if s.len() > 0 && s[0] == '/' {
        trimmed_start(s.skip(1))
    } else {
        s
    }
}

/// `pattern` moved under `prefix`: the two joined by exactly one `/`,
/// whatever slashes the prefix ends in or the pattern starts with.
pub open spec fn joined_path(prefix: Seq<char>, pattern: Seq<char>) -> Seq<char> {
    trimmed_end(prefix).push('/') + trimmed_start(pattern)
}

/// Exactly one `/` parts a prefix from a pattern moved under it: what
/// stands before the joining `/` does not end in one, and what stands
/// behind does not start with one.
pub proof fn law_join_has_one_separator(prefix: Seq<char>, pattern: Seq<char>)
    ensures
        trimmed_end(prefix).len() == 0 || trimmed_end(prefix).last() != '/',
        trimmed_start(pattern).len() == 0 || trimmed_start(pattern)[0] != '/',
        joined_path(prefix, pattern)[trimmed_end(prefix).len() as int] == '/',
        joined_path(prefix, pattern).len() == trimmed_end(prefix).len() + 1 + trimmed_start(
            pattern,
        ).len(),
    decreases prefix.len() + pattern.len(),
{
    if prefix.len() > 0 && prefix.last() == '/' {
        law_join_has_one_separator(prefix.drop_last(), pattern);
    } else if pattern.len() > 0 && pattern[0] == '/' {
        law_join_has_one_separator(prefix, pattern.skip(1));
    }
}

/// Appends the characters of `v` from `from` up to `to` to `out`.
fn push_range(out: &mut String, v: &Vec<char>, from: usize, to: usize)
    requires
        from <= to <= v.len(),
    ensures
        final(out)@ == old(out)@ + v@.subrange(from as int, to as int),
{
    let mut i: usize = from;
    assert(out@ =~= old(out)@ + v@.subrange(from as int, from as int));
    while i < to
        invariant
            from <= i <= to <= v.len(),
            out@ == old(out)@ + v@.subrange(from as int, i as int),
        decreases to - i,
    {
        out.push(v[i]);
        assert(out@ =~= old(out)@ + v@.subrange(from as int, i + 1));
        i += 1;
    }
}

/// Puts a pattern into the form in which it is compiled.
pub fn normalize_pattern(pattern: &str) -> (out: String)
    ensures
        out@ == normalized_pattern(pattern@),
{
    let chars = chars_of(pattern);
    let mut out = String::from_str(pattern);
    let n = chars.len();
    if n == 0 || (chars[n - 1] != '/' && chars[n - 1] != '*') {
        out.push('/');
    }
    out
}

/// Puts a request path into the form in which it is matched.
pub fn normalize_path(path: String) -> (out: String)
    ensures
        out@ == normalized_path(path@),
{
    let chars = chars_of(path.as_str());
    let mut out = path;
    let n = chars.len();
    if n == 0 || chars[n - 1] != '/' {
        out.push('/');
    }
    out
}

/// Moves `pattern` under `prefix`.
pub fn join_paths(prefix: &str, pattern: &str) -> (out: String)
    ensures
        out@ == joined_path(prefix@, pattern@),
{
    let head = chars_of(prefix);
    let tail = chars_of(pattern);
    let mut end: usize = head.len();
    assert(head@.take(end as int) =~= head@);
    while end > 0 && head[end - 1] == '/'
        invariant
            end <= head.len(),
            trimmed_end(head@) == trimmed_end(head@.take(end as int)),
        decreases end,
    {
        assert(head@.take(end as int).drop_last() =~= head@.take(end - 1));
        end -= 1;
    }
    let mut start: usize = 0;
    assert(tail@.skip(0) =~= tail@);
    while start < tail.len() && tail[start] == '/'
        invariant
            start <= tail.len(),
            trimmed_start(tail@) == trimmed_start(tail@.skip(start as int)),
        decreases tail.len() - start,
    {
        assert(tail@.skip(start as int).skip(1) =~= tail@.skip(start + 1));
        start += 1;
    }
    let mut out = String::new();
    push_range(&mut out, &head, 0, end);
    out.push('/');
    push_range(&mut out, &tail, start, tail.len());
    assert(out@ =~= head@.take(end as int).push('/') + tail@.skip(start as int));
    out
}

} // verus!
