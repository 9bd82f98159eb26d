//! The path matcher: one pattern, compiled once into an anchored expression
//! and evaluated against whole paths.

use crate::engine::regex_accepts;
use crate::engine::regex_captures;
use crate::engine::regex_groups;
use crate::engine::regex_is_match;
use crate::engine::regex_new;
use crate::engine::regex_pattern;
use crate::engine::regex_test;
use crate::engine::texts;
use crate::params::bind;
use crate::params::bind_params;
use crate::params::Binding;
use crate::params::RouteParams;
use crate::pattern::names_of;
use crate::pattern::param_names;
use crate::pattern::parse;
use crate::pattern::parsed;
use crate::pattern::regex_source;
use crate::pattern::translate;
use crate::pattern::PatternError;
use regex::Regex;
use vstd::prelude::*;
use vstd::string::StringExecFns;

verus! {

/// The fault that keeps `pattern` from compiling, if there is one: the first
/// fault of its grammar, or else the engine's refusal of its expression.
pub open spec fn compile_fault(pattern: Seq<char>) -> Option<PatternError> {
    match parsed(pattern) {
        Err(e) => Some(e),
        Ok(segs) => if regex_accepts(regex_source(segs)) {
            None
        } else {
            Some(PatternError::Rejected)
        },
    }
}

/// The anchored expression that a well-formed `pattern` compiles to.
pub open spec fn source_of(pattern: Seq<char>) -> Seq<char> {
    regex_source(parsed(pattern)->Ok_0)
}

/// The names that a well-formed `pattern` binds, in capture order.
pub open spec fn names_in(pattern: Seq<char>) -> Seq<Seq<char>> {
    param_names(parsed(pattern)->Ok_0)
}

/// Whether `pattern` matches `path` as a whole.
pub open spec fn pattern_accepts(pattern: Seq<char>, path: Seq<char>) -> bool {
    regex_is_match(source_of(pattern), path)
}

/// The parameters that `pattern` extracts from `path`, when it matches.
pub open spec fn pattern_extracts(pattern: Seq<char>, path: Seq<char>) -> Option<Seq<Binding>> {
    match regex_groups(source_of(pattern), path) {
        Some(groups) => Some(bind(names_in(pattern), groups)),
        None => None,
    }
}

/// The fault of the first of the first `k` patterns that has one.
pub open spec fn first_fault(patterns: Seq<Seq<char>>, k: int) -> Option<PatternError>
    decreases k,
{
    if k <= 0 {
        None
    } else {
        match first_fault(patterns, k - 1) {
            Some(e) => Some(e),
            None => compile_fault(patterns[k - 1]),
        }
    }
}

/// Once a fault is found among the first `k` patterns, it stays the first
/// however many more are considered.
pub proof fn lemma_first_fault_stays(patterns: Seq<Seq<char>>, k: int, n: int)
    requires
        0 <= k <= n,
        first_fault(patterns, k) is Some,
    ensures
        first_fault(patterns, n) == first_fault(patterns, k),
    decreases n - k,
{
    if k < n {
        lemma_first_fault_stays(patterns, k, n - 1);
    }
}

/// The first fault among the first `k` patterns of a list depends on those
/// patterns alone.
pub proof fn lemma_first_fault_prefix(a: Seq<Seq<char>>, b: Seq<Seq<char>>, k: int)
    requires
        0 <= k <= a.len(),
        0 <= k <= b.len(),
        a.take(k) == b.take(k),
    ensures
        first_fault(a, k) == first_fault(b, k),
    decreases k,
{
    if k > 0 {
        assert(a.take(k - 1) =~= a.take(k).take(k - 1));
        assert(b.take(k - 1) =~= b.take(k).take(k - 1));
        lemma_first_fault_prefix(a, b, k - 1);
        assert(a[k - 1] == a.take(k)[k - 1]);
        assert(b[k - 1] == b.take(k)[k - 1]);
    }
}

/// The first fault of two lists in a row is that of the first list, and
/// where that has none, that of the second.
pub proof fn lemma_first_fault_concat(a: Seq<Seq<char>>, b: Seq<Seq<char>>)
    ensures
        first_fault(a + b, (a + b).len() as int) == (match first_fault(a, a.len() as int) {
            Some(e) => Some(e),
            None => first_fault(b, b.len() as int),
        }),
{
    assert((a + b).take(a.len() as int) =~= a);
    assert(a.take(a.len() as int) =~= a);
    lemma_first_fault_prefix(a + b, a, a.len() as int);
    if first_fault(a, a.len() as int) is Some {
        lemma_first_fault_stays(a + b, a.len() as int, (a + b).len() as int);
    } else {
        lemma_first_fault_after(a, b, b.len() as int);
    }
}

/// Where the first list has no fault, the first fault of two lists in a row
/// is that of the second, counted from where it starts.
proof fn lemma_first_fault_after(a: Seq<Seq<char>>, b: Seq<Seq<char>>, k: int)
    requires
        0 <= k <= b.len(),
        first_fault(a, a.len() as int) is None,
    ensures
        first_fault(a + b, a.len() + k) == first_fault(b, k),
    decreases k,
{
    if k > 0 {
        lemma_first_fault_after(a, b, k - 1);
        assert((a + b)[a.len() + k - 1] == b[k - 1]);
    } else {
        assert((a + b).take(a.len() as int) =~= a);
        assert(a.take(a.len() as int) =~= a);
        lemma_first_fault_prefix(a + b, a, a.len() as int);
    }
}

/// A compiled pattern.
#[derive(Debug)]
pub struct PathMatcher {
    pattern: String,
    names: Vec<String>,
    source: String,
    regex: Regex,
}

impl PathMatcher {
    /// The invariant of a compiled pattern: the pattern is well-formed, the
    /// names are those it binds, and the expression held is the one it
    /// translates to.
    pub closed spec fn wf(&self) -> bool {
        &&& parsed(self.pattern@) is Ok
        &&& texts(self.names@) == names_in(self.pattern@)
        &&& self.source@ == source_of(self.pattern@)
        &&& regex_pattern(self.regex) == source_of(self.pattern@)
    }

    /// The pattern as it was given.
    pub closed spec fn pattern_text(&self) -> Seq<char> {
        self.pattern@
    }

    /// Compiles `pattern`. Fails with the first fault of the pattern's
    /// grammar, or with `Rejected` when the engine refuses its expression.
    pub fn compile(pattern: &str) -> (r: Result<PathMatcher, PatternError>)
        ensures
            match r {
                Ok(m) => m.wf() && m.pattern_text() == pattern@ && compile_fault(pattern@) is None,
                Err(e) => compile_fault(pattern@) == Some(e),
            },
    {
        let segs = match parse(pattern) {
            Ok(segs) => segs,
            Err(e) => {
                return Err(e);
            },
        };
        let names = names_of(&segs);
        let source = translate(&segs);
        match regex_new(source.as_str()) {
            Ok(regex) => Ok(
                PathMatcher { pattern: String::from_str(pattern), names, source, regex },
            ),
            Err(_) => Err(PatternError::Rejected),
        }
    }

    /// The pattern as it was given.
    pub fn pattern(&self) -> (p: &String)
        ensures
            p@ == self.pattern_text(),
    {
        &self.pattern
    }

    /// The names that the pattern binds, in capture order.
    pub fn param_names(&self) -> (names: &Vec<String>)
        requires
            self.wf(),
        ensures
            texts(names@) == names_in(self.pattern_text()),
    {
        &self.names
    }

    /// The anchored expression that the pattern was compiled from.
    pub fn source(&self) -> (s: &String)
        requires
            self.wf(),
        ensures
            s@ == source_of(self.pattern_text()),
    {
        &self.source
    }

    /// Whether the pattern matches `path` as a whole.
    pub fn is_match(&self, path: &str) -> (hit: bool)
        requires
            self.wf(),
        ensures
            hit == pattern_accepts(self.pattern_text(), path@),
    {
        regex_test(&self.regex, path)
    }

    /// Matches `path` against the pattern and extracts its parameters.
    /// `None` exactly when the pattern does not match.
    pub fn match_path(&self, path: &str) -> (r: Option<RouteParams>)
        requires
            self.wf(),
        ensures
            r is Some <==> pattern_accepts(self.pattern_text(), path@),
            match r {
                Some(p) => pattern_extracts(self.pattern_text(), path@) == Some(p@),
                None => pattern_extracts(self.pattern_text(), path@) is None,
            },
    {
        match regex_captures(&self.regex, path) {
            Some(groups) => Some(bind_params(&self.names, &groups)),
            None => None,
        }
    }
}

} // verus!
