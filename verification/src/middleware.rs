//! Middleware: interceptors that run before routing or after handling, each
//! bound to all paths or to the paths that one pattern matches.

use crate::matcher::compile_fault;
use crate::matcher::first_fault;
use crate::matcher::lemma_first_fault_concat;
use crate::matcher::lemma_first_fault_stays;
use crate::order::reversed;
use crate::matcher::pattern_accepts;
use crate::matcher::source_of;
use crate::engine::texts;
use crate::route::marks;
use crate::matcher::PathMatcher;
use crate::paths::join_paths;
use crate::paths::joined_path;
use crate::paths::normalize_pattern;
use crate::paths::normalized_pattern;
use crate::pattern::wildcard_name;
use crate::pattern::PatternError;
use vstd::prelude::*;

verus! {

/// When a middleware runs.
#[derive(Clone, Copy, PartialEq, Eq, Structural, Debug)]
pub enum Phase {
    /// Before routing, on the request.
    Pre,
    /// After handling, on the response.
    Post,
}

/// The paths that a middleware is bound to.
#[derive(Debug)]
pub enum MiddlewareScope {
    /// Every path.
    Global,
    /// The paths that the pattern matches as a whole.
    PathAnchored(PathMatcher),
}

/// The mathematical value of a [`MiddlewareScope`].
pub enum ScopeModel {
    Global,
    PathAnchored(Seq<char>),
}

/// One registered middleware.
#[derive(Debug)]
pub struct MiddlewareEntry<H> {
    scope: MiddlewareScope,
    phase: Phase,
    needs_info: bool,
    handler: H,
    mount_depth: usize,
    origin: usize,
}

/// The mathematical value of a [`MiddlewareEntry`].
pub struct MiddlewareModel<H> {
    /// The paths the middleware is bound to.
    pub scope: ScopeModel,
    /// When it runs.
    pub phase: Phase,
    /// Whether it is handed the request's snapshot.
    pub needs_info: bool,
    /// The interceptor itself.
    pub handler: H,
    /// The number of mounts the entry has passed through.
    pub mount_depth: int,
    /// The data scope the entry was registered in.
    pub origin: int,
}

impl<H> View for MiddlewareEntry<H> {
    type V = MiddlewareModel<H>;

    closed spec fn view(&self) -> MiddlewareModel<H> {
        MiddlewareModel {
            scope: match self.scope {
                MiddlewareScope::Global => ScopeModel::Global,
                MiddlewareScope::PathAnchored(m) => ScopeModel::PathAnchored(m.pattern_text()),
            },
            phase: self.phase,
            needs_info: self.needs_info,
            handler: self.handler,
            mount_depth: self.mount_depth as int,
            origin: self.origin as int,
        }
    }
}

/// Whether a middleware bound to `scope` applies to `path`.
pub open spec fn scope_applies(scope: ScopeModel, path: Seq<char>) -> bool {
    match scope {
        ScopeModel::Global => true,
        ScopeModel::PathAnchored(pattern) => pattern_accepts(pattern, path),
    }
}

/// The expression that stands for a scope in an aggregate. A global scope
/// is never judged by the engine; the empty expression holds its place.
pub open spec fn scope_source(scope: ScopeModel) -> Seq<char> {
    match scope {
        ScopeModel::Global => Seq::empty(),
        ScopeModel::PathAnchored(pattern) => source_of(pattern),
    }
}

/// The pattern that a scope is anchored to once its router is mounted under
/// `prefix`: a global scope becomes everything under the prefix, an
/// anchored one moves under it.
pub open spec fn rebased_pattern(scope: ScopeModel, prefix: Seq<char>) -> Seq<char> {
    match scope {
        ScopeModel::Global => joined_path(prefix, wildcard_name()),
        ScopeModel::PathAnchored(pattern) => joined_path(prefix, pattern),
    }
}

/// An entry as it stands after its router was mounted under `prefix`,
/// behind `offset` data scopes of the parent.
pub open spec fn rebased_entry<H>(
    entry: MiddlewareModel<H>,
    prefix: Seq<char>,
    offset: int,
) -> MiddlewareModel<H> {
    MiddlewareModel {
        scope: ScopeModel::PathAnchored(rebased_pattern(entry.scope, prefix)),
        phase: entry.phase,
        needs_info: entry.needs_info,
        handler: entry.handler,
        mount_depth: entry.mount_depth + 1,
        origin: entry.origin + offset,
    }
}

/// The fault that keeps a scope from being anchored, if there is one.
pub open spec fn scope_fault(path: Option<Seq<char>>) -> Option<PatternError> {
    match path {
        Some(p) => compile_fault(normalized_pattern(p)),
        None => None,
    }
}

/// The scope that a middleware registered with `path` gets.
pub open spec fn scope_for(path: Option<Seq<char>>) -> ScopeModel {
    match path {
        Some(p) => ScopeModel::PathAnchored(normalized_pattern(p)),
        None => ScopeModel::Global,
    }
}

/// The text of an optional path.
pub open spec fn path_text(path: Option<&str>) -> Option<Seq<char>> {
    match path {
        Some(p) => Some(p@),
        None => None,
    }
}

impl<H> MiddlewareEntry<H> {
    /// The invariant of an entry: the pattern it is anchored to, if any, is
    /// compiled.
    pub closed spec fn wf(&self) -> bool {
        match self.scope {
            MiddlewareScope::Global => true,
            MiddlewareScope::PathAnchored(m) => m.wf() && compile_fault(m.pattern_text()) is None,
        }
    }

    /// An anchored entry's pattern has no fault.
    pub proof fn lemma_wf_pattern(&self)
        requires
            self.wf(),
        ensures
            self@.scope matches ScopeModel::PathAnchored(p) ==> compile_fault(p) is None,
    {
    }

    /// A middleware for `phase` that is bound to every path. It is
    /// registered in the root scope and not yet mounted anywhere.
    pub fn global(phase: Phase, needs_info: bool, handler: H) -> (entry: MiddlewareEntry<H>)
        ensures
            entry.wf(),
            entry@ == (MiddlewareModel {
                scope: ScopeModel::Global,
                phase,
                needs_info,
                handler,
                mount_depth: 0,
                origin: 0,
            }),
    {
        MiddlewareEntry {
            scope: MiddlewareScope::Global,
            phase,
            needs_info,
            handler,
            mount_depth: 0,
            origin: 0,
        }
    }

    /// A middleware for `phase` that is bound to the paths that `path`
    /// matches. It is registered in the root scope and not yet mounted
    /// anywhere. The path is put into normal form and compiled; its first
    /// fault, if it has one, is the error.
    pub fn anchored(phase: Phase, path: &str, needs_info: bool, handler: H) -> (r: Result<
        MiddlewareEntry<H>,
        PatternError,
    >)
        ensures
            match r {
                Ok(entry) => entry.wf() && entry@ == (MiddlewareModel {
                    scope: ScopeModel::PathAnchored(normalized_pattern(path@)),
                    phase,
                    needs_info,
                    handler,
                    mount_depth: 0,
                    origin: 0,
                }) && compile_fault(normalized_pattern(path@)) is None,
                Err(e) => compile_fault(normalized_pattern(path@)) == Some(e),
            },
    {
        let normal = normalize_pattern(path);
        match PathMatcher::compile(normal.as_str()) {
            Ok(matcher) => Ok(
                MiddlewareEntry {
                    scope: MiddlewareScope::PathAnchored(matcher),
                    phase,
                    needs_info,
                    handler,
                    mount_depth: 0,
                    origin: 0,
                },
            ),
            Err(e) => Err(e),
        }
    }

    /// A middleware for `phase`, bound to the paths that `path` matches, or
    /// to every path when there is no `path`.
    pub fn new(phase: Phase, path: Option<&str>, needs_info: bool, handler: H) -> (r: Result<
        MiddlewareEntry<H>,
        PatternError,
    >)
        ensures
            match r {
                Ok(entry) => entry.wf() && entry@ == (MiddlewareModel {
                    scope: scope_for(path_text(path)),
                    phase,
                    needs_info,
                    handler,
                    mount_depth: 0,
                    origin: 0,
                }) && scope_fault(path_text(path)) is None,
                Err(e) => scope_fault(path_text(path)) == Some(e),
            },
    {
        match path {
            Some(p) => MiddlewareEntry::anchored(phase, p, needs_info, handler),
            None => Ok(MiddlewareEntry::global(phase, needs_info, handler)),
        }
    }

    /// The entry as it stands under `prefix`, one mount deeper and `offset`
    /// scopes further on. The joined pattern is compiled afresh.
    pub(crate) fn rebase(self, prefix: &str, offset: usize) -> (r: Result<
        MiddlewareEntry<H>,
        PatternError,
    >)
        requires
            self.wf(),
            self@.mount_depth < usize::MAX,
            self@.origin + offset <= usize::MAX,
        ensures
            match r {
                Ok(entry) => entry.wf() && entry@ == rebased_entry(self@, prefix@, offset as int)
                    && compile_fault(rebased_pattern(self@.scope, prefix@)) is None,
                Err(e) => compile_fault(rebased_pattern(self@.scope, prefix@)) == Some(e),
            },
    {
        let moved = match &self.scope {
            MiddlewareScope::Global => {
                proof {
                    reveal_strlit("*");
                    assert("*"@ =~= wildcard_name());
                }
                join_paths(prefix, "*")
            },
            MiddlewareScope::PathAnchored(m) => join_paths(prefix, m.pattern().as_str()),
        };
        match PathMatcher::compile(moved.as_str()) {
            Ok(matcher) => Ok(
                MiddlewareEntry {
                    scope: MiddlewareScope::PathAnchored(matcher),
                    phase: self.phase,
                    needs_info: self.needs_info,
                    handler: self.handler,
                    mount_depth: self.mount_depth + 1,
                    origin: self.origin + offset,
                },
            ),
            Err(e) => Err(e),
        }
    }

    /// Whether the entry applies to `path`.
    pub fn applies(&self, path: &str) -> (hit: bool)
        requires
            self.wf(),
        ensures
            hit == scope_applies(self@.scope, path@),
    {
        match &self.scope {
            MiddlewareScope::Global => true,
            MiddlewareScope::PathAnchored(m) => m.is_match(path),
        }
    }

    /// The expression that stands for the entry in an aggregate.
    pub fn source(&self) -> (s: String)
        requires
            self.wf(),
        ensures
            s@ == scope_source(self@.scope),
    {
        match &self.scope {
            MiddlewareScope::Global => String::new(),
            MiddlewareScope::PathAnchored(m) => m.source().clone(),
        }
    }

    /// Whether the entry is bound to every path.
    pub fn is_global(&self) -> (b: bool)
        ensures
            b == (self@.scope is Global),
    {
        match &self.scope {
            MiddlewareScope::Global => true,
            MiddlewareScope::PathAnchored(_) => false,
        }
    }

    /// When the entry runs.
    pub fn phase(&self) -> (p: Phase)
        ensures
            p == self@.phase,
    {
        self.phase
    }

    /// Whether the entry is handed the request's snapshot.
    pub fn needs_info(&self) -> (b: bool)
        ensures
            b == self@.needs_info,
    {
        self.needs_info
    }

    /// The interceptor itself.
    pub fn handler(&self) -> (h: &H)
        ensures
            *h == self@.handler,
    {
        &self.handler
    }

    /// The pattern the entry is anchored to; `None` for a global entry.
    pub fn pattern(&self) -> (p: Option<&String>)
        ensures
            match p {
                Some(text) => self@.scope == ScopeModel::PathAnchored(text@),
                None => self@.scope == ScopeModel::Global,
            },
    {
        match &self.scope {
            MiddlewareScope::Global => None,
            MiddlewareScope::PathAnchored(m) => Some(m.pattern()),
        }
    }

    /// The number of mounts the entry has passed through.
    pub fn mount_depth(&self) -> (d: usize)
        ensures
            d == self@.mount_depth,
    {
        self.mount_depth
    }

    /// The data scope the entry was registered in.
    pub fn origin(&self) -> (s: usize)
        ensures
            s == self@.origin,
    {
        self.origin
    }
}

/// Whether an entry is as it was made: in the root scope, and not mounted
/// anywhere.
pub open spec fn is_fresh<H>(entry: MiddlewareModel<H>) -> bool {
    entry.mount_depth == 0 && entry.origin == 0
}

/// The models of a list of entries.
pub open spec fn entry_models<H>(entries: Seq<MiddlewareEntry<H>>) -> Seq<MiddlewareModel<H>> {
    entries.map_values(|e: MiddlewareEntry<H>| e@)
}

/// For each entry, whether it applies to `path`.
pub open spec fn applicability<H>(entries: Seq<MiddlewareModel<H>>, path: Seq<char>) -> Seq<bool> {
    Seq::new(entries.len(), |i: int| scope_applies(entries[i].scope, path))
}

/// The expressions that stand for the entries in an aggregate, in order.
pub open spec fn entry_sources<H>(entries: Seq<MiddlewareModel<H>>) -> Seq<Seq<char>> {
    entries.map_values(|e: MiddlewareModel<H>| scope_source(e.scope))
}

/// For each entry, whether it applies, given the verdicts of an aggregate
/// in which the entries' expressions stand from position `from` on: a
/// global entry applies, an anchored one if its position is marked.
pub open spec fn applicability_given<H>(
    entries: Seq<MiddlewareModel<H>>,
    hits: Seq<bool>,
    from: int,
) -> Seq<bool> {
    Seq::new(entries.len(), |i: int| entries[i].scope is Global || marks(hits, from + i))
}

/// The positions among the first `k` that `mask` marks, in ascending order.
pub open spec fn marked(mask: Seq<bool>, k: int) -> Seq<usize>
    decreases k,
{
    if k <= 0 {
        Seq::empty()
    } else if mask[k - 1] {
        marked(mask, k - 1).push((k - 1) as usize)
    } else {
        marked(mask, k - 1)
    }
}

/// The positions of the entries that apply to `path`, in registration
/// order.
pub open spec fn applicable<H>(entries: Seq<MiddlewareModel<H>>, path: Seq<char>) -> Seq<usize> {
    marked(applicability(entries, path), entries.len() as int)
}

/// The marked positions are exactly the positions below `k` that the mask
/// marks, and they come in ascending order.
pub proof fn lemma_marked(mask: Seq<bool>, k: int)
    requires
        0 <= k <= mask.len(),
        k <= usize::MAX,
    ensures
        forall|q: int|
            0 <= q < marked(mask, k).len() ==> (#[trigger] marked(mask, k)[q]) < k
                && mask[marked(mask, k)[q] as int],
        forall|a: int, b: int|
            0 <= a < b < marked(mask, k).len() ==> marked(mask, k)[a] < marked(mask, k)[b],
        forall|i: int| 0 <= i < k && mask[i] ==> marked(mask, k).contains(i as usize),
    decreases k,
{
    if k > 0 {
        lemma_marked(mask, k - 1);
        let before = marked(mask, k - 1);
        let now = marked(mask, k);
        assert forall|i: int| 0 <= i < k && mask[i] implies now.contains(i as usize) by {
            if i < k - 1 {
                let q = choose|q: int| 0 <= q < before.len() && before[q] == i as usize;
                assert(now[q] == i as usize);
            } else {
                assert(now[now.len() - 1] == i as usize);
            }
        }
    }
}

/// No more positions are marked than there are.
pub proof fn lemma_marked_len(mask: Seq<bool>, k: int)
    requires
        0 <= k,
    ensures
        marked(mask, k).len() <= k,
    decreases k,
{
    if k > 0 {
        lemma_marked_len(mask, k - 1);
    }
}

/// The positions that `mask` marks, in ascending order.
pub fn positions(mask: &Vec<bool>) -> (out: Vec<usize>)
    ensures
        out@ == marked(mask@, mask.len() as int),
{
    let mut out: Vec<usize> = Vec::new();
    let mut i: usize = 0;
    while i < mask.len()
        invariant
            i <= mask.len(),
            out@ == marked(mask@, i as int),
        decreases mask.len() - i,
    {
        if mask[i] {
            out.push(i);
        }
        i += 1;
    }
    out
}

/// For each of `entries`, whether it applies to `path`.
pub fn applicability_of<H>(entries: &Vec<MiddlewareEntry<H>>, path: &str) -> (mask: Vec<bool>)
    requires
        forall|i: int| 0 <= i < entries.len() ==> (#[trigger] entries[i]).wf(),
    ensures
        mask@ == applicability(entry_models(entries@), path@),
{
    let mut mask: Vec<bool> = Vec::new();
    let mut i: usize = 0;
    while i < entries.len()
        invariant
            i <= entries.len(),
            forall|i: int| 0 <= i < entries.len() ==> (#[trigger] entries[i]).wf(),
            mask.len() == i,
            forall|j: int|
                0 <= j < i ==> (#[trigger] mask[j]) == scope_applies(
                    entry_models(entries@)[j].scope,
                    path@,
                ),
        decreases entries.len() - i,
    {
        assert(entries[i as int].wf());
        assert(entry_models(entries@)[i as int] == entries[i as int]@);
        let hit = entries[i].applies(path);
        mask.push(hit);
        i += 1;
    }
    assert(mask@ =~= applicability(entry_models(entries@), path@));
    mask
}

/// The anchoring patterns that the entries get under `prefix`, in order.
pub open spec fn rebased_patterns<H>(entries: Seq<MiddlewareModel<H>>, prefix: Seq<char>) -> Seq<
    Seq<char>,
> {
    entries.map_values(|e: MiddlewareModel<H>| rebased_pattern(e.scope, prefix))
}

/// The entries as they stand after their router was mounted under `prefix`,
/// behind `offset` data scopes of the parent.
pub open spec fn rebased_entries<H>(
    entries: Seq<MiddlewareModel<H>>,
    prefix: Seq<char>,
    offset: int,
) -> Seq<MiddlewareModel<H>> {
    entries.map_values(|e: MiddlewareModel<H>| rebased_entry(e, prefix, offset))
}

/// Moves `entries` under `prefix` and puts them, in their order, after
/// those in `into`. Stops at the first pattern that does not compile.
fn rebase_into<H>(
    entries: Vec<MiddlewareEntry<H>>,
    prefix: &str,
    offset: usize,
    into: &mut Vec<MiddlewareEntry<H>>,
) -> (r: Result<(), PatternError>)
    requires
        forall|i: int| 0 <= i < entries.len() ==> (#[trigger] entries[i]).wf(),
        forall|i: int|
            0 <= i < entries.len() ==> (#[trigger] entries[i])@.mount_depth < usize::MAX
                && entries[i]@.origin + offset <= usize::MAX,
        forall|i: int| 0 <= i < old(into).len() ==> (#[trigger] old(into)[i]).wf(),
    ensures
        forall|i: int| 0 <= i < final(into).len() ==> (#[trigger] final(into)[i]).wf(),
        match r {
            Ok(()) => {
                &&& first_fault(
                    rebased_patterns(entry_models(entries@), prefix@),
                    entries.len() as int,
                ) is None
                &&& entry_models(final(into)@) == entry_models(old(into)@) + rebased_entries(
                    entry_models(entries@),
                    prefix@,
                    offset as int,
                )
            },
            Err(e) => first_fault(
                rebased_patterns(entry_models(entries@), prefix@),
                entries.len() as int,
            ) == Some(e),
        },
{
    let ghost models = entry_models(entries@);
    let ghost patterns = rebased_patterns(models, prefix@);
    let ghost moved = rebased_entries(models, prefix@, offset as int);
    let ghost start = entry_models(into@);
    let ghost total = entries.len();
    let mut rest = reversed(entries);
    let mut i: usize = 0;
    assert(entry_models(into@) =~= start + moved.take(0));
    while rest.len() > 0
        invariant
            models == entry_models(entries@),
            models.len() == total,
            total == entries.len(),
            patterns == rebased_patterns(models, prefix@),
            moved == rebased_entries(models, prefix@, offset as int),
            i + rest.len() == total,
            forall|j: int| 0 <= j < rest.len() ==> (#[trigger] rest[j]).wf(),
            forall|j: int|
                0 <= j < rest.len() ==> (#[trigger] rest[j])@ == models[total - 1 - j],
            forall|j: int|
                0 <= j < total ==> (#[trigger] models[j]).mount_depth < usize::MAX
                    && models[j].origin + offset <= usize::MAX,
            forall|j: int| 0 <= j < into.len() ==> (#[trigger] into[j]).wf(),
            first_fault(patterns, i as int) is None,
            entry_models(into@) == start + moved.take(i as int),
        decreases rest.len(),
    {
        let ghost before = entry_models(into@);
        let entry = rest.pop().unwrap();
        assert(entry@ == models[i as int]);
        assert(patterns[i as int] == rebased_pattern(models[i as int].scope, prefix@));
        match entry.rebase(prefix, offset) {
            Ok(placed) => {
                assert(placed@ == moved[i as int]);
                into.push(placed);
                assert(entry_models(into@) =~= before.push(moved[i as int]));
                assert(moved.take(i + 1) =~= moved.take(i as int).push(moved[i as int]));
            },
            Err(e) => {
                proof {
                    lemma_first_fault_stays(patterns, i + 1, total as int);
                }
                return Err(e);
            },
        }
        i += 1;
    }
    assert(moved.take(i as int) =~= moved);
    Ok(())
}

/// The middleware of a router: the entries of each phase, in the order in
/// which they were registered.
#[derive(Debug)]
pub struct MiddlewareChain<H> {
    pre: Vec<MiddlewareEntry<H>>,
    post: Vec<MiddlewareEntry<H>>,
}

/// The mathematical value of a [`MiddlewareChain`].
pub struct ChainModel<H> {
    /// The pre-middleware, in registration order.
    pub pre: Seq<MiddlewareModel<H>>,
    /// The post-middleware, in registration order.
    pub post: Seq<MiddlewareModel<H>>,
}

impl<H> ChainModel<H> {
    /// The entries of `phase`.
    pub open spec fn of(self, phase: Phase) -> Seq<MiddlewareModel<H>> {
        match phase {
            Phase::Pre => self.pre,
            Phase::Post => self.post,
        }
    }
}

/// Whether every entry stands in the list of its phase.
pub open spec fn phases_agree<H>(chain: ChainModel<H>) -> bool {
    &&& forall|i: int| 0 <= i < chain.pre.len() ==> (#[trigger] chain.pre[i]).phase == Phase::Pre
    &&& forall|i: int| 0 <= i < chain.post.len() ==> (#[trigger] chain.post[i]).phase == Phase::Post
}

/// The chain with `entry` registered: after the entries of its phase.
pub open spec fn with_entry<H>(chain: ChainModel<H>, entry: MiddlewareModel<H>) -> ChainModel<H> {
    match entry.phase {
        Phase::Pre => ChainModel { pre: chain.pre.push(entry), post: chain.post },
        Phase::Post => ChainModel { pre: chain.pre, post: chain.post.push(entry) },
    }
}

/// Every pattern that has to compile for `chain` to be mounted under
/// `prefix`, in the order in which they are compiled: first those of the
/// pre-middleware, then those of the post-middleware.
pub open spec fn chain_patterns<H>(chain: ChainModel<H>, prefix: Seq<char>) -> Seq<Seq<char>> {
    rebased_patterns(chain.pre, prefix) + rebased_patterns(chain.post, prefix)
}

impl<H> View for MiddlewareChain<H> {
    type V = ChainModel<H>;

    closed spec fn view(&self) -> ChainModel<H> {
        ChainModel { pre: entry_models(self.pre@), post: entry_models(self.post@) }
    }
}

impl<H> MiddlewareChain<H> {
    /// The invariant of a chain: every entry is well-formed and stands in
    /// the list of its phase.
    pub closed spec fn wf(&self) -> bool {
        &&& forall|i: int| 0 <= i < self.pre.len() ==> (#[trigger] self.pre[i]).wf()
        &&& forall|i: int| 0 <= i < self.post.len() ==> (#[trigger] self.post[i]).wf()
        &&& phases_agree(self@)
    }

    /// In a well-formed chain every entry stands in the list of its phase.
    pub proof fn lemma_wf_phases(&self)
        requires
            self.wf(),
        ensures
            phases_agree(self@),
    {
    }

    /// A chain without entries.
    pub fn new() -> (c: MiddlewareChain<H>)
        ensures
            c.wf(),
            c@.pre == Seq::<MiddlewareModel<H>>::empty(),
            c@.post == Seq::<MiddlewareModel<H>>::empty(),
    {
        let c = MiddlewareChain { pre: Vec::new(), post: Vec::new() };
        assert(c@.pre =~= Seq::<MiddlewareModel<H>>::empty());
        assert(c@.post =~= Seq::<MiddlewareModel<H>>::empty());
        c
    }

    /// Registers `entry` after the entries of its phase already there.
    pub fn register(&mut self, entry: MiddlewareEntry<H>)
        requires
            old(self).wf(),
            entry.wf(),
        ensures
            final(self).wf(),
            final(self)@ == with_entry(old(self)@, entry@),
    {
        let ghost before = self@;
        let ghost model = entry@;
        match entry.phase() {
            Phase::Pre => {
                self.pre.push(entry);
                assert(self@.pre =~= before.pre.push(model));
            },
            Phase::Post => {
                self.post.push(entry);
                assert(self@.post =~= before.post.push(model));
            },
        }
    }

    /// The number of entries of `phase`.
    pub fn len(&self, phase: Phase) -> (n: usize)
        ensures
            n == self@.of(phase).len(),
    {
        match phase {
            Phase::Pre => self.pre.len(),
            Phase::Post => self.post.len(),
        }
    }

    /// The entry of `phase` at position `i`.
    pub fn entry(&self, phase: Phase, i: usize) -> (e: &MiddlewareEntry<H>)
        requires
            self.wf(),
            i < self@.of(phase).len(),
        ensures
            e.wf(),
            e@ == self@.of(phase)[i as int],
    {
        match phase {
            Phase::Pre => &self.pre[i],
            Phase::Post => &self.post[i],
        }
    }

    /// The positions of the entries of `phase` that apply to `path`, in
    /// registration order.
    pub fn applicable(&self, path: &str, phase: Phase) -> (list: Vec<usize>)
        requires
            self.wf(),
        ensures
            list@ == applicable(self@.of(phase), path@),
    {
        let mask = match phase {
            Phase::Pre => applicability_of(&self.pre, path),
            Phase::Post => applicability_of(&self.post, path),
        };
        positions(&mask)
    }

    /// The expressions that stand for the entries of `phase` in an
    /// aggregate, in order.
    pub fn sources(&self, phase: Phase) -> (out: Vec<String>)
        requires
            self.wf(),
        ensures
            texts(out@) == entry_sources(self@.of(phase)),
    {
        let n = self.len(phase);
        let mut out: Vec<String> = Vec::new();
        let mut i: usize = 0;
        while i < n
            invariant
                self.wf(),
                n == self@.of(phase).len(),
                i <= n,
                out.len() == i,
                forall|j: int|
                    0 <= j < i ==> (#[trigger] out[j])@ == scope_source(self@.of(phase)[j].scope),
            decreases n - i,
        {
            out.push(self.entry(phase, i).source());
            i += 1;
        }
        assert(texts(out@) =~= entry_sources(self@.of(phase)));
        out
    }

    /// The positions of the entries of `phase` that apply, given the
    /// verdicts of an aggregate in which their expressions stand from
    /// position `from` on.
    pub fn applicable_given(&self, phase: Phase, hits: &Vec<bool>, from: usize) -> (list: Vec<usize>)
        requires
            self.wf(),
        ensures
            list@ == marked(
                applicability_given(self@.of(phase), hits@, from as int),
                self@.of(phase).len() as int,
            ),
    {
        let n = self.len(phase);
        let mut mask: Vec<bool> = Vec::new();
        let mut i: usize = 0;
        while i < n
            invariant
                self.wf(),
                n == self@.of(phase).len(),
                i <= n,
                mask.len() == i,
                forall|j: int|
                    0 <= j < i ==> (#[trigger] mask[j]) == (self@.of(phase)[j].scope is Global
                        || marks(hits@, from + j)),
            decreases n - i,
        {
            let marked_here = from <= hits.len() && i < hits.len() - from && hits[from + i];
            let applies = self.entry(phase, i).is_global() || marked_here;
            mask.push(applies);
            i += 1;
        }
        assert(mask@ =~= applicability_given(self@.of(phase), hits@, from as int));
        positions(&mask)
    }

    /// The chain with the entries of `child` moved under `prefix` and put,
    /// in their order, after those of their phase already there. Each is
    /// one mount deeper and `offset` data scopes further on. A global entry
    /// becomes anchored to everything under the prefix. Stops at the first
    /// pattern that does not compile.
    pub(crate) fn absorb(self, child: MiddlewareChain<H>, prefix: &str, offset: usize) -> (r:
        Result<MiddlewareChain<H>, PatternError>)
        requires
            self.wf(),
            child.wf(),
            forall|i: int|
                0 <= i < child@.pre.len() ==> (#[trigger] child@.pre[i]).mount_depth < usize::MAX
                    && child@.pre[i].origin + offset <= usize::MAX,
            forall|i: int|
                0 <= i < child@.post.len() ==> (#[trigger] child@.post[i]).mount_depth
                    < usize::MAX && child@.post[i].origin + offset <= usize::MAX,
        ensures
            match r {
                Ok(chain) => {
                    &&& chain.wf()
                    &&& first_fault(
                        chain_patterns(child@, prefix@),
                        chain_patterns(child@, prefix@).len() as int,
                    ) is None
                    &&& chain@ == (ChainModel {
                        pre: self@.pre + rebased_entries(child@.pre, prefix@, offset as int),
                        post: self@.post + rebased_entries(child@.post, prefix@, offset as int),
                    })
                },
                Err(e) => first_fault(
                    chain_patterns(child@, prefix@),
                    chain_patterns(child@, prefix@).len() as int,
                ) == Some(e),
            },
    {
        let ghost incoming = child@;
        let ghost before = self@;
        let MiddlewareChain { pre, post } = child;
        let mut out = self;
        proof {
            lemma_first_fault_concat(
                rebased_patterns(incoming.pre, prefix@),
                rebased_patterns(incoming.post, prefix@),
            );
            assert forall|i: int| 0 <= i < pre.len() implies (#[trigger] pre[i])@.mount_depth
                < usize::MAX && pre[i]@.origin + offset <= usize::MAX by {
                assert(incoming.pre[i] == pre[i]@);
            }
            assert forall|i: int| 0 <= i < post.len() implies (#[trigger] post[i])@.mount_depth
                < usize::MAX && post[i]@.origin + offset <= usize::MAX by {
                assert(incoming.post[i] == post[i]@);
            }
        }
        match rebase_into(pre, prefix, offset, &mut out.pre) {
            Ok(()) => {},
            Err(e) => {
                return Err(e);
            },
        }
        match rebase_into(post, prefix, offset, &mut out.post) {
            Ok(()) => {},
            Err(e) => {
                return Err(e);
            },
        }
        assert(phases_agree(out@)) by {
            assert forall|i: int| 0 <= i < out@.pre.len() implies (#[trigger] out@.pre[i]).phase
                == Phase::Pre by {
                if i >= before.pre.len() {
                    assert(incoming.pre[i - before.pre.len()].phase == Phase::Pre);
                } else {
                    assert(before.pre[i].phase == Phase::Pre);
                }
            }
            assert forall|i: int| 0 <= i < out@.post.len() implies (#[trigger] out@.post[i]).phase
                == Phase::Post by {
                if i >= before.post.len() {
                    assert(incoming.post[i - before.post.len()].phase == Phase::Post);
                } else {
                    assert(before.post[i].phase == Phase::Post);
                }
            }
        }
        Ok(out)
    }
}

/// A middleware that runs before routing.
#[derive(Debug)]
pub struct PreMiddleware<H> {
    entry: MiddlewareEntry<H>,
}

/// A middleware that runs after handling.
#[derive(Debug)]
pub struct PostMiddleware<H> {
    entry: MiddlewareEntry<H>,
}

impl<H> View for PreMiddleware<H> {
    type V = MiddlewareModel<H>;

    closed spec fn view(&self) -> MiddlewareModel<H> {
        self.entry@
    }
}

impl<H> View for PostMiddleware<H> {
    type V = MiddlewareModel<H>;

    closed spec fn view(&self) -> MiddlewareModel<H> {
        self.entry@
    }
}

impl<H> PreMiddleware<H> {
    /// The invariant of a pre-middleware: a well-formed entry of the pre
    /// phase.
    pub closed spec fn wf(&self) -> bool {
        self.entry.wf() && self.entry@.phase == Phase::Pre && is_fresh(self.entry@)
    }

    /// A pre-middleware with `handler`, bound to the paths that `path`
    /// matches. Fails with the first fault of the pattern.
    pub fn new(path: &str, handler: H) -> (r: Result<PreMiddleware<H>, PatternError>)
        ensures
            match r {
                Ok(m) => m.wf() && m@ == (MiddlewareModel {
                    scope: ScopeModel::PathAnchored(normalized_pattern(path@)),
                    phase: Phase::Pre,
                    needs_info: false,
                    handler,
                    mount_depth: 0,
                    origin: 0,
                }),
                Err(e) => compile_fault(normalized_pattern(path@)) == Some(e),
            },
    {
        match MiddlewareEntry::anchored(Phase::Pre, path, false, handler) {
            Ok(entry) => Ok(PreMiddleware { entry }),
            Err(e) => Err(e),
        }
    }

    /// A pre-middleware with `handler`, bound to every path.
    pub fn global(handler: H) -> (m: PreMiddleware<H>)
        ensures
            m.wf(),
            m@ == (MiddlewareModel {
                scope: ScopeModel::Global,
                phase: Phase::Pre,
                needs_info: false,
                handler,
                mount_depth: 0,
                origin: 0,
            }),
    {
        PreMiddleware { entry: MiddlewareEntry::global(Phase::Pre, false, handler) }
    }

    /// The entry that a router keeps for this middleware.
    pub fn into_entry(self) -> (entry: MiddlewareEntry<H>)
        requires
            self.wf(),
        ensures
            entry.wf(),
            entry@ == self@,
            entry@.phase == Phase::Pre,
            is_fresh(entry@),
    {
        self.entry
    }
}

impl<H> PostMiddleware<H> {
    /// The invariant of a post-middleware: a well-formed entry of the post
    /// phase.
    pub closed spec fn wf(&self) -> bool {
        self.entry.wf() && self.entry@.phase == Phase::Post && is_fresh(self.entry@)
    }

    /// A post-middleware with `handler`, bound to the paths that `path`
    /// matches; `needs_info` says whether it is handed the request's
    /// snapshot. Fails with the first fault of the pattern.
    pub fn new(path: &str, needs_info: bool, handler: H) -> (r: Result<
        PostMiddleware<H>,
        PatternError,
    >)
        ensures
            match r {
                Ok(m) => m.wf() && m@ == (MiddlewareModel {
                    scope: ScopeModel::PathAnchored(normalized_pattern(path@)),
                    phase: Phase::Post,
                    needs_info,
                    handler,
                    mount_depth: 0,
                    origin: 0,
                }),
                Err(e) => compile_fault(normalized_pattern(path@)) == Some(e),
            },
    {
        match MiddlewareEntry::anchored(Phase::Post, path, needs_info, handler) {
            Ok(entry) => Ok(PostMiddleware { entry }),
            Err(e) => Err(e),
        }
    }

    /// A post-middleware with `handler`, bound to every path.
    pub fn global(needs_info: bool, handler: H) -> (m: PostMiddleware<H>)
        ensures
            m.wf(),
            m@ == (MiddlewareModel {
                scope: ScopeModel::Global,
                phase: Phase::Post,
                needs_info,
                handler,
                mount_depth: 0,
                origin: 0,
            }),
    {
        PostMiddleware { entry: MiddlewareEntry::global(Phase::Post, needs_info, handler) }
    }

    /// The entry that a router keeps for this middleware.
    pub fn into_entry(self) -> (entry: MiddlewareEntry<H>)
        requires
            self.wf(),
        ensures
            entry.wf(),
            entry@ == self@,
            entry@.phase == Phase::Post,
            is_fresh(entry@),
    {
        self.entry
    }
}

/// A middleware of either phase, as it is handed to a router.
#[derive(Debug)]
pub enum Middleware<H> {
    Pre(PreMiddleware<H>),
    Post(PostMiddleware<H>),
}

impl<H> Middleware<H> {
    /// The invariant of the middleware held.
    pub open spec fn wf(&self) -> bool {
        match self {
            Middleware::Pre(m) => m.wf(),
            Middleware::Post(m) => m.wf(),
        }
    }

    /// The model of the middleware held.
    pub open spec fn model(&self) -> MiddlewareModel<H> {
        match self {
            Middleware::Pre(m) => m@,
            Middleware::Post(m) => m@,
        }
    }

    /// A pre-middleware bound to every path.
    pub fn pre(handler: H) -> (m: Middleware<H>)
        ensures
            m.wf(),
            m.model() == (MiddlewareModel {
                scope: ScopeModel::Global,
                phase: Phase::Pre,
                needs_info: false,
                handler,
                mount_depth: 0,
                origin: 0,
            }),
    {
        Middleware::Pre(PreMiddleware::global(handler))
    }

    /// A post-middleware bound to every path.
    pub fn post(handler: H) -> (m: Middleware<H>)
        ensures
            m.wf(),
            m.model() == (MiddlewareModel {
                scope: ScopeModel::Global,
                phase: Phase::Post,
                needs_info: false,
                handler,
                mount_depth: 0,
                origin: 0,
            }),
    {
        Middleware::Post(PostMiddleware::global(false, handler))
    }

    /// A post-middleware bound to every path that is handed the request's
    /// snapshot.
    pub fn post_with_info(handler: H) -> (m: Middleware<H>)
        ensures
            m.wf(),
            m.model() == (MiddlewareModel {
                scope: ScopeModel::Global,
                phase: Phase::Post,
                needs_info: true,
                handler,
                mount_depth: 0,
                origin: 0,
            }),
    {
        Middleware::Post(PostMiddleware::global(true, handler))
    }

    /// A pre-middleware bound to the paths that `path` matches.
    pub fn pre_with_path(path: &str, handler: H) -> (r: Result<Middleware<H>, PatternError>)
        ensures
            match r {
                Ok(m) => m.wf() && m.model() == (MiddlewareModel {
                    scope: ScopeModel::PathAnchored(normalized_pattern(path@)),
                    phase: Phase::Pre,
                    needs_info: false,
                    handler,
                    mount_depth: 0,
                    origin: 0,
                }),
                Err(e) => compile_fault(normalized_pattern(path@)) == Some(e),
            },
    {
        match PreMiddleware::new(path, handler) {
            Ok(m) => Ok(Middleware::Pre(m)),
            Err(e) => Err(e),
        }
    }

    /// A post-middleware bound to the paths that `path` matches.
    pub fn post_with_path(path: &str, handler: H) -> (r: Result<Middleware<H>, PatternError>)
        ensures
            match r {
                Ok(m) => m.wf() && m.model() == (MiddlewareModel {
                    scope: ScopeModel::PathAnchored(normalized_pattern(path@)),
                    phase: Phase::Post,
                    needs_info: false,
                    handler,
                    mount_depth: 0,
                    origin: 0,
                }),
                Err(e) => compile_fault(normalized_pattern(path@)) == Some(e),
            },
    {
        match PostMiddleware::new(path, false, handler) {
            Ok(m) => Ok(Middleware::Post(m)),
            Err(e) => Err(e),
        }
    }

    /// A post-middleware bound to the paths that `path` matches that is
    /// handed the request's snapshot.
    pub fn post_with_info_with_path(path: &str, handler: H) -> (r: Result<
        Middleware<H>,
        PatternError,
    >)
        ensures
            match r {
                Ok(m) => m.wf() && m.model() == (MiddlewareModel {
                    scope: ScopeModel::PathAnchored(normalized_pattern(path@)),
                    phase: Phase::Post,
                    needs_info: true,
                    handler,
                    mount_depth: 0,
                    origin: 0,
                }),
                Err(e) => compile_fault(normalized_pattern(path@)) == Some(e),
            },
    {
        match PostMiddleware::new(path, true, handler) {
            Ok(m) => Ok(Middleware::Post(m)),
            Err(e) => Err(e),
        }
    }

    /// The entry that a router keeps for this middleware.
    pub fn into_entry(self) -> (entry: MiddlewareEntry<H>)
        requires
            self.wf(),
        ensures
            entry.wf(),
            entry@ == self.model(),
            is_fresh(entry@),
            self matches Middleware::Pre(_) ==> entry@.phase == Phase::Pre,
            self matches Middleware::Post(_) ==> entry@.phase == Phase::Post,
    {
        match self {
            Middleware::Pre(m) => m.into_entry(),
            Middleware::Post(m) => m.into_entry(),
        }
    }
}

} // verus!
