//! Route patterns: their grammar, and the anchored expression that the
//! engine is given for each.
//!
//! A pattern is a path template. Cut at every `/`, it falls into segments:
//! a literal segment stands for itself, `:name` stands for one non-empty
//! path segment and binds it to `name`, and `*`, which may only come last,
//! stands for whatever is left of the path.

use crate::engine::escaped;
use crate::engine::regex_escape;
use crate::engine::texts;
use crate::text::chars_of;
use crate::text::occurs_from;
use crate::text::string_from;
use crate::text::string_of;
use vstd::prelude::*;
use vstd::string::StringExecFns;

verus! {

/// One segment of a parsed pattern.
#[derive(Debug)]
pub enum Segment {
    /// Text that a path must hold as it stands.
    Literal(String),
    /// A named parameter: one non-empty path segment.
    Param(String),
    /// The rest of the path, whatever it holds.
    Wildcard,
}

/// The mathematical value of a [`Segment`].
pub enum SegmentModel {
    Literal(Seq<char>),
    Param(Seq<char>),
    Wildcard,
}

impl View for Segment {
    type V = SegmentModel;

    open spec fn view(&self) -> SegmentModel {
        match self {
            Segment::Literal(t) => SegmentModel::Literal(t@),
            Segment::Param(n) => SegmentModel::Param(n@),
            Segment::Wildcard => SegmentModel::Wildcard,
        }
    }
}

/// Why a pattern was turned down. `segment` counts the pattern's segments
/// from zero.
#[derive(Clone, Copy, PartialEq, Eq, Structural, Debug)]
pub enum PatternError {
    /// A `:` with no name behind it.
    EmptyParamName { segment: usize },
    /// A `:` or `*` at a place inside a segment where it means nothing.
    MisplacedMarker { segment: usize },
    /// A `*` segment that is not the pattern's last.
    WildcardNotLast { segment: usize },
    /// A parameter name that an earlier segment already binds.
    DuplicateParam { segment: usize },
    /// The engine refused the expression the pattern translates to.
    Rejected,
}

/// The models of a list of segments.
pub open spec fn segment_models(segs: Seq<Segment>) -> Seq<SegmentModel> {
    segs.map_values(|s: Segment| s@)
}

/// The character sequences held by a list of character vectors.
pub open spec fn rows(items: Seq<Vec<char>>) -> Seq<Seq<char>> {
    items.map_values(|v: Vec<char>| v@)
}

/// `s` cut at every `/`. The pieces hold no `/`, and there is always at
/// least one: the empty text gives one empty piece.
pub open spec fn split(s: Seq<char>) -> Seq<Seq<char>>
    decreases s.len(),
{
    if s.len() == 0 {
        seq![Seq::empty()]
    } else {
        let head = split(s.drop_last());
        if s.last() == '/' {
            head.push(Seq::empty())
        } else {
            head.drop_last().push(head.last().push(s.last()))
        }
    }
}

/// Whether a marker character occurs in `s`.
pub open spec fn has_marker(s: Seq<char>) -> bool {
    s.contains(':') || s.contains('*')
}

/// What the raw segment `seg`, the `k`-th of its pattern, stands for.
pub open spec fn classify(seg: Seq<char>, k: int) -> Result<SegmentModel, PatternError> {
    if seg.len() > 0 && seg[0] == ':' {
        if seg.len() == 1 {
            Err(PatternError::EmptyParamName { segment: k as usize })
        } else if has_marker(seg.skip(1)) {
            Err(PatternError::MisplacedMarker { segment: k as usize })
        } else {
            Ok(SegmentModel::Param(seg.skip(1)))
        }
    } else if seg.len() == 1 && seg[0] == '*' {
        Ok(SegmentModel::Wildcard)
    } else if has_marker(seg) {
        Err(PatternError::MisplacedMarker { segment: k as usize })
    } else {
        Ok(SegmentModel::Literal(seg))
    }
}

/// Whether one of `segs` is a parameter called `name`.
pub open spec fn binds(segs: Seq<SegmentModel>, name: Seq<char>) -> bool {
    exists|i: int| 0 <= i < segs.len() && #[trigger] segs[i] == SegmentModel::Param(name)
}

/// The outcome of reading the first `k` raw segments of a pattern that has
/// `raw` for its segments: the segments read, or the first fault met.
pub open spec fn parse_prefix(raw: Seq<Seq<char>>, k: int) -> Result<
    Seq<SegmentModel>,
    PatternError,
>
    decreases k,
{
    if k <= 0 {
        Ok(Seq::empty())
    } else {
        match parse_prefix(raw, k - 1) {
            Err(e) => Err(e),
            Ok(done) => match classify(raw[k - 1], k - 1) {
                Err(e) => Err(e),
                Ok(SegmentModel::Wildcard) => if k < raw.len() {
                    Err(PatternError::WildcardNotLast { segment: (k - 1) as usize })
                } else {
                    Ok(done.push(SegmentModel::Wildcard))
                },
                Ok(SegmentModel::Param(name)) => if binds(done, name) {
                    Err(PatternError::DuplicateParam { segment: (k - 1) as usize })
                } else {
                    Ok(done.push(SegmentModel::Param(name)))
                },
                Ok(SegmentModel::Literal(t)) => Ok(done.push(SegmentModel::Literal(t))),
            },
        }
    }
}

/// The segments of `pattern`, or the first fault in it.
pub open spec fn parsed(pattern: Seq<char>) -> Result<Seq<SegmentModel>, PatternError> {
    parse_prefix(split(pattern), split(pattern).len() as int)
}

/// The name of the wildcard's capture.
pub open spec fn wildcard_name() -> Seq<char> {
    seq!['*']
}

/// The names that the segments bind, in the order of their captures.
pub open spec fn param_names(segs: Seq<SegmentModel>) -> Seq<Seq<char>>
    decreases segs.len(),
{
    if segs.len() == 0 {
        Seq::empty()
    } else {
        match segs.last() {
            SegmentModel::Literal(_) => param_names(segs.drop_last()),
            SegmentModel::Param(n) => param_names(segs.drop_last()).push(n),
            SegmentModel::Wildcard => param_names(segs.drop_last()).push(wildcard_name()),
        }
    }
}

/// What opens every translated expression: `.` matches any character, and
/// the match starts where the text starts.
pub open spec fn source_opening() -> Seq<char> {
    seq!['(', '?', 's', ')', '^']
}

/// The expression for one parameter: one or more characters other than `/`.
pub open spec fn param_piece() -> Seq<char> {
    seq!['(', '[', '^', '/', ']', '+', ')']
}

/// The expression for the wildcard: any text at all.
pub open spec fn wildcard_piece() -> Seq<char> {
    seq!['(', '.', '*', ')']
}

/// The expression that one segment translates to.
pub open spec fn piece(seg: SegmentModel) -> Seq<char> {
    match seg {
        SegmentModel::Literal(t) => escaped(t),
        SegmentModel::Param(_) => param_piece(),
        SegmentModel::Wildcard => wildcard_piece(),
    }
}

/// The pieces of `segs`, with a `/` between neighbours.
pub open spec fn joined(segs: Seq<SegmentModel>) -> Seq<char>
    decreases segs.len(),
{
    if segs.len() == 0 {
        Seq::empty()
    } else if segs.len() == 1 {
        piece(segs[0])
    } else {
        joined(segs.drop_last()).push('/') + piece(segs.last())
    }
}

/// The anchored expression that `segs` translate to: it matches a path only
/// as a whole.
pub open spec fn regex_source(segs: Seq<SegmentModel>) -> Seq<char> {
    (source_opening() + joined(segs)).push('$')
}

/// Reading stops at the first fault: once a prefix fails, every longer
/// prefix fails in the same way.
pub proof fn lemma_parse_prefix_error_stays(raw: Seq<Seq<char>>, k: int, n: int)
    requires
        0 <= k <= n,
        parse_prefix(raw, k) is Err,
    ensures
        parse_prefix(raw, n) == parse_prefix(raw, k),
    decreases n - k,
{
    if k < n {
        lemma_parse_prefix_error_stays(raw, k, n - 1);
    }
}

/// The text that `pieces` spell with a `/` put between neighbours.
pub open spec fn rejoined(pieces: Seq<Seq<char>>) -> Seq<char>
    decreases pieces.len(),
{
    if pieces.len() == 0 {
        Seq::empty()
    } else if pieces.len() == 1 {
        pieces[0]
    } else {
        rejoined(pieces.drop_last()).push('/') + pieces.last()
    }
}

/// Cutting loses nothing. A text falls into at least one piece, no piece
/// holds a `/`, and the pieces with a `/` between neighbours spell the
/// text again.
pub proof fn law_split_cuts_at_slashes(s: Seq<char>)
    ensures
        split(s).len() >= 1,
        forall|i: int| 0 <= i < split(s).len() ==> !(#[trigger] split(s)[i]).contains('/'),
        rejoined(split(s)) == s,
    decreases s.len(),
{
    if s.len() == 0 {
        assert(rejoined(split(s)) =~= s);
    } else {
        let t = s.drop_last();
        let c = s.last();
        let head = split(t);
        let now = split(s);
        law_split_cuts_at_slashes(t);
        assert(s =~= t.push(c));
        if c == '/' {
            assert(now.drop_last() =~= head);
            assert(rejoined(now) =~= t.push('/'));
        } else {
            let grown = head.last().push(c);
            assert forall|i: int| 0 <= i < now.len() implies !(#[trigger] now[i]).contains('/') by {
                if i < now.len() - 1 {
                    assert(now[i] == head[i]);
                } else {
                    if grown.contains('/') {
                        let at = grown.index_of('/');
                        assert(head.last()[at] == '/');
                    }
                }
            }
            if head.len() == 1 {
                assert(rejoined(now) =~= t.push(c));
            } else {
                assert(now.drop_last() =~= head.drop_last());
                assert(rejoined(now) =~= rejoined(head).push(c));
            }
        }
    }
}

/// Whether one of `segs` is the wildcard.
pub open spec fn has_wildcard(segs: Seq<SegmentModel>) -> bool {
    exists|i: int| 0 <= i < segs.len() && (#[trigger] segs[i]) is Wildcard
}

/// The names bound are the names of the parameters, and the wildcard's
/// name if the wildcard is among the segments.
proof fn lemma_param_names_contains(segs: Seq<SegmentModel>, name: Seq<char>)
    ensures
        param_names(segs).contains(name) <==> binds(segs, name) || (name == wildcard_name()
            && has_wildcard(segs)),
    decreases segs.len(),
{
    if segs.len() > 0 {
        let init = segs.drop_last();
        let last = segs.last();
        let names = param_names(init);
        lemma_param_names_contains(init, name);
        if binds(init, name) {
            let i = choose|i: int| 0 <= i < init.len() && #[trigger] init[i] == SegmentModel::Param(name);
            assert(segs[i] == SegmentModel::Param(name));
        }
        if has_wildcard(init) {
            let i = choose|i: int| 0 <= i < init.len() && (#[trigger] init[i]) is Wildcard;
            assert(segs[i] is Wildcard);
        }
        if binds(segs, name) && !binds(init, name) {
            let i = choose|i: int| 0 <= i < segs.len() && #[trigger] segs[i] == SegmentModel::Param(name);
            if i < init.len() {
                assert(init[i] == SegmentModel::Param(name));
            }
        }
        if has_wildcard(segs) && !has_wildcard(init) {
            let i = choose|i: int| 0 <= i < segs.len() && (#[trigger] segs[i]) is Wildcard;
            if i < init.len() {
                assert(init[i] is Wildcard);
            }
        }
        if last == SegmentModel::Param(name) {
            assert(segs[segs.len() - 1] == SegmentModel::Param(name));
        }
        if last is Wildcard {
            assert(segs[segs.len() - 1] is Wildcard);
        }
        match last {
            SegmentModel::Literal(_) => {},
            SegmentModel::Param(n) => {
                lemma_push_contains(names, n, name);
            },
            SegmentModel::Wildcard => {
                lemma_push_contains(names, wildcard_name(), name);
            },
        }
    }
}

/// What a sequence holds after a push: what it held, and what was pushed.
proof fn lemma_push_contains(s: Seq<Seq<char>>, x: Seq<char>, y: Seq<char>)
    ensures
        s.push(x).contains(y) <==> s.contains(y) || x == y,
{
    if s.contains(y) {
        let i = s.index_of(y);
        assert(s.push(x)[i] == y);
    }
    if x == y {
        assert(s.push(x)[s.len() as int] == y);
    }
    if s.push(x).contains(y) {
        let i = s.push(x).index_of(y);
        if i < s.len() {
            assert(s[i] == y);
        }
    }
}

/// What the first `k` raw segments were read as: one segment each, the
/// wildcard only for the pattern's last, no parameter under the wildcard's
/// name, and no name bound twice.
proof fn lemma_parse_prefix_names(raw: Seq<Seq<char>>, k: int)
    requires
        0 <= k <= raw.len(),
    ensures
        parse_prefix(raw, k) matches Ok(segs) ==> {
            &&& segs.len() == k
            &&& forall|i: int| 0 <= i < k && (#[trigger] segs[i]) is Wildcard ==> i == raw.len() - 1
            &&& !binds(segs, wildcard_name())
            &&& param_names(segs).no_duplicates()
        },
    decreases k,
{
    if k > 0 {
        lemma_parse_prefix_names(raw, k - 1);
        match parse_prefix(raw, k - 1) {
            Ok(done) => {
                match parse_prefix(raw, k) {
                    Ok(segs) => {
                        let last = segs.last();
                        assert(segs.drop_last() =~= done);
                        let names = param_names(done);
                        assert forall|i: int| 0 <= i < k && (#[trigger] segs[i]) is Wildcard implies i
                            == raw.len() - 1 by {
                            if i < k - 1 {
                                assert(done[i] is Wildcard);
                            }
                        }
                        if binds(segs, wildcard_name()) {
                            let i = choose|i: int|
                                0 <= i < segs.len() && #[trigger] segs[i] == SegmentModel::Param(
                                    wildcard_name(),
                                );
                            if i < k - 1 {
                                assert(done[i] == SegmentModel::Param(wildcard_name()));
                            } else {
                                assert(raw[k - 1].skip(1)[0] == '*');
                                assert(raw[k - 1].skip(1).contains('*'));
                            }
                        }
                        match last {
                            SegmentModel::Literal(_) => {},
                            SegmentModel::Param(n) => {
                                lemma_param_names_contains(done, n);
                                if n == wildcard_name() {
                                    assert(segs[k - 1] == SegmentModel::Param(wildcard_name()));
                                }
                                lemma_push_keeps_distinct(names, n);
                            },
                            SegmentModel::Wildcard => {
                                lemma_param_names_contains(done, wildcard_name());
                                if has_wildcard(done) {
                                    let i = choose|i: int|
                                        0 <= i < done.len() && (#[trigger] done[i]) is Wildcard;
                                    assert(i == raw.len() - 1);
                                }
                                lemma_push_keeps_distinct(names, wildcard_name());
                            },
                        }
                    },
                    Err(_) => {},
                }
            },
            Err(_) => {},
        }
    }
}

/// A sequence without duplicates stays so when something new is pushed.
proof fn lemma_push_keeps_distinct(s: Seq<Seq<char>>, x: Seq<char>)
    requires
        s.no_duplicates(),
        !s.contains(x),
    ensures
        s.push(x).no_duplicates(),
{
    assert forall|i: int, j: int|
        0 <= i < s.push(x).len() && 0 <= j < s.push(x).len() && i != j implies s.push(x)[i]
        != s.push(x)[j] by {
        if i < s.len() && j < s.len() {
        } else if i < s.len() {
            assert(s.contains(s[i]));
        } else {
            assert(s.contains(s[j]));
        }
    }
}

/// A pattern binds no name twice. In a pattern that has passed the
/// grammar, the names bound are distinct, and only the last segment can be
/// the wildcard.
pub proof fn law_parameter_names_are_unique(pattern: Seq<char>)
    ensures
        parsed(pattern) matches Ok(segs) ==> {
            &&& param_names(segs).no_duplicates()
            &&& segs.len() == split(pattern).len()
            &&& forall|i: int|
                0 <= i < segs.len() && (#[trigger] segs[i]) is Wildcard ==> i == segs.len() - 1
        },
{
    lemma_parse_prefix_names(split(pattern), split(pattern).len() as int);
}

/// The raw segments of `chars`: the text between one `/` and the next.
pub fn split_segments(chars: &Vec<char>) -> (out: Vec<Vec<char>>)
    ensures
        rows(out@) == split(chars@),
{
    let mut done: Vec<Vec<char>> = Vec::new();
    let mut cur: Vec<char> = Vec::new();
    let mut i: usize = 0;
    assert(rows(done@).push(cur@) =~= split(chars@.take(0)));
    while i < chars.len()
        invariant
            i <= chars.len(),
            rows(done@).push(cur@) == split(chars@.take(i as int)),
        decreases chars.len() - i,
    {
        let c = chars[i];
        proof {
            assert(chars@.take(i + 1).drop_last() =~= chars@.take(i as int));
            assert(chars@.take(i + 1).last() == c);
        }
        let ghost before = rows(done@).push(cur@);
        if c == '/' {
            done.push(cur);
            cur = Vec::new();
            assert(rows(done@) =~= before);
            assert(rows(done@).push(cur@) =~= before.push(Seq::empty()));
        } else {
            let ghost old_cur = cur@;
            cur.push(c);
            assert(before.drop_last() =~= rows(done@));
            assert(before.last() == old_cur);
        }
        i += 1;
    }
    assert(chars@.take(chars.len() as int) =~= chars@);
    let ghost before = rows(done@).push(cur@);
    done.push(cur);
    assert(rows(done@) =~= before);
    done
}

/// Reads one raw segment, the `k`-th of its pattern.
pub fn classify_segment(seg: &Vec<char>, k: usize) -> (r: Result<Segment, PatternError>)
    ensures
        match r {
            Ok(s) => classify(seg@, k as int) == Ok::<SegmentModel, PatternError>(s@),
            Err(e) => classify(seg@, k as int) == Err::<SegmentModel, PatternError>(e),
        },
{
    if seg.len() > 0 && seg[0] == ':' {
        if seg.len() == 1 {
            Err(PatternError::EmptyParamName { segment: k })
        } else if occurs_from(seg, 1, ':') || occurs_from(seg, 1, '*') {
            Err(PatternError::MisplacedMarker { segment: k })
        } else {
            Ok(Segment::Param(string_from(seg, 1)))
        }
    } else if seg.len() == 1 && seg[0] == '*' {
        Ok(Segment::Wildcard)
    } else {
        assert(seg@.skip(0) =~= seg@);
        if occurs_from(seg, 0, ':') || occurs_from(seg, 0, '*') {
            Err(PatternError::MisplacedMarker { segment: k })
        } else {
            Ok(Segment::Literal(string_of(seg)))
        }
    }
}

/// Whether one of `segs` is a parameter called `name`.
pub fn binds_name(segs: &Vec<Segment>, name: &String) -> (found: bool)
    ensures
        found == binds(segment_models(segs@), name@),
{
    let mut i: usize = 0;
    while i < segs.len()
        invariant
            i <= segs.len(),
            forall|j: int|
                0 <= j < i ==> (#[trigger] segment_models(segs@)[j]) != SegmentModel::Param(name@),
        decreases segs.len() - i,
    {
        let hit = match &segs[i] {
            Segment::Param(n) => *n == *name,
            _ => false,
        };
        if hit {
            assert(segment_models(segs@)[i as int] == SegmentModel::Param(name@));
            return true;
        }
        i += 1;
    }
    false
}

/// Parses a pattern into its segments, or reports the first fault in it.
pub fn parse(pattern: &str) -> (r: Result<Vec<Segment>, PatternError>)
    ensures
        match r {
            Ok(segs) => parsed(pattern@) == Ok::<Seq<SegmentModel>, PatternError>(
                segment_models(segs@),
            ),
            Err(e) => parsed(pattern@) == Err::<Seq<SegmentModel>, PatternError>(e),
        },
{
    let chars = chars_of(pattern);
    let raw = split_segments(&chars);
    let ghost raw_rows = rows(raw@);
    let mut out: Vec<Segment> = Vec::new();
    let mut k: usize = 0;
    assert(segment_models(out@) =~= Seq::empty());
    while k < raw.len()
        invariant
            k <= raw.len(),
            raw_rows == rows(raw@),
            raw_rows == split(pattern@),
            raw_rows.len() == raw.len(),
            parse_prefix(raw_rows, k as int) == Ok::<Seq<SegmentModel>, PatternError>(
                segment_models(out@),
            ),
        decreases raw.len() - k,
    {
        let ghost done = segment_models(out@);
        assert(raw_rows[k as int] == raw@[k as int]@);
        match classify_segment(&raw[k], k) {
            Err(e) => {
                proof {
                    lemma_parse_prefix_error_stays(raw_rows, k + 1, raw.len() as int);
                }
                return Err(e);
            },
            Ok(Segment::Wildcard) => {
                if k + 1 < raw.len() {
                    proof {
                        lemma_parse_prefix_error_stays(raw_rows, k + 1, raw.len() as int);
                    }
                    return Err(PatternError::WildcardNotLast { segment: k });
                }
                out.push(Segment::Wildcard);
                assert(segment_models(out@) =~= done.push(SegmentModel::Wildcard));
            },
            Ok(Segment::Param(name)) => {
                if binds_name(&out, &name) {
                    proof {
                        lemma_parse_prefix_error_stays(raw_rows, k + 1, raw.len() as int);
                    }
                    return Err(PatternError::DuplicateParam { segment: k });
                }
                let ghost n = name@;
                out.push(Segment::Param(name));
                assert(segment_models(out@) =~= done.push(SegmentModel::Param(n)));
            },
            Ok(Segment::Literal(t)) => {
                let ghost tv = t@;
                out.push(Segment::Literal(t));
                assert(segment_models(out@) =~= done.push(SegmentModel::Literal(tv)));
            },
        }
        k += 1;
    }
    Ok(out)
}

/// The names that `segs` bind, in the order of their captures.
pub fn names_of(segs: &Vec<Segment>) -> (names: Vec<String>)
    ensures
        texts(names@) == param_names(segment_models(segs@)),
{
    let mut names: Vec<String> = Vec::new();
    let mut i: usize = 0;
    assert(segment_models(segs@).take(0) =~= Seq::empty());
    assert(texts(names@) =~= Seq::empty());
    while i < segs.len()
        invariant
            i <= segs.len(),
            texts(names@) == param_names(segment_models(segs@).take(i as int)),
        decreases segs.len() - i,
    {
        let ghost models = segment_models(segs@);
        let ghost before = texts(names@);
        proof {
            assert(models.take(i + 1).drop_last() =~= models.take(i as int));
            assert(models.take(i + 1).last() == segs@[i as int]@);
        }
        match &segs[i] {
            Segment::Literal(_) => {},
            Segment::Param(n) => {
                names.push(n.clone());
                assert(texts(names@) =~= before.push(n@));
            },
            Segment::Wildcard => {
                let star = String::from_str("*");
                proof {
                    reveal_strlit("*");
                    assert(star@ =~= wildcard_name());
                }
                names.push(star);
                assert(texts(names@) =~= before.push(wildcard_name()));
            },
        }
        i += 1;
    }
    assert(segment_models(segs@).take(segs.len() as int) =~= segment_models(segs@));
    names
}

/// Translates parsed segments into the anchored expression that the engine
/// compiles.
pub fn translate(segs: &Vec<Segment>) -> (source: String)
    ensures
        source@ == regex_source(segment_models(segs@)),
{
    let mut out = String::from_str("(?s)^");
    proof {
        reveal_strlit("(?s)^");
        assert(out@ =~= source_opening());
        assert(segment_models(segs@).take(0) =~= Seq::empty());
        assert(out@ =~= source_opening() + joined(segment_models(segs@).take(0)));
    }
    let mut i: usize = 0;
    while i < segs.len()
        invariant
            i <= segs.len(),
            out@ == source_opening() + joined(segment_models(segs@).take(i as int)),
        decreases segs.len() - i,
    {
        let ghost models = segment_models(segs@);
        let ghost before = joined(models.take(i as int));
        proof {
            assert(models.take(i + 1).drop_last() =~= models.take(i as int));
            assert(models.take(i + 1).last() == segs@[i as int]@);
            assert(models.take(1)[0] == models[0]);
        }
        if i > 0 {
            out.push('/');
        }
        let ghost stem = if i > 0 {
            before.push('/')
        } else {
            before
        };
        assert(out@ =~= source_opening() + stem);
        match &segs[i] {
            Segment::Literal(t) => {
                let quoted = regex_escape(t.as_str());
                out.append(quoted.as_str());
            },
            Segment::Param(_) => {
                proof {
                    reveal_strlit("([^/]+)");
                    assert("([^/]+)"@ =~= param_piece());
                }
                out.append("([^/]+)");
            },
            Segment::Wildcard => {
                proof {
                    reveal_strlit("(.*)");
                    assert("(.*)"@ =~= wildcard_piece());
                }
                out.append("(.*)");
            },
        }
        assert(out@ =~= source_opening() + (stem + piece(segs@[i as int]@)));
        assert(joined(models.take(i + 1)) =~= stem + piece(segs@[i as int]@));
        i += 1;
    }
    assert(segment_models(segs@).take(segs.len() as int) =~= segment_models(segs@));
    out.push('$');
    out
}

} // verus!
