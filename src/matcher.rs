use crate::text::{chars_equal, chars_of, lemma_path_segments_nonempty, path_segments, split_path, views};
use vstd::prelude::*;

verus! {

/// One compiled segment of a path pattern.
pub enum PathSegment {
    /// Matches exactly this text.
    Literal(Vec<char>),
    /// The `*` token: matches any single non-empty segment.
    Wildcard,
}

/// Why a pattern could not be compiled.
#[derive(Debug, Clone, Copy, PartialEq, Eq)]
pub enum PatternError {
    Empty,
}

/// `seg` is the compiled form of the pattern segment `text`.
pub open spec fn compiled_from(seg: PathSegment, text: Seq<char>) -> bool {
    match seg {
        PathSegment::Wildcard => text == seq!['*'],
        PathSegment::Literal(l) => l@ == text && text != seq!['*'],
    }
}

pub open spec fn segment_matches(seg: PathSegment, target: Seq<char>) -> bool {
    match seg {
        PathSegment::Wildcard => target.len() > 0,
        PathSegment::Literal(l) => l@ == target,
    }
}

/// The pattern matches the start of a path whose segments are `target`:
/// each pattern segment matches the target segment at its position, and the
/// target may have more segments.
pub open spec fn matches_segments(pattern: Seq<PathSegment>, target: Seq<Seq<char>>) -> bool {
    &&& pattern.len() <= target.len()
    &&& forall|i: int| 0 <= i < pattern.len() ==> segment_matches(#[trigger] pattern[i], target[i])
}

/// A path pattern compiled once: its non-empty segments between slashes,
/// each a literal or the wildcard `*`.
pub struct UriPathMatcher {
    segments: Vec<PathSegment>,
}

impl View for UriPathMatcher {
    type V = Seq<PathSegment>;

    closed spec fn view(&self) -> Seq<PathSegment> {
        self.segments@
    }
}

/// `m` is the compiled form of the pattern text `p`.
pub open spec fn compiles_to(p: Seq<char>, m: Seq<PathSegment>) -> bool {
    let segs = path_segments(p);
    &&& m.len() == segs.len()
    &&& forall|i: int| 0 <= i < m.len() ==> compiled_from(#[trigger] m[i], segs[i])
}

/// The pattern `m` matches the start of `path`.
pub open spec fn matches_path(m: Seq<PathSegment>, path: Seq<char>) -> bool {
    matches_segments(m, path_segments(path))
}

fn is_wildcard(s: &Vec<char>) -> (r: bool)
    ensures
        r == (s@ == seq!['*']),
{
    if s.len() == 1 && s[0] == '*' {
        assert(s@ =~= seq!['*']);
        true
    } else {
        false
    }
}

impl UriPathMatcher {
    /// Compiles a pattern; the empty pattern is refused.
    pub fn new(pattern: &str) -> (r: Result<UriPathMatcher, PatternError>)
        ensures
            pattern@.len() == 0 <==> r is Err,
            r matches Ok(m) ==> compiles_to(pattern@, m@),
    {
        let text = chars_of(pattern);
        if text.len() == 0 {
            return Err(PatternError::Empty);
        }
        let parts = split_path(&text);
        let mut segments: Vec<PathSegment> = Vec::new();
        let mut i: usize = 0;
        while i < parts.len()
            invariant
                i <= parts.len(),
                segments@.len() == i,
                views(parts@) == path_segments(pattern@),
                forall|j: int| 0 <= j < i ==> compiled_from(#[trigger] segments@[j], parts@[j]@),
            decreases parts.len() - i,
        {
            let part = &parts[i];
            if is_wildcard(part) {
                segments.push(PathSegment::Wildcard);
            } else {
                segments.push(PathSegment::Literal(part.clone()));
            }
            i = i + 1;
        }
        let m = UriPathMatcher { segments };
        proof {
            assert forall|j: int| 0 <= j < m@.len() implies compiled_from(
                #[trigger] m@[j],
                path_segments(pattern@)[j],
            ) by {
                assert(views(parts@)[j] == parts@[j]@);
            }
        }
        Ok(m)
    }

    /// Matches against a path already split into its non-empty segments.
    pub fn match_segments(&self, target: &Vec<Vec<char>>) -> (r: bool)
        requires
            forall|i: int| 0 <= i < target@.len() ==> (#[trigger] target@[i])@.len() > 0,
        ensures
            r == matches_segments(self@, views(target@)),
    {
        if self.segments.len() > target.len() {
            return false;
        }
        let mut i: usize = 0;
        while i < self.segments.len()
            invariant
                i <= self.segments.len() <= target.len(),
                forall|i: int| 0 <= i < target@.len() ==> (#[trigger] target@[i])@.len() > 0,
                forall|j: int|
                    0 <= j < i ==> segment_matches(#[trigger] self@[j], views(target@)[j]),
            decreases self.segments.len() - i,
        {
            let ok = match &self.segments[i] {
                PathSegment::Wildcard => true,
                PathSegment::Literal(l) => chars_equal(l, &target[i]),
            };
            if !ok {
                assert(!segment_matches(self@[i as int], views(target@)[i as int]));
                return false;
            }
            i = i + 1;
        }
        true
    }

    /// Whether the pattern matches the start of `path`.
    pub fn match_start(&self, path: &str) -> (r: bool)
        ensures
            r == matches_path(self@, path@),
    {
        let text = chars_of(path);
        let target = split_path(&text);
        proof {
            lemma_path_segments_nonempty(path@);
            assert forall|i: int| 0 <= i < target@.len() implies (#[trigger] target@[i])@.len()
                > 0 by {
                assert(views(target@)[i] == target@[i]@);
            }
        }
        self.match_segments(&target)
    }
}

pub open spec fn views_of(ms: Seq<UriPathMatcher>) -> Seq<Seq<PathSegment>> {
    ms.map_values(|m: UriPathMatcher| m@)
}

pub open spec fn any_matches(ms: Seq<Seq<PathSegment>>, path: Seq<char>) -> bool {
    exists|i: int| 0 <= i < ms.len() && matches_path(#[trigger] ms[i], path)
}

/// The path policy: no inclusion admits everything; otherwise a path must
/// match an inclusion and no exclusion.
pub open spec fn admits(
    inclusions: Seq<Seq<PathSegment>>,
    exclusions: Option<Seq<Seq<PathSegment>>>,
    path: Seq<char>,
) -> bool {
    inclusions.len() == 0 || (any_matches(inclusions, path) && !(exclusions matches Some(e)
        && any_matches(e, path)))
}

fn any_match_segments(ms: &Vec<UriPathMatcher>, target: &Vec<Vec<char>>, path: Ghost<Seq<char>>) -> (r:
    bool)
    requires
        views(target@) == path_segments(path@),
        forall|i: int| 0 <= i < target@.len() ==> (#[trigger] target@[i])@.len() > 0,
    ensures
        r == any_matches(views_of(ms@), path@),
{
    let mut i: usize = 0;
    while i < ms.len()
        invariant
            i <= ms.len(),
            views(target@) == path_segments(path@),
            forall|i: int| 0 <= i < target@.len() ==> (#[trigger] target@[i])@.len() > 0,
            forall|j: int| 0 <= j < i ==> !matches_path(#[trigger] views_of(ms@)[j], path@),
        decreases ms.len() - i,
    {
        if ms[i].match_segments(target) {
            assert(matches_path(views_of(ms@)[i as int], path@));
            return true;
        }
        i = i + 1;
    }
    false
}

/// Evaluates the path policy on `path`.
pub fn policy_admits(
    inclusions: &Vec<UriPathMatcher>,
    exclusions: &Option<Vec<UriPathMatcher>>,
    path: &str,
) -> (r: bool)
    ensures
        r == admits(
            views_of(inclusions@),
            match exclusions {
                Some(e) => Some(views_of(e@)),
                None => None,
            },
            path@,
        ),
{
    if inclusions.len() == 0 {
        return true;
    }
    let text = chars_of(path);
    let target = split_path(&text);
    proof {
        lemma_path_segments_nonempty(path@);
        assert forall|i: int| 0 <= i < target@.len() implies (#[trigger] target@[i])@.len() > 0 by {
            assert(views(target@)[i] == target@[i]@);
        }
    }
    if !any_match_segments(inclusions, &target, Ghost(path@)) {
        return false;
    }
    match exclusions {
        Some(e) => !any_match_segments(e, &target, Ghost(path@)),
        None => true,
    }
}

/// The patterns that compile: the non-empty ones, in their order.
pub open spec fn compilable(ps: Seq<String>) -> Seq<Seq<char>>
    decreases ps.len(),
{
    if ps.len() == 0 {
        Seq::empty()
    } else {
        let before = compilable(ps.drop_last());
        if ps.last()@.len() > 0 {
            before.push(ps.last()@)
        } else {
            before
        }
    }
}

/// Compiles each pattern in order, leaving out those that cannot be compiled.
pub fn compile_patterns(patterns: &Vec<String>) -> (r: Vec<UriPathMatcher>)
    ensures
        r@.len() == compilable(patterns@).len(),
        forall|i: int| 0 <= i < r@.len() ==> compiles_to(compilable(patterns@)[i], #[trigger] r@[i]@),
{
    let mut r: Vec<UriPathMatcher> = Vec::new();
    let mut k: usize = 0;
    while k < patterns.len()
        invariant
            k <= patterns.len(),
            r@.len() == compilable(patterns@.take(k as int)).len(),
            forall|i: int|
                0 <= i < r@.len() ==> compiles_to(
                    compilable(patterns@.take(k as int))[i],
                    #[trigger] r@[i]@,
                ),
        decreases patterns.len() - k,
    {
        proof {
            assert(patterns@.take(k + 1).drop_last() =~= patterns@.take(k as int));
        }
        match UriPathMatcher::new(patterns[k].as_str()) {
            Ok(m) => {
                r.push(m);
            },
            Err(_) => {},
        }
        k = k + 1;
    }
    assert(patterns@.take(k as int) =~= patterns@);
    r
}

} // verus!
