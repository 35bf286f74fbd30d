//! The hierarchical path pattern matcher: one glob pattern per segment,
//! consumed segment by segment while a tree is enumerated.
use vstd::prelude::*;
use vstd::string::StrSliceExecFns;
use crate::error::CopyError;
use crate::path::{is_wildcard_char, seg_split, seq_views, split_segments};

verus! {

/// One token of a segment pattern.
#[derive(Clone, Copy, PartialEq, Eq, Structural, Debug)]
pub enum MatchToken {
    /// Matches exactly this character.
    Literal(char),
    /// `?`: matches exactly one character.
    AnyChar,
    /// `*`: matches any run of characters, the empty run included.
    AnyRun,
}

/// What one matching step decided.
#[derive(Clone, Copy, PartialEq, Eq, Structural, Debug)]
pub enum PathMatchingState {
    /// The candidate matched a non-final segment: descend with the
    /// continuation matcher.
    Accepted,
    /// The candidate matched the final segment: it is the target.
    Completed,
    /// The candidate does not match.
    Rejected,
}

/// The token for one pattern character.
pub open spec fn token_of(c: char) -> MatchToken {
    if c == '*' {
        MatchToken::AnyRun
    } else if c == '?' {
        MatchToken::AnyChar
    } else {
        MatchToken::Literal(c)
    }
}

/// The compiled pattern of one segment.
pub open spec fn compile_seg(s: Seq<char>) -> Seq<MatchToken> {
    s.map_values(|c: char| token_of(c))
}

/// Glob semantics of one segment pattern over one name.
pub open spec fn glob_match(p: Seq<MatchToken>, s: Seq<char>) -> bool
    decreases p.len(), s.len(),
{
    if p.len() == 0 {
        s.len() == 0
    } else {
        match p[0] {
            MatchToken::Literal(c) => s.len() > 0 && s[0] == c && glob_match(p.skip(1), s.skip(1)),
            MatchToken::AnyChar => s.len() > 0 && glob_match(p.skip(1), s.skip(1)),
            MatchToken::AnyRun => glob_match(p.skip(1), s) || (s.len() > 0 && glob_match(
                p,
                s.skip(1),
            )),
        }
    }
}

/// A matcher: either the permissive matcher that accepts everything
/// beneath an already matched folder, or a position in a compiled
/// segment list.
pub enum PathMatcher {
    CompleteMatcher,
    SegmentMatcher { segments: Vec<Vec<MatchToken>>, pos: usize },
}

impl PathMatcher {
    /// The compiled segment patterns, for contracts.
    pub open spec fn seg_pats(&self) -> Seq<Seq<MatchToken>> {
        match *self {
            PathMatcher::CompleteMatcher => Seq::empty(),
            PathMatcher::SegmentMatcher { segments, pos } => segments@.map_values(
                |v: Vec<MatchToken>| v@,
            ),
        }
    }

    /// The position of the segment the matcher will consume next.
    pub open spec fn spec_pos(&self) -> int {
        match *self {
            PathMatcher::CompleteMatcher => 0,
            PathMatcher::SegmentMatcher { segments, pos } => pos as int,
        }
    }
}

fn copy_pattern(v: &Vec<MatchToken>) -> (r: Vec<MatchToken>)
    ensures
        r@ == v@,
{
    let mut r: Vec<MatchToken> = Vec::new();
    let n = v.len();
    let mut i: usize = 0;
    while i < n
        invariant
            i <= n,
            r@ == v@.take(i as int),
        decreases n - i,
    {
        r.push(v[i]);
        i = i + 1;
    }
    assert(v@.take(n as int) =~= v@);
    r
}

fn copy_segments(v: &Vec<Vec<MatchToken>>) -> (r: Vec<Vec<MatchToken>>)
    ensures
        r@.map_values(|p: Vec<MatchToken>| p@) == v@.map_values(|p: Vec<MatchToken>| p@),
        r@.len() == v@.len(),
{
    let mut r: Vec<Vec<MatchToken>> = Vec::new();
    let n = v.len();
    let mut i: usize = 0;
    while i < n
        invariant
            i <= n,
            r@.len() == i,
            forall|j: int| 0 <= j < i ==> (#[trigger] r@[j])@ == v@[j]@,
        decreases n - i,
    {
        r.push(copy_pattern(&v[i]));
        i = i + 1;
    }
    assert(r@.map_values(|p: Vec<MatchToken>| p@) =~= v@.map_values(|p: Vec<MatchToken>| p@));
    r
}

fn compile_segment(seg: &String) -> (r: Vec<MatchToken>)
    ensures
        r@ == compile_seg(seg@),
{
    let s = seg.as_str();
    let n = s.unicode_len();
    let mut r: Vec<MatchToken> = Vec::new();
    let mut i: usize = 0;
    while i < n
        invariant
            i <= n,
            n == seg@.len(),
            r@.len() == i,
            forall|j: int| 0 <= j < i ==> r@[j] == token_of(seg@[j]),
        decreases n - i,
    {
        let c = s.get_char(i);
        let t = if c == '*' {
            MatchToken::AnyRun
        } else if c == '?' {
            MatchToken::AnyChar
        } else {
            MatchToken::Literal(c)
        };
        r.push(t);
        i = i + 1;
    }
    assert(r@ =~= compile_seg(seg@));
    r
}

/// Compiles a path expression's path part into its root matcher.  Every
/// string is a well-formed pattern in this token language, so compilation
/// always succeeds.
pub fn create_path_pattern_matcher(path: &str) -> (r: Result<PathMatcher, CopyError>)
    ensures
        match r {
            Result::Ok(m) => {
                &&& m is SegmentMatcher
                &&& m.spec_pos() == 0
                &&& m.seg_pats() == seg_split(path@).map_values(|s: Seq<char>| compile_seg(s))
            },
            Result::Err(_) => false,
        },
{
    let segs = split_segments(path);
    let mut segments: Vec<Vec<MatchToken>> = Vec::new();
    let n = segs.len();
    let mut i: usize = 0;
    while i < n
        invariant
            i <= n,
            n == segs@.len(),
            segments@.len() == i,
            forall|j: int| 0 <= j < i ==> (#[trigger] segments@[j])@ == compile_seg(segs@[j]@),
        decreases n - i,
    {
        segments.push(compile_segment(&segs[i]));
        i = i + 1;
    }
    let m = PathMatcher::SegmentMatcher { segments, pos: 0 };
    assert(m.seg_pats() =~= seg_split(path@).map_values(|s: Seq<char>| compile_seg(s))) by {
        assert(forall|j: int|
            0 <= j < n ==> seg_split(path@).map_values(|s: Seq<char>| compile_seg(s))[j]
                == compile_seg(#[trigger] seq_views(segs@)[j]));
    }
    Result::Ok(m)
}

fn str_to_chars(s: &str) -> (r: Vec<char>)
    ensures
        r@ == s@,
{
    let n = s.unicode_len();
    let mut r: Vec<char> = Vec::new();
    let mut i: usize = 0;
    while i < n
        invariant
            i <= n,
            n == s@.len(),
            r@ == s@.take(i as int),
        decreases n - i,
    {
        r.push(s.get_char(i));
        i = i + 1;
    }
    assert(s@.take(n as int) =~= s@);
    r
}

fn glob_match_at(p: &Vec<MatchToken>, pi: usize, s: &Vec<char>, si: usize) -> (r: bool)
    requires
        pi <= p@.len(),
        si <= s@.len(),
    ensures
        r == glob_match(p@.skip(pi as int), s@.skip(si as int)),
    decreases p@.len() - pi, s@.len() - si,
{
    proof {
        if pi < p@.len() {
            assert(p@.skip(pi as int)[0] == p@[pi as int]);
            assert(p@.skip(pi as int).skip(1) =~= p@.skip(pi as int + 1));
        }
        if si < s@.len() {
            assert(s@.skip(si as int)[0] == s@[si as int]);
            assert(s@.skip(si as int).skip(1) =~= s@.skip(si as int + 1));
        }
    }
    if pi == p.len() {
        si == s.len()
    } else {
        match p[pi] {
            MatchToken::Literal(c) => {
                si < s.len() && s[si] == c && glob_match_at(p, pi + 1, s, si + 1)
            },
            MatchToken::AnyChar => si < s.len() && glob_match_at(p, pi + 1, s, si + 1),
            MatchToken::AnyRun => {
                glob_match_at(p, pi + 1, s, si) || (si < s.len() && glob_match_at(p, pi, s, si + 1))
            },
        }
    }
}

/// Decides whether one segment pattern matches one name.
pub fn segment_matches(p: &Vec<MatchToken>, name: &str) -> (r: bool)
    ensures
        r == glob_match(p@, name@),
{
    let chars = str_to_chars(name);
    let r = glob_match_at(p, 0, &chars, 0);
    assert(p@.skip(0) =~= p@);
    assert(chars@.skip(0) =~= chars@);
    r
}

impl PathMatcher {
    /// The entry step for the storage root, which has no name of its own.
    /// An exhausted segment list makes the root itself the target; a
    /// pending one yields the matcher for the first segment.
    pub fn matches_root(&self) -> (r: (PathMatchingState, Option<PathMatcher>))
        ensures
            self.spec_pos() >= self.seg_pats().len() ==> r == (
                PathMatchingState::Completed,
                Option::<PathMatcher>::None,
            ),
            self.spec_pos() < self.seg_pats().len() ==> {
                &&& r.0 == PathMatchingState::Accepted
                &&& r.1 is Some
                &&& r.1->0.seg_pats() == self.seg_pats()
                &&& r.1->0.spec_pos() == self.spec_pos()
            },
    {
        match self {
            PathMatcher::CompleteMatcher => (PathMatchingState::Completed, Option::None),
            PathMatcher::SegmentMatcher { segments, pos } => {
                if *pos >= segments.len() {
                    (PathMatchingState::Completed, Option::None)
                } else {
                    let m = PathMatcher::SegmentMatcher {
                        segments: copy_segments(segments),
                        pos: *pos,
                    };
                    (PathMatchingState::Accepted, Option::Some(m))
                }
            },
        }
    }

    /// Consumes one segment against one candidate.  A mismatch rejects;
    /// a match on the final segment completes; a match with segments
    /// remaining accepts if and only if the candidate is a folder, and
    /// hands back the matcher for the next segment.
    pub fn matches(&self, name: &str, is_folder: bool) -> (r: (
        PathMatchingState,
        Option<PathMatcher>,
    ))
        ensures
            *self is CompleteMatcher ==> r == (
                PathMatchingState::Completed,
                Option::<PathMatcher>::None,
            ),
            *self is SegmentMatcher ==> {
                let pats = self.seg_pats();
                let pos = self.spec_pos();
                if pos >= pats.len() {
                    r == (PathMatchingState::Rejected, Option::<PathMatcher>::None)
                } else if !glob_match(pats[pos], name@) {
                    r == (PathMatchingState::Rejected, Option::<PathMatcher>::None)
                } else if pos == pats.len() - 1 {
                    r == (PathMatchingState::Completed, Option::<PathMatcher>::None)
                } else if !is_folder {
                    r == (PathMatchingState::Rejected, Option::<PathMatcher>::None)
                } else {
                    &&& r.0 == PathMatchingState::Accepted
                    &&& r.1 is Some
                    &&& r.1->0.seg_pats() == self.seg_pats()
                    &&& r.1->0.spec_pos() == pos + 1
                }
            },
    {
        match self {
            PathMatcher::CompleteMatcher => (PathMatchingState::Completed, Option::None),
            PathMatcher::SegmentMatcher { segments, pos } => {
                if *pos >= segments.len() {
                    return (PathMatchingState::Rejected, Option::None);
                }
                if !segment_matches(&segments[*pos], name) {
                    return (PathMatchingState::Rejected, Option::None);
                }
                if *pos == segments.len() - 1 {
                    return (PathMatchingState::Completed, Option::None);
                }
                if !is_folder {
                    return (PathMatchingState::Rejected, Option::None);
                }
                let m = PathMatcher::SegmentMatcher {
                    segments: copy_segments(segments),
                    pos: *pos + 1,
                };
                (PathMatchingState::Accepted, Option::Some(m))
            },
        }
    }
}

/// A pattern without wildcard tokens matches exactly its own text.
pub proof fn lemma_literal_glob_exact(seg: Seq<char>, name: Seq<char>)
    requires
        forall|i: int| 0 <= i < seg.len() ==> !is_wildcard_char(#[trigger] seg[i]),
    ensures
        glob_match(compile_seg(seg), name) <==> name == seg,
    decreases seg.len(), name.len(),
{
    let p = compile_seg(seg);
    assert(p.len() == seg.len());
    if seg.len() == 0 {
        if name == seg {
            assert(name.len() == 0);
        }
        if name.len() == 0 {
            assert(name =~= seg);
        }
    } else {
        assert(p[0] == token_of(seg[0]));
        assert(!is_wildcard_char(seg[0]));
        assert(p[0] == MatchToken::Literal(seg[0]));
        assert(p.skip(1) =~= compile_seg(seg.skip(1)));
        assert(forall|i: int|
            0 <= i < seg.skip(1).len() ==> !is_wildcard_char(#[trigger] seg.skip(1)[i]));
        if name.len() > 0 {
            lemma_literal_glob_exact(seg.skip(1), name.skip(1));
            if name[0] == seg[0] && name.skip(1) == seg.skip(1) {
                assert(name.len() == seg.len());
                assert forall|i: int| 0 <= i < name.len() implies name[i] == seg[i] by {
                    if i > 0 {
                        assert(name.skip(1)[i - 1] == name[i]);
                        assert(seg.skip(1)[i - 1] == seg[i]);
                    }
                }
                assert(name =~= seg);
            }
            if name == seg {
                assert(name[0] == seg[0]);
                assert(name.skip(1) =~= seg.skip(1));
            }
        } else {
            assert(!glob_match(p, name));
            assert(name != seg);
        }
    }
}

/// The pattern `*` alone matches every name.
pub proof fn lemma_any_run_matches_all(name: Seq<char>)
    ensures
        glob_match(seq![MatchToken::AnyRun], name),
    decreases name.len(),
{
    let p = seq![MatchToken::AnyRun];
    if name.len() == 0 {
        assert(p.skip(1) =~= Seq::<MatchToken>::empty());
        assert(glob_match(p.skip(1), name));
    } else {
        lemma_any_run_matches_all(name.skip(1));
    }
}

} // verus!
