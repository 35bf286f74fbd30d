//! Path expressions: classification of a raw path string and the parsed
//! `device:storage:path` form for device-resident endpoints.
use vstd::prelude::*;
use vstd::string::StrSliceExecFns;
use vstd::string::StringExecFns;
use crate::error::CopyError;

verus! {

/// Which namespace a raw path string addresses.
#[derive(Clone, Copy, PartialEq, Eq, Structural, Debug)]
pub enum PathType {
    /// A `device:storage:path` expression.
    DeviceStorage,
    /// An ordinary local path.
    Local,
    /// An empty string addresses nothing.
    Invalid,
}

/// A path segment separator.
pub open spec fn is_sep(c: char) -> bool {
    c == '/' || c == '\\'
}

/// A per-segment wildcard token.
pub open spec fn is_wildcard_char(c: char) -> bool {
    c == '*' || c == '?'
}

/// The first position at or after `i` holding `c`, or the length of `s`
/// when there is none.
pub open spec fn find_char_from(s: Seq<char>, c: char, i: int) -> int
    decreases s.len() - i,
{
    if i < 0 || i >= s.len() {
        s.len() as int
    } else if s[i] == c {
        i
    } else {
        find_char_from(s, c, i + 1)
    }
}

/// The first separator position at or after `i`, or the length of `s`.
pub open spec fn find_sep_from(s: Seq<char>, i: int) -> int
    decreases s.len() - i,
{
    if i < 0 || i >= s.len() {
        s.len() as int
    } else if is_sep(s[i]) {
        i
    } else {
        find_sep_from(s, i + 1)
    }
}

pub proof fn lemma_find_char_bounds(s: Seq<char>, c: char, i: int)
    requires
        0 <= i <= s.len(),
    ensures
        i <= find_char_from(s, c, i) <= s.len(),
        find_char_from(s, c, i) < s.len() ==> s[find_char_from(s, c, i)] == c,
        forall|j: int| i <= j < find_char_from(s, c, i) ==> s[j] != c,
    decreases s.len() - i,
{
    if i < s.len() && s[i] != c {
        lemma_find_char_bounds(s, c, i + 1);
    }
}

pub proof fn lemma_find_sep_bounds(s: Seq<char>, i: int)
    requires
        0 <= i <= s.len(),
    ensures
        i <= find_sep_from(s, i) <= s.len(),
        find_sep_from(s, i) < s.len() ==> is_sep(s[find_sep_from(s, i)]),
        forall|j: int| i <= j < find_sep_from(s, i) ==> !is_sep(s[j]),
    decreases s.len() - i,
{
    if i < s.len() && !is_sep(s[i]) {
        lemma_find_sep_bounds(s, i + 1);
    }
}

/// The segments of `s` from position `start` on: maximal runs of
/// non-separator characters, empty runs dropped, so a doubled, leading or
/// trailing separator adds nothing.
pub open spec fn seg_split_from(s: Seq<char>, start: int) -> Seq<Seq<char>>
    decreases s.len() - start,
    via seg_split_from_decreases
{
    if !(0 <= start <= s.len()) {
        Seq::empty()
    } else {
        let i = find_sep_from(s, start);
        if i >= s.len() {
            if start == s.len() {
                Seq::empty()
            } else {
                seq![s.subrange(start, s.len() as int)]
            }
        } else if i == start {
            seg_split_from(s, start + 1)
        } else {
            seq![s.subrange(start, i)] + seg_split_from(s, i + 1)
        }
    }
}

#[via_fn]
proof fn seg_split_from_decreases(s: Seq<char>, start: int) {
    if 0 <= start <= s.len() {
        lemma_find_sep_bounds(s, start);
    }
}

/// The segments of a whole path string.
pub open spec fn seg_split(s: Seq<char>) -> Seq<Seq<char>> {
    seg_split_from(s, 0)
}

/// The views of a vector of strings.
pub open spec fn seq_views(v: Seq<String>) -> Seq<Seq<char>> {
    v.map_values(|x: String| x@)
}

/// Whether `s` holds two colons and so has the `device:storage:path`
/// form.
pub open spec fn spec_device_form(s: Seq<char>) -> bool {
    find_char_from(s, ':', 0) < s.len() && find_char_from(s, ':', find_char_from(s, ':', 0) + 1)
        < s.len()
}

/// How a raw path string is classified.
pub open spec fn spec_path_type(s: Seq<char>) -> PathType {
    if s.len() == 0 {
        PathType::Invalid
    } else if spec_device_form(s) {
        PathType::DeviceStorage
    } else {
        PathType::Local
    }
}

/// Whether the string holds a wildcard token anywhere.
pub open spec fn has_wildcard_spec(s: Seq<char>) -> bool {
    exists|i: int| 0 <= i < s.len() && is_wildcard_char(#[trigger] s[i])
}

/// Finds the first `c` at or after `start`, returning the length when
/// there is none.
fn find_char_at(s: &str, c: char, start: usize) -> (r: usize)
    requires
        start <= s@.len(),
    ensures
        r == find_char_from(s@, c, start as int),
        start <= r <= s@.len(),
{
    proof {
        lemma_find_char_bounds(s@, c, start as int);
    }
    let n = s.unicode_len();
    let mut i: usize = start;
    while i < n
        invariant
            start <= i <= n,
            n == s@.len(),
            forall|j: int| start <= j < i ==> s@[j] != c,
        decreases n - i,
    {
        if s.get_char(i) == c {
            proof {
                lemma_find_char_bounds(s@, c, start as int);
                if find_char_from(s@, c, start as int) < i {
                    assert(s@[find_char_from(s@, c, start as int)] == c);
                }
                if find_char_from(s@, c, start as int) > i {
                    assert(s@[i as int] != c);
                }
            }
            return i;
        }
        i = i + 1;
    }
    n
}

fn is_sep_char(c: char) -> (r: bool)
    ensures
        r == is_sep(c),
{
    c == '/' || c == '\\'
}

/// Finds the first separator at or after `start`, returning the length
/// when there is none.
fn find_sep_at(s: &str, start: usize) -> (r: usize)
    requires
        start <= s@.len(),
    ensures
        r == find_sep_from(s@, start as int),
        start <= r <= s@.len(),
{
    proof {
        lemma_find_sep_bounds(s@, start as int);
    }
    let n = s.unicode_len();
    let mut i: usize = start;
    while i < n
        invariant
            start <= i <= n,
            n == s@.len(),
            forall|j: int| start <= j < i ==> !is_sep(s@[j]),
        decreases n - i,
    {
        if is_sep_char(s.get_char(i)) {
            proof {
                lemma_find_sep_bounds(s@, start as int);
                if find_sep_from(s@, start as int) < i {
                    assert(is_sep(s@[find_sep_from(s@, start as int)]));
                }
                if find_sep_from(s@, start as int) > i {
                    assert(!is_sep(s@[i as int]));
                }
            }
            return i;
        }
        i = i + 1;
    }
    n
}

fn split_segments_rec(s: &str, start: usize, out: &mut Vec<String>)
    requires
        start <= s@.len(),
    ensures
        seq_views(final(out)@) == seq_views(old(out)@) + seg_split_from(s@, start as int),
    decreases s@.len() - start,
{
    proof {
        lemma_find_sep_bounds(s@, start as int);
    }
    let n = s.unicode_len();
    let i = find_sep_at(s, start);
    if i >= n {
        if start < n {
            let seg = String::from_str(s.substring_char(start, n));
            out.push(seg);
        }
        assert(seq_views(out@) =~= seq_views(old(out)@) + seg_split_from(s@, start as int));
    } else {
        if i > start {
            let seg = String::from_str(s.substring_char(start, i));
            out.push(seg);
        }
        split_segments_rec(s, i + 1, out);
        assert(seq_views(out@) =~= seq_views(old(out)@) + seg_split_from(s@, start as int));
    }
}

/// Splits a path string into its segments, dropping empty ones.
pub fn split_segments(s: &str) -> (r: Vec<String>)
    ensures
        seq_views(r@) == seg_split(s@),
{
    let mut out: Vec<String> = Vec::new();
    split_segments_rec(s, 0, &mut out);
    assert(seq_views(out@) =~= seg_split(s@));
    out
}

/// Classifies a raw path string.
pub fn get_path_type(path: &str) -> (r: PathType)
    ensures
        r == spec_path_type(path@),
{
    let n = path.unicode_len();
    if n == 0 {
        return PathType::Invalid;
    }
    let i1 = find_char_at(path, ':', 0);
    if i1 >= n {
        return PathType::Local;
    }
    let i2 = find_char_at(path, ':', i1 + 1);
    if i2 >= n {
        return PathType::Local;
    }
    PathType::DeviceStorage
}

/// Whether the string holds a `*` or `?` anywhere.
pub fn str_has_wildcard(s: &str) -> (r: bool)
    ensures
        r == has_wildcard_spec(s@),
{
    let n = s.unicode_len();
    let mut i: usize = 0;
    while i < n
        invariant
            i <= n,
            n == s@.len(),
            forall|j: int| 0 <= j < i ==> !is_wildcard_char(s@[j]),
        decreases n - i,
    {
        let c = s.get_char(i);
        if c == '*' || c == '?' {
            return true;
        }
        i = i + 1;
    }
    false
}

/// A parsed `device:storage:path` expression.
#[derive(Debug)]
pub struct DeviceStoragePath {
    pub device_name: String,
    pub storage_name: String,
    pub path: String,
}

impl DeviceStoragePath {
    /// Where the device name of a well-formed expression ends.
    pub open spec fn spec_first_colon(s: Seq<char>) -> int {
        find_char_from(s, ':', 0)
    }

    /// Where the storage name of a well-formed expression ends.
    pub open spec fn spec_second_colon(s: Seq<char>) -> int {
        find_char_from(s, ':', Self::spec_first_colon(s) + 1)
    }

    /// The device name a well-formed expression carries.
    pub open spec fn spec_device_part(s: Seq<char>) -> Seq<char> {
        s.subrange(0, Self::spec_first_colon(s))
    }

    /// The storage name a well-formed expression carries.
    pub open spec fn spec_storage_part(s: Seq<char>) -> Seq<char> {
        s.subrange(Self::spec_first_colon(s) + 1, Self::spec_second_colon(s))
    }

    /// The path a well-formed expression carries.
    pub open spec fn spec_path_part(s: Seq<char>) -> Seq<char> {
        s.subrange(Self::spec_second_colon(s) + 1, s.len() as int)
    }

    /// Parses a `device:storage:path` expression; anything without the
    /// two colons is refused.
    pub fn from(path: &str) -> (r: Result<DeviceStoragePath, CopyError>)
        ensures
            match r {
                Result::Ok(p) => {
                    &&& spec_device_form(path@)
                    &&& p.device_name@ == path@.subrange(0, Self::spec_first_colon(path@))
                    &&& p.storage_name@ == path@.subrange(
                        Self::spec_first_colon(path@) + 1,
                        Self::spec_second_colon(path@),
                    )
                    &&& p.path@ == path@.subrange(
                        Self::spec_second_colon(path@) + 1,
                        path@.len() as int,
                    )
                },
                Result::Err(e) => e == CopyError::ParseError && !spec_device_form(path@),
            },
    {
        let n = path.unicode_len();
        let i1 = find_char_at(path, ':', 0);
        if i1 >= n {
            return Result::Err(CopyError::ParseError);
        }
        let i2 = find_char_at(path, ':', i1 + 1);
        if i2 >= n {
            return Result::Err(CopyError::ParseError);
        }
        let device_name = String::from_str(path.substring_char(0, i1));
        let storage_name = String::from_str(path.substring_char(i1 + 1, i2));
        let rest = String::from_str(path.substring_char(i2 + 1, n));
        Result::Ok(DeviceStoragePath { device_name, storage_name, path: rest })
    }

    /// The whole expression re-joined, `device:storage:path`.
    pub fn full_path(&self) -> (r: String)
        ensures
            r@ == self.device_name@ + seq![':'] + self.storage_name@ + seq![':'] + self.path@,
    {
        proof {
            reveal_strlit(":");
        }
        let mut r = self.device_name.clone();
        r.append(":");
        r.append(self.storage_name.as_str());
        r.append(":");
        r.append(self.path.as_str());
        assert(r@ =~= self.device_name@ + seq![':'] + self.storage_name@ + seq![':'] + self.path@);
        r
    }
}

} // verus!
