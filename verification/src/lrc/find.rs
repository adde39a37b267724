//! Which file holds the lyrics of a track, and in what order the search for
//! it walks the track's directory.
use vstd::prelude::*;

verus! {

use crate::text::{chars_of, string_from_chars};
use crate::url::{spec_track_path, track_path};
use std::path::Path;

/// `.lrc`, the extension of lyric files.
pub open spec fn lrc_extension() -> Seq<char> {
    seq!['.', 'l', 'r', 'c']
}

/// The name of the lyric file of a track whose file stem is `stem`: `<stem>.lrc`.
pub fn lrc_file_name(stem: &str) -> (r: String)
    ensures
        r@ == stem@ + lrc_extension(),
{
    let mut v = chars_of(stem);
    v.push('.');
    v.push('l');
    v.push('r');
    v.push('c');
    assert(v@ =~= stem@ + lrc_extension());
    string_from_chars(v.as_slice())
}

/// What a directory entry met during the search is.
pub enum EntryKind {
    /// A directory.
    Dir,
    /// A regular file, with its name.
    File(String),
    /// Anything else.
    Other,
}

/// What the search does in a directory, given its entries in listing order.
#[derive(Debug)]
pub enum SearchPlan {
    /// The entry at this index is the lyric file.
    Found(usize),
    /// Search the directories at these indices, in order, with this depth left.
    Descend(Vec<usize>, u16),
    /// The lyric file is not in this directory and no depth is left.
    NotFound,
}

/// The entry is the file named `wanted`.
pub open spec fn is_wanted(kind: EntryKind, wanted: Seq<char>) -> bool {
    kind matches EntryKind::File(name) && name@ == wanted
}

/// The indices of the directories among the first `n` entries, in order.
pub open spec fn dir_indices(entries: Seq<EntryKind>, n: int) -> Seq<usize>
    decreases n,
{
    if n <= 0 {
        Seq::empty()
    } else {
        dir_indices(entries, n - 1) + (if entries[n - 1] is Dir {
            seq![(n - 1) as usize]
        } else {
            Seq::empty()
        })
    }
}

/// The plan for a directory with entries `entries`, searching for the file
/// `wanted` with `depth` levels of subdirectories left: the first file named
/// `wanted` when there is one; else, with depth left, all subdirectories in
/// order, one level less deep; else nothing.
pub open spec fn search_plan_ok(
    entries: Seq<EntryKind>,
    wanted: Seq<char>,
    depth: u16,
    r: SearchPlan,
) -> bool {
    match r {
        SearchPlan::Found(i) => {
            &&& i < entries.len()
            &&& is_wanted(entries[i as int], wanted)
            &&& forall|j: int| 0 <= j < i ==> !is_wanted(#[trigger] entries[j], wanted)
        },
        SearchPlan::Descend(dirs, d) => {
            &&& forall|j: int| 0 <= j < entries.len() ==> !is_wanted(#[trigger] entries[j], wanted)
            &&& depth > 0
            &&& d == depth - 1
            &&& dirs@ == dir_indices(entries, entries.len() as int)
        },
        SearchPlan::NotFound => {
            &&& forall|j: int| 0 <= j < entries.len() ==> !is_wanted(#[trigger] entries[j], wanted)
            &&& depth == 0
        },
    }
}

/// Whether two strings are equal.
fn str_eq(a: &str, b: &str) -> (r: bool)
    ensures
        r == (a@ == b@),
{
    let x = chars_of(a);
    let y = chars_of(b);
    if x.len() != y.len() {
        return false;
    }
    let n = x.len();
    let mut k: usize = 0;
    while k < n
        invariant
            x@ == a@,
            y@ == b@,
            n == x@.len(),
            n == y@.len(),
            k <= n,
            forall|j: int| 0 <= j < k ==> x@[j] == y@[j],
        decreases n - k,
    {
        if x[k] != y[k] {
            assert(x@[k as int] != y@[k as int]);
            return false;
        }
        k = k + 1;
    }
    assert(x@ =~= y@);
    true
}

/// Where the search for the file `wanted` goes in a directory whose entries
/// are `entries`: the directory's own files come first, its subdirectories after.
pub fn search_plan(entries: &Vec<EntryKind>, wanted: &str, depth: u16) -> (r: SearchPlan)
    ensures
        search_plan_ok(entries@, wanted@, depth, r),
{
    let n = entries.len();
    let mut i: usize = 0;
    while i < n
        invariant
            n == entries@.len(),
            i <= n,
            forall|j: int| 0 <= j < i ==> !is_wanted(#[trigger] entries@[j], wanted@),
        decreases n - i,
    {
        match &entries[i] {
            EntryKind::File(name) => {
                if str_eq(name.as_str(), wanted) {
                    return SearchPlan::Found(i);
                }
            },
            _ => {},
        }
        i = i + 1;
    }
    if depth == 0 {
        return SearchPlan::NotFound;
    }
    let mut dirs: Vec<usize> = Vec::new();
    let mut k: usize = 0;
    while k < n
        invariant
            n == entries@.len(),
            k <= n,
            dirs@ == dir_indices(entries@, k as int),
        decreases n - k,
    {
        match &entries[k] {
            EntryKind::Dir => {
                dirs.push(k);
            },
            _ => {},
        }
        k = k + 1;
    }
    SearchPlan::Descend(dirs, depth - 1)
}

/// What `Path::file_stem` gives for the path `p`, as text (`None` when the
/// path has no file name).
pub uninterp spec fn path_file_stem(p: Seq<char>) -> Option<Seq<char>>;

/// What `Path::parent` gives for the path `p`, as text (`None` when the path
/// ends in a root or is empty).
pub uninterp spec fn path_parent(p: Seq<char>) -> Option<Seq<char>>;

/// What `Path::is_absolute` gives for the path `p`.
pub uninterp spec fn path_is_absolute(p: Seq<char>) -> bool;

/// Trusted: `Path::file_stem` of `p` (the file name without its last
/// extension), converted to text; it depends on `p` alone. A stem taken from a
/// `&str` is always valid text, so the conversion never drops one.
#[verifier::external_body]
fn file_stem_of(p: &str) -> (r: Option<String>)
    ensures
        match path_file_stem(p@) {
            Some(s) => r matches Some(x) && x@ == s,
            None => r is None,
        },
{
    Path::new(p).file_stem().and_then(|s| s.to_str()).map(|s| s.to_string())
}

/// Trusted: `Path::parent` of `p` (the path without its final component),
/// converted to text; it depends on `p` alone.
#[verifier::external_body]
fn parent_of(p: &str) -> (r: Option<String>)
    ensures
        match path_parent(p@) {
            Some(s) => r matches Some(x) && x@ == s,
            None => r is None,
        },
{
    Path::new(p).parent().map(|q| q.to_string_lossy().into_owned())
}

/// Trusted: `Path::is_absolute` of `p`; it depends on `p` alone.
#[verifier::external_body]
fn is_absolute(p: &str) -> (r: bool)
    ensures
        r == path_is_absolute(p@),
{
    Path::new(p).is_absolute()
}

/// Where the lyric file of a track is looked for.
#[derive(Debug)]
pub enum LyricLocation {
    /// The track has no local file path, or it has no file name or no parent directory.
    Unknown,
    /// The track's path is relative (the lyric file is not looked for).
    Relative,
    /// Look in this directory for the file of this name.
    At(String, String),
}

/// Where the lyric file of the track at `url` is looked for: nowhere when
/// the URL is not a local file URL or its path has no file stem; `Relative`
/// when the path is relative; nowhere when it has no parent directory; else
/// in the parent directory, under the name `<stem>.lrc`.
pub open spec fn location_ok(url: Seq<char>, r: LyricLocation) -> bool {
    match spec_track_path(url) {
        None => r is Unknown,
        Some(p) => match path_file_stem(p) {
            None => r is Unknown,
            Some(stem) => if !path_is_absolute(p) {
                r is Relative
            } else {
                match path_parent(p) {
                    None => r is Unknown,
                    Some(d) => r matches LyricLocation::At(dir, name) && dir@ == d && name@ == stem
                        + lrc_extension(),
                }
            },
        },
    }
}

/// The directory and the name of the lyric file of the track at `url`.
pub fn lyric_location(url: &str) -> (r: LyricLocation)
    ensures
        location_ok(url@, r),
{
    let path = match track_path(url) {
        Some(p) => p,
        None => {
            return LyricLocation::Unknown;
        },
    };
    let stem = match file_stem_of(path.as_str()) {
        Some(s) => s,
        None => {
            return LyricLocation::Unknown;
        },
    };
    let name = lrc_file_name(stem.as_str());
    if !is_absolute(path.as_str()) {
        return LyricLocation::Relative;
    }
    match parent_of(path.as_str()) {
        Some(dir) => LyricLocation::At(dir, name),
        None => LyricLocation::Unknown,
    }
}

/// The directory indices are exactly the directories among the first `n`
/// entries, each below `n`, in increasing order.
proof fn lemma_dir_indices(entries: Seq<EntryKind>, n: int)
    requires
        0 <= n <= entries.len(),
        entries.len() <= usize::MAX,
    ensures
        forall|k: int|
            0 <= k < dir_indices(entries, n).len() ==> (#[trigger] dir_indices(entries, n)[k]) < n
                && entries[dir_indices(entries, n)[k] as int] is Dir,
        forall|k1: int, k2: int|
            0 <= k1 < k2 < dir_indices(entries, n).len() ==> #[trigger] dir_indices(entries, n)[k1]
                < #[trigger] dir_indices(entries, n)[k2],
        forall|j: int| 0 <= j < n && #[trigger] entries[j] is Dir ==> dir_indices(entries, n).contains(
            j as usize,
        ),
    decreases n,
{
    if n > 0 {
        lemma_dir_indices(entries, n - 1);
        let d = dir_indices(entries, n - 1);
        let e = dir_indices(entries, n);
        if entries[n - 1] is Dir {
            assert(e == d.push((n - 1) as usize));
            assert forall|k1: int, k2: int|
                0 <= k1 < k2 < e.len() implies #[trigger] e[k1] < #[trigger] e[k2] by {
                if k2 == d.len() {
                    assert(e[k1] == d[k1]);
                } else {
                    assert(e[k1] == d[k1] && e[k2] == d[k2]);
                }
            }
            assert forall|k: int| 0 <= k < e.len() implies (#[trigger] e[k]) < n
                && entries[e[k] as int] is Dir by {
                if k < d.len() {
                    assert(e[k] == d[k]);
                }
            }
            assert forall|j: int| 0 <= j < n && #[trigger] entries[j] is Dir implies e.contains(
                j as usize,
            ) by {
                if j < n - 1 {
                    let k = choose|k: int| 0 <= k < d.len() && d[k] == j as usize;
                    assert(e[k] == j as usize);
                } else {
                    assert(e[d.len() as int] == j as usize);
                }
            }
        } else {
            assert(e =~= d);
        }
    }
}

/// The search finds the first regular file whose name is exactly `wanted`,
/// and finds one whenever there is one; otherwise it descends, one level less
/// deep, into exactly the subdirectories, in listing order, while depth is left.
pub proof fn lemma_search_plan_exact(
    entries: Seq<EntryKind>,
    wanted: Seq<char>,
    depth: u16,
    r: SearchPlan,
)
    requires
        search_plan_ok(entries, wanted, depth, r),
        entries.len() <= usize::MAX,
    ensures
        r matches SearchPlan::Found(i) ==> (entries[i as int] matches EntryKind::File(n) && n@
            == wanted),
        r matches SearchPlan::Found(i) ==> forall|j: int|
            0 <= j < i ==> !(#[trigger] entries[j] matches EntryKind::File(n) && n@ == wanted),
        (exists|j: int|
            0 <= j < entries.len() && (#[trigger] entries[j] matches EntryKind::File(n) && n@
                == wanted)) ==> r is Found,
        r matches SearchPlan::Descend(dirs, d) ==> {
            &&& d + 1 == depth
            &&& forall|k: int|
                0 <= k < dirs@.len() ==> (#[trigger] dirs@[k]) < entries.len()
                    && entries[dirs@[k] as int] is Dir
            &&& forall|k1: int, k2: int|
                0 <= k1 < k2 < dirs@.len() ==> #[trigger] dirs@[k1] < #[trigger] dirs@[k2]
            &&& forall|j: int|
                0 <= j < entries.len() && #[trigger] entries[j] is Dir ==> dirs@.contains(
                    j as usize,
                )
        },
        r is NotFound ==> depth == 0,
{
    lemma_dir_indices(entries, entries.len() as int);
    if exists|j: int|
        0 <= j < entries.len() && (#[trigger] entries[j] matches EntryKind::File(n) && n@ == wanted) {
        let j = choose|j: int|
            0 <= j < entries.len() && (#[trigger] entries[j] matches EntryKind::File(n) && n@
                == wanted);
        assert(is_wanted(entries[j], wanted));
    }
    if let SearchPlan::Found(i) = r {
        assert forall|j: int| 0 <= j < i implies !(#[trigger] entries[j] matches EntryKind::File(
            n,
        ) && n@ == wanted) by {
            assert(!is_wanted(entries[j], wanted));
        }
    }
}

} // verus!
