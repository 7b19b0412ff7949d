//! Selection of native descriptors among the entries that a directory walk
//! found below a search root.
use vstd::prelude::*;
use crate::common::SearchPath;
use crate::text::{chars_of, has_extension, extension};

verus! {

/// One entry that a directory walk found.
#[derive(Debug, Clone)]
pub struct WalkEntry {
    /// The entry's path.
    pub path: String,
    /// How many levels below the root it lies: the root itself is at 0.
    pub depth: usize,
    /// Whether the entry is a regular file.
    pub is_file: bool,
    /// Whether the entry is a directory.
    pub is_dir: bool,
}

/// The characters of each string.
pub open spec fn strs_view(s: Seq<String>) -> Seq<Seq<char>> {
    s.map_values(|x: String| x@)
}

/// Whether `e` is a descriptor below a root scanned down to `max_depth`
/// levels: it lies between one and `max_depth` levels deep, is a directory
/// (`want_dir`) or a regular file, and has the extension `ext`.
pub open spec fn is_descriptor(
    e: WalkEntry,
    max_depth: u8,
    want_dir: bool,
    ext: Seq<char>,
    windows: bool,
) -> bool {
    &&& 1 <= e.depth <= max_depth
    &&& if want_dir {
        e.is_dir
    } else {
        e.is_file
    }
    &&& extension(e.path@, windows) == Some(ext)
}

/// The paths of the descriptors among `es`, in walk order.
pub open spec fn descriptors(
    es: Seq<WalkEntry>,
    max_depth: u8,
    want_dir: bool,
    ext: Seq<char>,
    windows: bool,
) -> Seq<Seq<char>>
    decreases es.len(),
{
    if es.len() == 0 {
        seq![]
    } else {
        let r = descriptors(es.drop_last(), max_depth, want_dir, ext, windows);
        if is_descriptor(es.last(), max_depth, want_dir, ext, windows) {
            r.push(es.last().path@)
        } else {
            r
        }
    }
}

/// Every descriptor comes from an entry that lies between one and
/// `max_depth` levels below the root; so a root of depth 0 yields nothing.
pub proof fn lemma_depth_bound(
    es: Seq<WalkEntry>,
    max_depth: u8,
    want_dir: bool,
    ext: Seq<char>,
    windows: bool,
)
    ensures
        forall|k: int|
            0 <= k < descriptors(es, max_depth, want_dir, ext, windows).len() ==> exists|j: int|
                0 <= j < es.len() && es[j].path@ == #[trigger] descriptors(
                    es,
                    max_depth,
                    want_dir,
                    ext,
                    windows,
                )[k] && 1 <= es[j].depth <= max_depth,
        max_depth == 0 ==> descriptors(es, max_depth, want_dir, ext, windows).len() == 0,
    decreases es.len(),
{
    if es.len() > 0 {
        let p = es.drop_last();
        lemma_depth_bound(p, max_depth, want_dir, ext, windows);
        let d = descriptors(es, max_depth, want_dir, ext, windows);
        let dp = descriptors(p, max_depth, want_dir, ext, windows);
        assert forall|k: int| 0 <= k < d.len() implies exists|j: int|
            0 <= j < es.len() && es[j].path@ == #[trigger] d[k] && 1 <= es[j].depth
                <= max_depth by {
            if k < dp.len() {
                assert(d[k] == dp[k]);
                let j = choose|j: int|
                    0 <= j < p.len() && p[j].path@ == dp[k] && 1 <= p[j].depth <= max_depth;
                assert(es[j] == p[j]);
            } else {
                assert(es[es.len() - 1].path@ == d[k]);
            }
        }
    }
}

/// The paths of the descriptors that `entries`, walked below `root`, hold:
/// entries between one and `root.depth` levels deep, directories when
/// `want_dir` and regular files otherwise, with the extension `ext`.
pub fn select_descriptors(
    root: &SearchPath,
    entries: &Vec<WalkEntry>,
    want_dir: bool,
    ext: &str,
    windows: bool,
) -> (r: Vec<String>)
    ensures
        strs_view(r@) == descriptors(entries@, root.depth, want_dir, ext@, windows),
        forall|k: int|
            0 <= k < r@.len() ==> exists|j: int|
                0 <= j < entries@.len() && entries@[j].path@ == #[trigger] r@[k]@ && 1
                    <= entries@[j].depth <= root.depth,
        root.depth == 0 ==> r@.len() == 0,
{
    let ext_chars = chars_of(ext);
    let mut r: Vec<String> = Vec::new();
    let mut i: usize = 0;
    while i < entries.len()
        invariant
            i <= entries@.len(),
            ext_chars@ == ext@,
            strs_view(r@) == descriptors(entries@.take(i as int), root.depth, want_dir, ext@, windows),
        decreases entries@.len() - i,
    {
        let e = &entries[i];
        assert(entries@.take(i + 1 as int).drop_last() =~= entries@.take(i as int));
        let kind_ok = if want_dir {
            e.is_dir
        } else {
            e.is_file
        };
        if 1 <= e.depth && e.depth <= root.depth as usize && kind_ok {
            let p = chars_of(e.path.as_str());
            if has_extension(&p, &ext_chars, windows) {
                r.push(e.path.clone());
                assert(strs_view(r@) =~= descriptors(entries@.take(i as int), root.depth, want_dir, ext@, windows).push(e.path@));
            }
        }
        i = i + 1;
    }
    assert(entries@.take(entries@.len() as int) =~= entries@);
    proof {
        lemma_depth_bound(entries@, root.depth, want_dir, ext@, windows);
        assert forall|k: int| 0 <= k < r@.len() implies exists|j: int|
            0 <= j < entries@.len() && entries@[j].path@ == #[trigger] r@[k]@ && 1
                <= entries@[j].depth <= root.depth by {
            assert(r@[k]@ == strs_view(r@)[k]);
        }
    }
    r
}

} // verus!
