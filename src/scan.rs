use vstd::prelude::*;

use crate::reorder::{keep_map, lemma_keep_map_reorder};

verus! {

/// Which immediate children of a directory a batch run works on.
#[derive(Clone, Copy, Debug, PartialEq, Eq, Structural)]
pub enum Selection {
    /// Directories that hold a `.git` entry.
    GitRepos,
    /// Regular files whose extension is exactly `ttf`.
    TtfFiles,
}

/// One immediate child of a scanned directory, as the scan saw it.
#[derive(Clone, Debug)]
pub struct DirectoryEntry {
    pub path: String,
    pub is_dir: bool,
    pub is_file: bool,
    /// Whether the entry holds a `.git` subentry.
    pub has_git: bool,
    /// The extension of the entry's file name, if it has one.
    pub extension: Option<String>,
}

/// Whether `e` is one of the entries that `sel` picks.
pub open spec fn matches(sel: Selection, e: DirectoryEntry) -> bool {
    match sel {
        Selection::GitRepos => e.is_dir && e.has_git,
        Selection::TtfFiles => e.is_file && e.extension is Some && e.extension->Some_0@ == "ttf"@,
    }
}

/// The path of `e` where `sel` picks it.
pub open spec fn pick(sel: Selection) -> spec_fn(DirectoryEntry) -> Option<Seq<char>> {
    |e: DirectoryEntry|
        if matches(sel, e) {
            Some(e.path@)
        } else {
            None
        }
}

/// The paths of the entries that `sel` picks, in scan order.
pub open spec fn selected(entries: Seq<DirectoryEntry>, sel: Selection) -> Seq<Seq<char>> {
    keep_map(entries, pick(sel))
}

/// Whether `sel` picks `e`.
pub fn is_match(e: &DirectoryEntry, sel: Selection) -> (r: bool)
    ensures
        r == matches(sel, *e),
{
    match sel {
        Selection::GitRepos => e.is_dir && e.has_git,
        Selection::TtfFiles => {
            if !e.is_file {
                return false;
            }
            match &e.extension {
                Some(x) => {
                    let ttf = String::from_str("ttf");
                    *x == ttf
                },
                None => false,
            }
        },
    }
}

/// The paths of the entries that `sel` picks, in scan order.
pub fn select(entries: &Vec<DirectoryEntry>, sel: Selection) -> (r: Vec<String>)
    ensures
        r@.map_values(|p: String| p@) == selected(entries@, sel),
{
    let mut r: Vec<String> = Vec::new();
    let mut i: usize = 0;
    while i < entries.len()
        invariant
            i <= entries.len(),
            r@.map_values(|p: String| p@) == selected(entries@.take(i as int), sel),
        decreases entries.len() - i,
    {
        let e = &entries[i];
        assert(entries@.take(i + 1).drop_last() =~= entries@.take(i as int));
        assert(entries@.take(i + 1).last() == *e);
        let ghost before = r@;
        if is_match(e, sel) {
            r.push(e.path.clone());
            assert(r@.map_values(|p: String| p@) =~= before.map_values(|p: String| p@).push(e.path@));
        }
        i += 1;
    }
    assert(entries@.take(entries.len() as int) =~= entries@);
    r
}

/// The paths of the git repositories among `entries`.
pub fn select_git_repos(entries: &Vec<DirectoryEntry>) -> (r: Vec<String>)
    ensures
        r@.map_values(|p: String| p@) == selected(entries@, Selection::GitRepos),
{
    select(entries, Selection::GitRepos)
}

/// The paths of the `ttf` files among `entries`.
pub fn select_ttf_files(entries: &Vec<DirectoryEntry>) -> (r: Vec<String>)
    ensures
        r@.map_values(|p: String| p@) == selected(entries@, Selection::TtfFiles),
{
    select(entries, Selection::TtfFiles)
}

/// Of a directory whose entries hold `n` that `sel` picks and `m` that it
/// does not, the selection holds exactly `n` paths, and `n + m` is the number
/// of entries.
pub proof fn lemma_selection_count(entries: Seq<DirectoryEntry>, sel: Selection)
    ensures
        selected(entries, sel).len() == entries.filter(|e: DirectoryEntry| matches(sel, e)).len(),
        entries.len() == entries.filter(|e: DirectoryEntry| matches(sel, e)).len()
            + entries.filter(|e: DirectoryEntry| !matches(sel, e)).len(),
    decreases entries.len(),
{
    let yes = |e: DirectoryEntry| matches(sel, e);
    let no = |e: DirectoryEntry| !matches(sel, e);
    if entries.len() == 0 {
        assert(entries.filter(yes) =~= Seq::<DirectoryEntry>::empty());
        assert(entries.filter(no) =~= Seq::<DirectoryEntry>::empty());
    } else {
        let t = entries.drop_last();
        let x = entries.last();
        lemma_selection_count(t, sel);
        assert(t.push(x) =~= entries);
        t.lemma_filter_push(x, yes);
        t.lemma_filter_push(x, no);
    }
}

/// The selection does not depend on the order in which the scan met the
/// entries: two scans of the same entries select the same paths, as often,
/// and as many.
pub proof fn lemma_selection_ignores_order(
    a: Seq<DirectoryEntry>,
    b: Seq<DirectoryEntry>,
    sel: Selection,
)
    requires
        a.to_multiset() == b.to_multiset(),
    ensures
        selected(a, sel).to_multiset() == selected(b, sel).to_multiset(),
        selected(a, sel).len() == selected(b, sel).len(),
{
    lemma_keep_map_reorder(a, b, pick(sel));
}

} // verus!
