//! Marks the entries of a snapshot that the version-control ignore patterns
//! match.
use crate::filter::{join_path, join_path_exec};
use crate::models::FsEntry;
use crate::text::{chars_of, slice_string, split_ranges, string_of};
use ignore::gitignore::{Gitignore, GitignoreBuilder};
use vstd::prelude::*;

verus! {

#[verifier::external_type_specification]
#[verifier::external_body]
pub struct ExGitignore(Gitignore);

#[verifier::external_type_specification]
#[verifier::external_body]
pub struct ExGitignoreBuilder(GitignoreBuilder);

/// Whether the patterns of an ignore file with text `text`, found in the
/// directory `root`, ignore `path` (a directory when `is_dir`), as the
/// `ignore` crate decides it.
pub uninterp spec fn pattern_verdict(root: Seq<char>, text: Seq<char>, path: Seq<char>, is_dir: bool) -> bool;

/// Relies on `GitignoreBuilder::new`: a builder for patterns relative to `root`.
#[verifier::external_body]
fn new_builder(root: &str) -> GitignoreBuilder {
    GitignoreBuilder::new(root)
}

/// Relies on `GitignoreBuilder::add_line`: adds one line of an ignore file; a
/// line that is no valid pattern is left out.
#[verifier::external_body]
fn add_pattern_line(builder: &mut GitignoreBuilder, line: &str) {
    let _ = builder.add_line(None, line);
}

/// Relies on `GitignoreBuilder::build`: the matcher, or nothing when the
/// patterns cannot be compiled together.
#[verifier::external_body]
fn build_matcher(builder: &GitignoreBuilder) -> Option<Gitignore> {
    builder.build().ok()
}

/// The compiled patterns of one ignore file, with the directory it lies in
/// and its text, from which alone the matcher is built.
pub struct IgnorePatterns {
    root: String,
    text: String,
    matcher: Option<Gitignore>,
}

impl IgnorePatterns {
    pub closed spec fn root(&self) -> Seq<char> {
        self.root@
    }

    pub closed spec fn text(&self) -> Seq<char> {
        self.text@
    }

    /// The patterns of the ignore file with text `text` in the directory
    /// `root`: its lines, as a line reader gives them, each added in turn.
    pub fn new(root: &str, text: &str) -> (r: IgnorePatterns)
        ensures
            r.root() == root@,
            r.text() == text@,
    {
        let mut builder = new_builder(root);
        let s = chars_of(text);
        let pieces = split_ranges(&s, 0, s.len(), '\n');
        let mut k: usize = 0;
        while k < pieces.len()
            invariant
                k <= pieces@.len(),
                forall|q: int|
                    0 <= q < pieces@.len() ==> (#[trigger] pieces@[q]).0 <= pieces@[q].1
                        <= s@.len(),
            decreases pieces@.len() - k,
        {
            let (mut a, mut b) = pieces[k];
            if b > a && s[b - 1] == '\r' {
                b = b - 1;
            }
            if k == 0 {
                while a < b && s[a] == '\u{feff}'
                    invariant
                        a <= b <= s@.len(),
                    decreases b - a,
                {
                    a = a + 1;
                }
            }
            add_pattern_line(&mut builder, slice_string(&s, a, b).as_str());
            k = k + 1;
        }
        let matcher = build_matcher(&builder);
        IgnorePatterns { root: String::from_str(root), text: String::from_str(text), matcher }
    }

    /// Relies on `Gitignore::matched` and `Match::is_ignore`: the matcher was
    /// built by `new` from the root and the text alone, so its verdict on
    /// `path` is a function of those three; no matcher ignores nothing.
    #[verifier::external_body]
    fn ignores(&self, path: &str, is_dir: bool) -> (r: bool)
        ensures
            r == pattern_verdict(self.root(), self.text(), path@, is_dir),
    {
        match &self.matcher {
            Some(g) => g.matched(path, is_dir).is_ignore(),
            None => false,
        }
    }
}

/// The verdict that an entry at `path` gets: none without patterns.
pub open spec fn verdict(patterns: Option<IgnorePatterns>, path: Seq<char>, is_dir: bool) -> bool {
    match patterns {
        Some(p) => pattern_verdict(p.root(), p.text(), path, is_dir),
        None => false,
    }
}

/// Every entry below `e`, found at `path`, carries the verdict on its own
/// path and kind.
pub open spec fn marks_ok(e: FsEntry, path: Seq<char>, patterns: Option<IgnorePatterns>) -> bool
    decreases e, 1int, 0int,
{
    marks_ok_upto(e, path, patterns, e.children@.len() as int)
}

pub open spec fn marks_ok_upto(
    e: FsEntry,
    path: Seq<char>,
    patterns: Option<IgnorePatterns>,
    n: int,
) -> bool
    decreases e, 0int, n,
{
    if n <= 0 || n > e.children@.len() {
        true
    } else {
        let c = e.children@[n - 1];
        let cpath = join_path(path, c.name@);
        &&& marks_ok_upto(e, path, patterns, n - 1)
        &&& c.ignored_by_pattern == verdict(patterns, cpath, c.is_dir)
        &&& marks_ok(c, cpath, patterns)
    }
}

/// What a snapshot entry holds apart from the pattern verdicts.
pub struct EntryView {
    pub name: Seq<char>,
    pub is_dir: bool,
    pub is_file: bool,
    pub children: Seq<EntryView>,
}

pub open spec fn entry_view(e: FsEntry) -> EntryView
    decreases e, 1int, 0int,
{
    EntryView {
        name: e.name@,
        is_dir: e.is_dir,
        is_file: e.is_file,
        children: entry_views(e, e.children@.len() as int),
    }
}

pub open spec fn entry_views(e: FsEntry, n: int) -> Seq<EntryView>
    decreases e, 0int, n,
{
    if n <= 0 || n > e.children@.len() {
        Seq::<EntryView>::empty()
    } else {
        entry_views(e, n - 1).push(entry_view(e.children@[n - 1]))
    }
}

proof fn lemma_views_prefix(e: FsEntry, n: int, src: FsEntry)
    requires
        0 <= n <= e.children@.len(),
        e.children@.len() == src.children@.len(),
        forall|i: int|
            0 <= i < e.children@.len() ==> entry_view(#[trigger] e.children@[i]) == entry_view(
                src.children@[i],
            ),
    ensures
        entry_views(e, n) == entry_views(src, n),
    decreases n,
{
    if n > 0 {
        lemma_views_prefix(e, n - 1, src);
    }
}

proof fn lemma_marks_prefix(e: FsEntry, path: Seq<char>, patterns: Option<IgnorePatterns>, n: int)
    requires
        0 <= n <= e.children@.len(),
        forall|i: int|
            0 <= i < e.children@.len() ==> (#[trigger] e.children@[i]).ignored_by_pattern
                == verdict(patterns, join_path(path, e.children@[i].name@), e.children@[i].is_dir)
                && marks_ok(e.children@[i], join_path(path, e.children@[i].name@), patterns),
    ensures
        marks_ok_upto(e, path, patterns, n),
    decreases n,
{
    if n > 0 {
        lemma_marks_prefix(e, path, patterns, n - 1);
    }
}

/// A copy of `e`, found at `path`, whose entries below it carry the
/// verdicts of `patterns`; `flag` is its own.
fn mark_entry(e: &FsEntry, path: &Vec<char>, patterns: &Option<IgnorePatterns>, flag: bool) -> (r:
    FsEntry)
    ensures
        entry_view(r) == entry_view(*e),
        r.ignored_by_pattern == flag,
        marks_ok(r, path@, *patterns),
    decreases e,
{
    let mut children: Vec<FsEntry> = Vec::new();
    let mut k: usize = 0;
    while k < e.children.len()
        invariant
            k <= e.children@.len(),
            children@.len() == k,
            forall|i: int|
                0 <= i < k ==> entry_view(#[trigger] children@[i]) == entry_view(e.children@[i]),
            forall|i: int|
                0 <= i < k ==> (#[trigger] children@[i]).ignored_by_pattern == verdict(
                    *patterns,
                    join_path(path@, children@[i].name@),
                    children@[i].is_dir,
                ) && marks_ok(children@[i], join_path(path@, children@[i].name@), *patterns),
        decreases e.children@.len() - k,
    {
        let c = &e.children[k];
        let cpath = join_path_exec(path, &chars_of(c.name.as_str()));
        let v = match patterns {
            Some(p) => p.ignores(string_of(cpath.as_slice()).as_str(), c.is_dir),
            None => false,
        };
        let m = mark_entry(c, &cpath, patterns, v);
        assert(entry_view(m).name == m.name@);
        assert(entry_view(m).is_dir == m.is_dir);
        children.push(m);
        k = k + 1;
    }
    let r = FsEntry {
        name: e.name.clone(),
        is_dir: e.is_dir,
        is_file: e.is_file,
        ignored_by_pattern: flag,
        children,
    };
    proof {
        lemma_views_prefix(r, r.children@.len() as int, *e);
        lemma_marks_prefix(r, path@, *patterns, r.children@.len() as int);
    }
    r
}

/// The snapshot `root` of the directory at `root_dir`, each entry below the
/// root marked with the verdict of `patterns` on its path and kind: with no
/// patterns, nothing is marked.
pub fn mark_ignored_by_patterns(
    root_dir: &str,
    root: &FsEntry,
    patterns: &Option<IgnorePatterns>,
) -> (r: FsEntry)
    ensures
        entry_view(r) == entry_view(*root),
        !r.ignored_by_pattern,
        marks_ok(r, root_dir@, *patterns),
{
    mark_entry(root, &chars_of(root_dir), patterns, false)
}

} // verus!
