//! The two traversals of a directory snapshot: the flat text tree with its
//! file list, and the selectable tree of nodes.
use crate::filter::{default_ignored, default_ignored_chars, join_path, join_path_exec, TreeFilter};
use crate::models::{
    item_view, lemma_item_view_children, views_of_items, DirectoryItem, FsEntry, ItemView,
    TreeStructure,
};
use crate::text::{chars_of, name_less, name_lt, push_str, split, split_ranges, string_of, views};
use vstd::prelude::*;

verus! {

/// Directories before files, then by name.
pub open spec fn entry_lt(a: FsEntry, b: FsEntry) -> bool {
    (a.is_dir && !b.is_dir) || (a.is_dir == b.is_dir && name_lt(a.name@, b.name@))
}

/// `i` placed in the sorted `s` before the first entry that it precedes.
pub open spec fn insert_sorted(ch: Seq<FsEntry>, s: Seq<int>, i: int) -> Seq<int>
    decreases s.len(),
{
    if s.len() == 0 {
        seq![i]
    } else if entry_lt(ch[i], ch[s[0]]) {
        seq![i] + s
    } else {
        seq![s[0]] + insert_sorted(ch, s.drop_first(), i)
    }
}

/// The indices `s` into `ch`, stably sorted by `entry_lt`.
pub open spec fn sort_indices(ch: Seq<FsEntry>, s: Seq<int>) -> Seq<int>
    decreases s.len(),
{
    if s.len() == 0 {
        s
    } else {
        insert_sorted(ch, sort_indices(ch, s.drop_last()), s.last())
    }
}

/// Whether the entry `c`, found at `cpath`, passes the ignore gates and, for
/// a file, the extension gate.
pub open spec fn shows(f: TreeFilter, c: FsEntry, cpath: Seq<char>) -> bool {
    f.passes_ignore(c.ignored_by_pattern, default_ignored(cpath)) && (c.is_dir
        || f.passes_extension(c.name@))
}

/// Indices below `n` of the entries of `ch` that show, in listing order.
pub open spec fn shown_upto(f: TreeFilter, ch: Seq<FsEntry>, path: Seq<char>, n: int) -> Seq<int>
    decreases n,
{
    if n <= 0 {
        Seq::<int>::empty()
    } else {
        let r = shown_upto(f, ch, path, n - 1);
        if shows(f, ch[n - 1], join_path(path, ch[n - 1].name@)) {
            r.push(n - 1)
        } else {
            r
        }
    }
}

/// The children of `e` that show, sorted.
pub open spec fn shown_order(f: TreeFilter, e: FsEntry, path: Seq<char>) -> Seq<int> {
    sort_indices(e.children@, shown_upto(f, e.children@, path, e.children@.len() as int))
}

/// `ord` without the directories that are excluded by hand.
pub open spec fn drop_excluded(f: TreeFilter, ch: Seq<FsEntry>, rel: Seq<char>, ord: Seq<int>) -> Seq<
    int,
>
    decreases ord.len(),
{
    if ord.len() == 0 {
        ord
    } else {
        let r = drop_excluded(f, ch, rel, ord.drop_last());
        let c = ch[ord.last()];
        if c.is_dir && f.excludes_dir(join_path(rel, c.name@)) {
            r
        } else {
            r.push(ord.last())
        }
    }
}

/// The children of `e` that the text tree lists, in order.
pub open spec fn listed_order(f: TreeFilter, e: FsEntry, path: Seq<char>, rel: Seq<char>) -> Seq<
    int,
> {
    drop_excluded(f, e.children@, rel, shown_order(f, e, path))
}

/// One line of the text tree and the entry it stands for.
pub struct Row {
    pub line: Seq<char>,
    pub path: Seq<char>,
    pub is_dir: bool,
    pub is_file: bool,
}

pub open spec fn connector(last: bool) -> Seq<char> {
    if last {
        "└── "@
    } else {
        "├── "@
    }
}

pub open spec fn indent(last: bool) -> Seq<char> {
    if last {
        "    "@
    } else {
        "│   "@
    }
}

pub open spec fn display_name(c: FsEntry) -> Seq<char> {
    if c.is_dir {
        c.name@.push('/')
    } else {
        c.name@
    }
}

/// The rows for the children `ord[k..]` of `e`, each followed by the rows of
/// its own subtree.
pub open spec fn rows(
    f: TreeFilter,
    e: FsEntry,
    path: Seq<char>,
    rel: Seq<char>,
    prefix: Seq<char>,
    ord: Seq<int>,
    k: int,
) -> Seq<Row>
    decreases e, ord.len() - k,
{
    if k < 0 || k >= ord.len() || !(0 <= ord[k] < e.children@.len()) {
        Seq::<Row>::empty()
    } else {
        let c = e.children@[ord[k]];
        let last = k == ord.len() - 1;
        let cpath = join_path(path, c.name@);
        let crel = join_path(rel, c.name@);
        let row = Row {
            line: prefix + connector(last) + display_name(c),
            path: cpath,
            is_dir: c.is_dir,
            is_file: c.is_file,
        };
        let sub = if c.is_dir {
            rows(f, c, cpath, crel, prefix + indent(last), listed_order(f, c, cpath, crel), 0)
        } else {
            Seq::<Row>::empty()
        };
        seq![row] + sub + rows(f, e, path, rel, prefix, ord, k + 1)
    }
}

/// Each row's line on a line of its own.
pub open spec fn rows_text(rs: Seq<Row>) -> Seq<char>
    decreases rs.len(),
{
    if rs.len() == 0 {
        Seq::<char>::empty()
    } else {
        rows_text(rs.drop_last()).push('\n') + rs.last().line
    }
}

/// Paths of the rows that stand for regular files.
pub open spec fn rows_files(rs: Seq<Row>) -> Seq<Seq<char>>
    decreases rs.len(),
{
    if rs.len() == 0 {
        Seq::<Seq<char>>::empty()
    } else if !rs.last().is_dir && rs.last().is_file {
        rows_files(rs.drop_last()).push(rs.last().path)
    } else {
        rows_files(rs.drop_last())
    }
}

/// Paths of the rows that stand for anything but a directory.
pub open spec fn rows_entries(rs: Seq<Row>) -> Seq<Seq<char>>
    decreases rs.len(),
{
    if rs.len() == 0 {
        Seq::<Seq<char>>::empty()
    } else if !rs.last().is_dir {
        rows_entries(rs.drop_last()).push(rs.last().path)
    } else {
        rows_entries(rs.drop_last())
    }
}

/// The rows of the whole text tree under the root directory at `root_path`.
pub open spec fn flat_rows(f: TreeFilter, root: FsEntry, root_path: Seq<char>) -> Seq<Row> {
    let empty = Seq::<char>::empty();
    rows(f, root, root_path, empty, empty, listed_order(f, root, root_path, empty), 0)
}

pub proof fn lemma_rows_concat(a: Seq<Row>, b: Seq<Row>)
    ensures
        rows_text(a + b) == rows_text(a) + rows_text(b),
        rows_files(a + b) == rows_files(a) + rows_files(b),
        rows_entries(a + b) == rows_entries(a) + rows_entries(b),
    decreases b.len(),
{
    if b.len() == 0 {
        assert(a + b =~= a);
        assert(rows_text(b) =~= Seq::<char>::empty());
        assert(rows_text(a) + rows_text(b) =~= rows_text(a));
        assert(rows_files(a) + rows_files(b) =~= rows_files(a));
        assert(rows_entries(a) + rows_entries(b) =~= rows_entries(a));
    } else {
        lemma_rows_concat(a, b.drop_last());
        assert((a + b).drop_last() =~= a + b.drop_last());
        assert(rows_text(a + b) =~= rows_text(a) + rows_text(b));
        assert(rows_files(a + b) =~= rows_files(a) + rows_files(b));
        assert(rows_entries(a + b) =~= rows_entries(a) + rows_entries(b));
    }
}

/// The nodes for the children `ord[k..]` of `e`: a directory stays when
/// something under it stays or it is excluded by hand.
pub open spec fn nodes(
    f: TreeFilter,
    e: FsEntry,
    path: Seq<char>,
    rel: Seq<char>,
    ord: Seq<int>,
    k: int,
) -> Seq<ItemView>
    decreases e, ord.len() - k,
{
    if k < 0 || k >= ord.len() || !(0 <= ord[k] < e.children@.len()) {
        Seq::<ItemView>::empty()
    } else {
        let c = e.children@[ord[k]];
        let cpath = join_path(path, c.name@);
        let crel = join_path(rel, c.name@);
        let rest = nodes(f, e, path, rel, ord, k + 1);
        if c.is_dir {
            let excluded = f.excludes_dir(crel);
            let kids = nodes(f, c, cpath, crel, shown_order(f, c, cpath), 0);
            if kids.len() > 0 || excluded {
                seq![
                    ItemView {
                        name: c.name@,
                        path: cpath,
                        is_dir: true,
                        is_selected: false,
                        is_excluded_by_config: excluded,
                        children: kids,
                    },
                ] + rest
            } else {
                rest
            }
        } else {
            seq![
                ItemView {
                    name: c.name@,
                    path: cpath,
                    is_dir: false,
                    is_selected: false,
                    is_excluded_by_config: false,
                    children: Seq::<ItemView>::empty(),
                },
            ] + rest
        }
    }
}

/// The last component of a path that names something, as `Path::file_name`
/// finds it among the pieces between separators.
pub open spec fn last_component(ps: Seq<Seq<char>>) -> Option<Seq<char>>
    decreases ps.len(),
{
    if ps.len() == 0 {
        None
    } else if ps.last().len() == 0 || ps.last() == seq!['.'] {
        last_component(ps.drop_last())
    } else if ps.last() == seq!['.', '.'] {
        None
    } else {
        Some(ps.last())
    }
}

/// The name shown for the root: its last component, or `.`.
pub open spec fn root_name(root_path: Seq<char>) -> Seq<char> {
    match last_component(split(root_path, '/')) {
        Some(n) => n,
        None => seq!['.'],
    }
}

/// The selectable tree for the root directory at `root_path`.
pub open spec fn root_node(f: TreeFilter, root: FsEntry, root_path: Seq<char>) -> ItemView {
    let empty = Seq::<char>::empty();
    ItemView {
        name: root_name(root_path),
        path: root_path,
        is_dir: true,
        is_selected: false,
        is_excluded_by_config: f.excludes_dir(empty),
        children: nodes(f, root, root_path, empty, shown_order(f, root, root_path), 0),
    }
}

/// The spec view of a vector of indices.
pub open spec fn ints(s: Seq<usize>) -> Seq<int> {
    s.map_values(|x: usize| x as int)
}

proof fn lemma_insert_at(ch: Seq<FsEntry>, s: Seq<int>, i: int, j: int)
    requires
        0 <= j <= s.len(),
        forall|m: int| 0 <= m < j ==> !entry_lt(ch[i], #[trigger] ch[s[m]]),
        j == s.len() || entry_lt(ch[i], ch[s[j]]),
    ensures
        insert_sorted(ch, s, i) == s.insert(j, i),
    decreases s.len(),
{
    if s.len() == 0 {
        assert(s.insert(j, i) =~= seq![i]);
    } else if j == 0 {
        assert(s.insert(j, i) =~= seq![i] + s);
    } else {
        assert(!entry_lt(ch[i], ch[s[0]]));
        let t = s.drop_first();
        assert forall|m: int| 0 <= m < j - 1 implies !entry_lt(ch[i], #[trigger] ch[t[m]]) by {
            assert(t[m] == s[m + 1]);
        }
        lemma_insert_at(ch, t, i, j - 1);
        assert(s.insert(j, i) =~= seq![s[0]] + t.insert(j - 1, i));
    }
}

fn entry_less(a: &FsEntry, b: &FsEntry) -> (r: bool)
    ensures
        r == entry_lt(*a, *b),
{
    if a.is_dir != b.is_dir {
        a.is_dir
    } else {
        name_less(&chars_of(a.name.as_str()), &chars_of(b.name.as_str()))
    }
}

fn shows_exec(f: &TreeFilter, c: &FsEntry, cpath: &Vec<char>) -> (r: bool)
    ensures
        r == shows(*f, *c, cpath@),
{
    f.passes_ignore_exec(c.ignored_by_pattern, default_ignored_chars(cpath)) && (c.is_dir
        || f.passes_extension_exec(&chars_of(c.name.as_str())))
}

/// The children of `e` that show, sorted.
fn shown_children(f: &TreeFilter, e: &FsEntry, path: &Vec<char>) -> (r: Vec<usize>)
    ensures
        ints(r@) == shown_order(*f, *e, path@),
        forall|m: int| 0 <= m < r@.len() ==> #[trigger] r@[m] < e.children@.len(),
{
    let ch = &e.children;
    let mut out: Vec<usize> = Vec::new();
    let mut i: usize = 0;
    while i < ch.len()
        invariant
            i <= ch@.len(),
            ch == &e.children,
            ints(out@) == sort_indices(ch@, shown_upto(*f, ch@, path@, i as int)),
            forall|m: int| 0 <= m < out@.len() ==> #[trigger] out@[m] < i,
        decreases ch@.len() - i,
    {
        let cpath = join_path_exec(path, &chars_of(ch[i].name.as_str()));
        if shows_exec(f, &ch[i], &cpath) {
            let mut j: usize = 0;
            while j < out.len() && !entry_less(&ch[i], &ch[out[j]])
                invariant
                    j <= out@.len(),
                    i < ch@.len(),
                    forall|m: int| 0 <= m < out@.len() ==> #[trigger] out@[m] < i,
                    forall|m: int|
                        0 <= m < j ==> !entry_lt(ch@[i as int], #[trigger] ch@[out@[m] as int]),
                decreases out@.len() - j,
            {
                j = j + 1;
            }
            let ghost before = ints(out@);
            proof {
                assert forall|m: int| 0 <= m < j implies !entry_lt(
                    ch@[i as int],
                    #[trigger] ch@[before[m]],
                ) by {
                    assert(before[m] == out@[m] as int);
                    assert(!entry_lt(ch@[i as int], ch@[out@[m] as int]));
                }
                if j < out@.len() {
                    assert(before[j as int] == out@[j as int] as int);
                }
                lemma_insert_at(ch@, before, i as int, j as int);
            }
            out.insert(j, i);
            assert(ints(out@) =~= before.insert(j as int, i as int));
            assert(shown_upto(*f, ch@, path@, i + 1) == shown_upto(*f, ch@, path@, i as int).push(
                i as int,
            ));
            assert(shown_upto(*f, ch@, path@, i + 1).drop_last() =~= shown_upto(
                *f,
                ch@,
                path@,
                i as int,
            ));
        }
        i = i + 1;
    }
    out
}

/// The children of `e` that the text tree lists, in order.
fn listed_children(f: &TreeFilter, e: &FsEntry, path: &Vec<char>, rel: &Vec<char>) -> (r: Vec<
    usize,
>)
    ensures
        ints(r@) == listed_order(*f, *e, path@, rel@),
        forall|m: int| 0 <= m < r@.len() ==> #[trigger] r@[m] < e.children@.len(),
{
    let ord = shown_children(f, e, path);
    let ghost so = ints(ord@);
    let mut out: Vec<usize> = Vec::new();
    let mut k: usize = 0;
    while k < ord.len()
        invariant
            k <= ord@.len(),
            so == ints(ord@),
            forall|m: int| 0 <= m < ord@.len() ==> #[trigger] ord@[m] < e.children@.len(),
            forall|m: int| 0 <= m < out@.len() ==> #[trigger] out@[m] < e.children@.len(),
            ints(out@) == drop_excluded(*f, e.children@, rel@, so.subrange(0, k as int)),
        decreases ord@.len() - k,
    {
        let c = &e.children[ord[k]];
        let crel = join_path_exec(rel, &chars_of(c.name.as_str()));
        assert(so.subrange(0, k + 1).drop_last() =~= so.subrange(0, k as int));
        assert(so.subrange(0, k + 1).last() == ord@[k as int] as int);
        if !(c.is_dir && f.excludes_dir_exec(&crel)) {
            out.push(ord[k]);
            assert(ints(out@) =~= drop_excluded(*f, e.children@, rel@, so.subrange(0, k as int)).push(
                ord@[k as int] as int,
            ));
        }
        k = k + 1;
    }
    assert(so.subrange(0, k as int) =~= so);
    out
}

/// Appends the lines of the text tree below `e` to `text`, and its files to `files`.
fn walk_flat(
    f: &TreeFilter,
    e: &FsEntry,
    path: &Vec<char>,
    rel: &Vec<char>,
    prefix: &Vec<char>,
    text: &mut Vec<char>,
    files: &mut Vec<String>,
)
    ensures
        final(text)@ == old(text)@ + rows_text(
            rows(*f, *e, path@, rel@, prefix@, listed_order(*f, *e, path@, rel@), 0),
        ),
        views(final(files)@) == views(old(files)@) + rows_files(
            rows(*f, *e, path@, rel@, prefix@, listed_order(*f, *e, path@, rel@), 0),
        ),
    decreases e,
{
    let ord = listed_children(f, e, path, rel);
    let ghost o = ints(ord@);
    let ghost all = rows(*f, *e, path@, rel@, prefix@, o, 0);
    let ghost t0 = text@;
    let ghost f0 = views(files@);
    let mut k: usize = 0;
    assert(t0 =~= t0 + rows_text(Seq::<Row>::empty()));
    while k < ord.len()
        invariant
            k <= ord@.len(),
            o == ints(ord@),
            o == listed_order(*f, *e, path@, rel@),
            all == rows(*f, *e, path@, rel@, prefix@, o, 0),
            forall|m: int| 0 <= m < ord@.len() ==> #[trigger] ord@[m] < e.children@.len(),
            t0 + rows_text(all) == text@ + rows_text(rows(*f, *e, path@, rel@, prefix@, o, k as int)),
            f0 + rows_files(all) == views(files@) + rows_files(
                rows(*f, *e, path@, rel@, prefix@, o, k as int),
            ),
        decreases ord@.len() - k,
    {
        let c = &e.children[ord[k]];
        assert(o[k as int] == ord@[k as int] as int);
        let last = k + 1 == ord.len();
        let name = chars_of(c.name.as_str());
        let cpath = join_path_exec(path, &name);
        let crel = join_path_exec(rel, &name);
        let ghost row = Row {
            line: prefix@ + connector(last) + display_name(*c),
            path: cpath@,
            is_dir: c.is_dir,
            is_file: c.is_file,
        };
        let ghost sub = if c.is_dir {
            rows(
                *f,
                *c,
                cpath@,
                crel@,
                prefix@ + indent(last),
                listed_order(*f, *c, cpath@, crel@),
                0,
            )
        } else {
            Seq::<Row>::empty()
        };
        let ghost rest = rows(*f, *e, path@, rel@, prefix@, o, k + 1);
        assert(rows(*f, *e, path@, rel@, prefix@, o, k as int) == seq![row] + sub + rest);
        proof {
            lemma_rows_concat(seq![row] + sub, rest);
            lemma_rows_concat(seq![row], sub);
            assert(seq![row].drop_last() =~= Seq::<Row>::empty());
        }
        let ghost text_before = text@;
        text.push('\n');
        let mut line = prefix.clone();
        assert(line@ =~= prefix@);
        if last {
            push_str(&mut line, "└── ");
        } else {
            push_str(&mut line, "├── ");
        }
        let mut nm = name.clone();
        assert(nm@ =~= name@);
        line.append(&mut nm);
        if c.is_dir {
            line.push('/');
        }
        assert(line@ =~= row.line);
        text.append(&mut line);
        assert(seq![row].drop_last() =~= Seq::<Row>::empty());
        assert(seq![row].last() == row);
        assert(rows_text(Seq::<Row>::empty()) =~= Seq::<char>::empty());
        assert(rows_text(seq![row]) =~= seq!['\n'] + row.line);
        assert(text@ =~= text_before + rows_text(seq![row]));
        let ghost files_before = views(files@);
        if !c.is_dir && c.is_file {
            files.push(string_of(cpath.as_slice()));
            assert(rows_files(Seq::<Row>::empty()) =~= Seq::<Seq<char>>::empty());
            assert(rows_files(seq![row]) =~= seq![cpath@]);
            assert(views(files@) =~= files_before + rows_files(seq![row]));
        } else {
            assert(rows_files(Seq::<Row>::empty()) =~= Seq::<Seq<char>>::empty());
            assert(rows_files(seq![row]) =~= Seq::<Seq<char>>::empty());
            assert(views(files@) =~= files_before + rows_files(seq![row]));
        }
        if c.is_dir {
            let mut p2 = prefix.clone();
            assert(p2@ =~= prefix@);
            if last {
                push_str(&mut p2, "    ");
            } else {
                push_str(&mut p2, "│   ");
            }
            walk_flat(f, c, &cpath, &crel, &p2, text, files);
        } else {
            assert(rows_text(sub) =~= Seq::<char>::empty());
            assert(rows_files(sub) =~= Seq::<Seq<char>>::empty());
        }
        assert(text@ =~= text_before + rows_text(seq![row] + sub));
        k = k + 1;
    }
    assert(rows(*f, *e, path@, rel@, prefix@, o, k as int) =~= Seq::<Row>::empty());
    assert(text@ =~= t0 + rows_text(all));
    assert(views(files@) =~= f0 + rows_files(all));
}

/// The text tree of the snapshot `root` of the directory at `root_dir`, and
/// the regular files it lists, in the order it lists them.
pub fn generate_tree_structure(root_dir: &str, root: &FsEntry, filter: &TreeFilter) -> (r:
    TreeStructure)
    ensures
        r.tree_text@ == seq!['.'] + rows_text(flat_rows(*filter, *root, root_dir@)),
        views(r.file_list@) == rows_files(flat_rows(*filter, *root, root_dir@)),
{
    let path = chars_of(root_dir);
    let empty: Vec<char> = Vec::new();
    let mut text: Vec<char> = vec!['.'];
    let mut files: Vec<String> = Vec::new();
    walk_flat(filter, root, &path, &empty, &empty, &mut text, &mut files);
    assert(views(files@) =~= views(Seq::<String>::empty()) + rows_files(
        flat_rows(*filter, *root, root_dir@),
    ));
    TreeStructure { tree_text: string_of(text.as_slice()), file_list: files }
}

/// The nodes for the children of `e` that the selectable tree keeps.
fn walk_nodes(f: &TreeFilter, e: &FsEntry, path: &Vec<char>, rel: &Vec<char>) -> (r: Vec<
    DirectoryItem,
>)
    ensures
        views_of_items(r@) == nodes(*f, *e, path@, rel@, shown_order(*f, *e, path@), 0),
    decreases e,
{
    let ord = shown_children(f, e, path);
    let ghost o = ints(ord@);
    let ghost all = nodes(*f, *e, path@, rel@, o, 0);
    let ghost mut acc = Seq::<ItemView>::empty();
    let mut out: Vec<DirectoryItem> = Vec::new();
    let mut k: usize = 0;
    assert(views_of_items(out@) =~= acc);
    while k < ord.len()
        invariant
            k <= ord@.len(),
            o == ints(ord@),
            all == nodes(*f, *e, path@, rel@, o, 0),
            forall|m: int| 0 <= m < ord@.len() ==> #[trigger] ord@[m] < e.children@.len(),
            views_of_items(out@) == acc,
            all == acc + nodes(*f, *e, path@, rel@, o, k as int),
        decreases ord@.len() - k,
    {
        let c = &e.children[ord[k]];
        assert(o[k as int] == ord@[k as int] as int);
        let name = chars_of(c.name.as_str());
        let cpath = join_path_exec(path, &name);
        let crel = join_path_exec(rel, &name);
        let ghost rest = nodes(*f, *e, path@, rel@, o, k + 1);
        if c.is_dir {
            let excluded = f.excludes_dir_exec(&crel);
            let kids = walk_nodes(f, c, &cpath, &crel);
            if kids.len() > 0 || excluded {
                let ghost v = ItemView {
                    name: c.name@,
                    path: cpath@,
                    is_dir: true,
                    is_selected: false,
                    is_excluded_by_config: excluded,
                    children: nodes(*f, *c, cpath@, crel@, shown_order(*f, *c, cpath@), 0),
                };
                let d = DirectoryItem {
                    name: c.name.clone(),
                    path: string_of(cpath.as_slice()),
                    is_dir: true,
                    is_selected: false,
                    is_excluded_by_config: excluded,
                    children: kids,
                };
                proof {
                    lemma_item_view_children(d);
                }
                assert(item_view(d) == v);
                out.push(d);
                assert(views_of_items(out@) =~= acc.push(v));
                proof {
                    assert(nodes(*f, *e, path@, rel@, o, k as int) == seq![v] + rest);
                    assert(acc + (seq![v] + rest) =~= acc.push(v) + rest);
                    acc = acc.push(v);
                }
            } else {
                assert(nodes(*f, *e, path@, rel@, o, k as int) == rest);
            }
        } else {
            let ghost v = ItemView {
                name: c.name@,
                path: cpath@,
                is_dir: false,
                is_selected: false,
                is_excluded_by_config: false,
                children: Seq::<ItemView>::empty(),
            };
            let d = DirectoryItem {
                name: c.name.clone(),
                path: string_of(cpath.as_slice()),
                is_dir: false,
                is_selected: false,
                is_excluded_by_config: false,
                children: Vec::new(),
            };
            proof {
                lemma_item_view_children(d);
            }
            assert(views_of_items(d.children@) =~= Seq::<ItemView>::empty());
            assert(item_view(d) == v);
            out.push(d);
            assert(views_of_items(out@) =~= acc.push(v));
            proof {
                assert(nodes(*f, *e, path@, rel@, o, k as int) == seq![v] + rest);
                assert(acc + (seq![v] + rest) =~= acc.push(v) + rest);
                acc = acc.push(v);
            }
        }
        k = k + 1;
    }
    assert(nodes(*f, *e, path@, rel@, o, k as int) =~= Seq::<ItemView>::empty());
    assert(acc =~= all);
    out
}

/// The name shown for the root directory at `path`.
fn root_name_exec(path: &Vec<char>) -> (r: String)
    ensures
        r@ == root_name(path@),
{
    let pieces = split_ranges(path, 0, path.len(), '/');
    let ghost ps = split(path@, '/');
    assert(path@.subrange(0, path@.len() as int) =~= path@);
    let dot = vec!['.'];
    let dots = vec!['.', '.'];
    let mut j: usize = pieces.len();
    assert(ps.subrange(0, j as int) =~= ps);
    while j > 0
        invariant
            j <= pieces@.len() == ps.len(),
            ps == split(path@, '/'),
            dot@ == seq!['.'],
            dots@ == seq!['.', '.'],
            forall|m: int|
                0 <= m < pieces@.len() ==> (#[trigger] pieces@[m]).0 <= pieces@[m].1 <= path@.len()
                    && path@.subrange(pieces@[m].0 as int, pieces@[m].1 as int) == ps[m],
            last_component(ps) == last_component(ps.subrange(0, j as int)),
        decreases j,
    {
        let (a, b) = pieces[j - 1];
        let ghost q = ps.subrange(0, j as int);
        assert(q.last() == ps[j - 1]);
        assert(q.drop_last() =~= ps.subrange(0, j - 1));
        if a == b || crate::text::range_eq(path, a, b, &dot) {
            j = j - 1;
        } else if crate::text::range_eq(path, a, b, &dots) {
            return string_of(dot.as_slice());
        } else {
            return crate::text::slice_string(path, a, b);
        }
    }
    string_of(dot.as_slice())
}

/// The selectable tree of the snapshot `root` of the directory at
/// `root_dir`: directories that are excluded by hand stay, flagged.
pub fn get_directory_tree(root_dir: &str, root: &FsEntry, filter: &TreeFilter) -> (r:
    DirectoryItem)
    ensures
        item_view(r) == root_node(*filter, *root, root_dir@),
{
    let path = chars_of(root_dir);
    let empty: Vec<char> = Vec::new();
    let children = walk_nodes(filter, root, &path, &empty);
    let excluded = filter.excludes_dir_exec(&empty);
    let r = DirectoryItem {
        name: root_name_exec(&path),
        path: string_of(path.as_slice()),
        is_dir: true,
        is_selected: false,
        is_excluded_by_config: excluded,
        children,
    };
    proof {
        lemma_item_view_children(r);
    }
    r
}

} // verus!
