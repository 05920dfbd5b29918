//! Properties that relate the two traversals.
use crate::filter::{join_path, TreeFilter};
use crate::models::{FsEntry, ItemView};
use crate::tree::{
    drop_excluded, entry_lt, flat_rows, insert_sorted, listed_order, lemma_rows_concat, nodes,
    root_node, rows, rows_entries, shown_order, shown_upto, sort_indices, Row,
};
use vstd::prelude::*;

verus! {

/// The paths of the non-directory entries under `v`, in order, leaving out
/// what lies under directories excluded by hand.
pub open spec fn kept_leaves(v: ItemView) -> Seq<Seq<char>>
    decreases v, 1int, 0int,
{
    if !v.is_dir {
        seq![v.path]
    } else if v.is_excluded_by_config {
        Seq::<Seq<char>>::empty()
    } else {
        kept_leaves_upto(v, v.children.len() as int)
    }
}

pub open spec fn kept_leaves_upto(v: ItemView, n: int) -> Seq<Seq<char>>
    decreases v, 0int, n,
{
    if n <= 0 || n > v.children.len() {
        Seq::<Seq<char>>::empty()
    } else {
        kept_leaves_upto(v, n - 1) + kept_leaves(v.children[n - 1])
    }
}

/// The kept leaves of the nodes `vs`, in order.
pub open spec fn nodes_leaves(vs: Seq<ItemView>) -> Seq<Seq<char>>
    decreases vs.len(),
{
    if vs.len() == 0 {
        Seq::<Seq<char>>::empty()
    } else {
        kept_leaves(vs[0]) + nodes_leaves(vs.drop_first())
    }
}

/// The non-directory entries that the text tree lists for the children
/// `ord` of `e`, each followed by those below it.
pub open spec fn flat_entries(f: TreeFilter, e: FsEntry, path: Seq<char>, rel: Seq<char>, ord: Seq<
    int,
>) -> Seq<Seq<char>>
    decreases e, ord.len(),
{
    if ord.len() == 0 || !(0 <= ord[0] < e.children@.len()) {
        Seq::<Seq<char>>::empty()
    } else {
        let c = e.children@[ord[0]];
        let cpath = join_path(path, c.name@);
        let crel = join_path(rel, c.name@);
        let mine = if c.is_dir {
            flat_entries(f, c, cpath, crel, listed_order(f, c, cpath, crel))
        } else {
            seq![cpath]
        };
        mine + flat_entries(f, e, path, rel, ord.drop_first())
    }
}

/// What the child `x` of `e` contributes once excluded directories are dropped.
pub open spec fn kept_one(f: TreeFilter, e: FsEntry, path: Seq<char>, rel: Seq<char>, x: int) -> Seq<
    Seq<char>,
> {
    let c = e.children@[x];
    let cpath = join_path(path, c.name@);
    let crel = join_path(rel, c.name@);
    if c.is_dir && f.excludes_dir(crel) {
        Seq::<Seq<char>>::empty()
    } else {
        flat_entries(f, e, path, rel, seq![x])
    }
}

pub open spec fn flat_kept(f: TreeFilter, e: FsEntry, path: Seq<char>, rel: Seq<char>, ord: Seq<int>) -> Seq<
    Seq<char>,
>
    decreases ord.len(),
{
    if ord.len() == 0 {
        Seq::<Seq<char>>::empty()
    } else {
        flat_kept(f, e, path, rel, ord.drop_last()) + kept_one(f, e, path, rel, ord.last())
    }
}

pub open spec fn valid_indices(ord: Seq<int>, n: int) -> bool {
    forall|i: int| 0 <= i < ord.len() ==> 0 <= #[trigger] ord[i] < n
}

proof fn lemma_insert_valid(ch: Seq<FsEntry>, s: Seq<int>, i: int)
    requires
        valid_indices(s, ch.len() as int),
        0 <= i < ch.len(),
    ensures
        valid_indices(insert_sorted(ch, s, i), ch.len() as int),
    decreases s.len(),
{
    if s.len() > 0 && !entry_lt(ch[i], ch[s[0]]) {
        lemma_insert_valid(ch, s.drop_first(), i);
        let r = insert_sorted(ch, s.drop_first(), i);
        assert forall|j: int| 0 <= j < (seq![s[0]] + r).len() implies 0 <= #[trigger] (seq![s[0]]
            + r)[j] < ch.len() by {
            if j > 0 {
                assert((seq![s[0]] + r)[j] == r[j - 1]);
            }
        }
    } else if s.len() > 0 {
        assert forall|j: int| 0 <= j < (seq![i] + s).len() implies 0 <= #[trigger] (seq![i]
            + s)[j] < ch.len() by {
            if j > 0 {
                assert((seq![i] + s)[j] == s[j - 1]);
            }
        }
    }
}

proof fn lemma_sort_valid(ch: Seq<FsEntry>, s: Seq<int>)
    requires
        valid_indices(s, ch.len() as int),
    ensures
        valid_indices(sort_indices(ch, s), ch.len() as int),
    decreases s.len(),
{
    if s.len() > 0 {
        assert(valid_indices(s.drop_last(), ch.len() as int));
        lemma_sort_valid(ch, s.drop_last());
        lemma_insert_valid(ch, sort_indices(ch, s.drop_last()), s.last());
    }
}

proof fn lemma_shown_upto_valid(f: TreeFilter, ch: Seq<FsEntry>, path: Seq<char>, n: int)
    requires
        0 <= n <= ch.len(),
    ensures
        valid_indices(shown_upto(f, ch, path, n), ch.len() as int),
    decreases n,
{
    if n > 0 {
        lemma_shown_upto_valid(f, ch, path, n - 1);
    }
}

proof fn lemma_drop_excluded_valid(
    f: TreeFilter,
    ch: Seq<FsEntry>,
    rel: Seq<char>,
    ord: Seq<int>,
)
    requires
        valid_indices(ord, ch.len() as int),
    ensures
        valid_indices(drop_excluded(f, ch, rel, ord), ch.len() as int),
    decreases ord.len(),
{
    if ord.len() > 0 {
        assert(valid_indices(ord.drop_last(), ch.len() as int));
        lemma_drop_excluded_valid(f, ch, rel, ord.drop_last());
    }
}

proof fn lemma_orders_valid(f: TreeFilter, e: FsEntry, path: Seq<char>, rel: Seq<char>)
    ensures
        valid_indices(shown_order(f, e, path), e.children@.len() as int),
        valid_indices(listed_order(f, e, path, rel), e.children@.len() as int),
{
    lemma_shown_upto_valid(f, e.children@, path, e.children@.len() as int);
    lemma_sort_valid(
        e.children@,
        shown_upto(f, e.children@, path, e.children@.len() as int),
    );
    lemma_drop_excluded_valid(f, e.children@, rel, shown_order(f, e, path));
}

proof fn lemma_flat_entries_concat(
    f: TreeFilter,
    e: FsEntry,
    path: Seq<char>,
    rel: Seq<char>,
    a: Seq<int>,
    b: Seq<int>,
)
    requires
        valid_indices(a, e.children@.len() as int),
    ensures
        flat_entries(f, e, path, rel, a + b) == flat_entries(f, e, path, rel, a) + flat_entries(
            f,
            e,
            path,
            rel,
            b,
        ),
    decreases a.len(),
{
    if a.len() == 0 {
        assert(a + b =~= b);
        assert(flat_entries(f, e, path, rel, a) =~= Seq::<Seq<char>>::empty());
        assert(flat_entries(f, e, path, rel, a + b) =~= flat_entries(f, e, path, rel, a)
            + flat_entries(f, e, path, rel, b));
    } else {
        assert((a + b).drop_first() =~= a.drop_first() + b);
        assert((a + b)[0] == a[0]);
        assert(valid_indices(a.drop_first(), e.children@.len() as int));
        lemma_flat_entries_concat(f, e, path, rel, a.drop_first(), b);
        assert(flat_entries(f, e, path, rel, a + b) =~= flat_entries(f, e, path, rel, a)
            + flat_entries(f, e, path, rel, b));
    }
}

proof fn lemma_flat_kept_dropped(f: TreeFilter, e: FsEntry, path: Seq<char>, rel: Seq<char>, ord: Seq<
    int,
>)
    requires
        valid_indices(ord, e.children@.len() as int),
    ensures
        flat_entries(f, e, path, rel, drop_excluded(f, e.children@, rel, ord)) == flat_kept(
            f,
            e,
            path,
            rel,
            ord,
        ),
    decreases ord.len(),
{
    if ord.len() == 0 {
        assert(flat_entries(f, e, path, rel, ord) =~= Seq::<Seq<char>>::empty());
    } else {
        let x = ord.last();
        let d = drop_excluded(f, e.children@, rel, ord.drop_last());
        assert(valid_indices(ord.drop_last(), e.children@.len() as int));
        lemma_flat_kept_dropped(f, e, path, rel, ord.drop_last());
        lemma_drop_excluded_valid(f, e.children@, rel, ord.drop_last());
        let c = e.children@[x];
        if c.is_dir && f.excludes_dir(join_path(rel, c.name@)) {
            assert(kept_one(f, e, path, rel, x) =~= Seq::<Seq<char>>::empty());
            assert(flat_kept(f, e, path, rel, ord) =~= flat_kept(f, e, path, rel, ord.drop_last()));
        } else {
            assert(d.push(x) =~= d + seq![x]);
            lemma_flat_entries_concat(f, e, path, rel, d, seq![x]);
        }
    }
}

proof fn lemma_flat_kept_front(f: TreeFilter, e: FsEntry, path: Seq<char>, rel: Seq<char>, ord: Seq<
    int,
>)
    requires
        ord.len() > 0,
    ensures
        flat_kept(f, e, path, rel, ord) == kept_one(f, e, path, rel, ord[0]) + flat_kept(
            f,
            e,
            path,
            rel,
            ord.drop_first(),
        ),
    decreases ord.len(),
{
    if ord.len() == 1 {
        assert(ord.drop_last() =~= Seq::<int>::empty());
        assert(ord.drop_first() =~= Seq::<int>::empty());
        assert(flat_kept(f, e, path, rel, ord) =~= kept_one(f, e, path, rel, ord[0]) + flat_kept(
            f,
            e,
            path,
            rel,
            ord.drop_first(),
        ));
    } else {
        lemma_flat_kept_front(f, e, path, rel, ord.drop_last());
        assert(ord.drop_last().drop_first() =~= ord.drop_first().drop_last());
        assert(ord.drop_first().last() == ord.last());
        assert(flat_kept(f, e, path, rel, ord) =~= kept_one(f, e, path, rel, ord[0]) + flat_kept(
            f,
            e,
            path,
            rel,
            ord.drop_first(),
        ));
    }
}

proof fn lemma_rows_entries(
    f: TreeFilter,
    e: FsEntry,
    path: Seq<char>,
    rel: Seq<char>,
    prefix: Seq<char>,
    ord: Seq<int>,
    k: int,
)
    requires
        valid_indices(ord, e.children@.len() as int),
        0 <= k <= ord.len(),
    ensures
        rows_entries(rows(f, e, path, rel, prefix, ord, k)) == flat_entries(
            f,
            e,
            path,
            rel,
            ord.subrange(k, ord.len() as int),
        ),
    decreases e, ord.len() - k,
{
    let rest = ord.subrange(k, ord.len() as int);
    if k == ord.len() {
        assert(rows_entries(Seq::<Row>::empty()) =~= Seq::<Seq<char>>::empty());
    } else {
        let c = e.children@[ord[k]];
        let last = k == ord.len() - 1;
        let cpath = join_path(path, c.name@);
        let crel = join_path(rel, c.name@);
        let row = Row {
            line: prefix + crate::tree::connector(last) + crate::tree::display_name(c),
            path: cpath,
            is_dir: c.is_dir,
            is_file: c.is_file,
        };
        let sub = if c.is_dir {
            rows(
                f,
                c,
                cpath,
                crel,
                prefix + crate::tree::indent(last),
                listed_order(f, c, cpath, crel),
                0,
            )
        } else {
            Seq::<Row>::empty()
        };
        let tail = rows(f, e, path, rel, prefix, ord, k + 1);
        assert(rows(f, e, path, rel, prefix, ord, k) == seq![row] + sub + tail);
        lemma_rows_concat(seq![row] + sub, tail);
        lemma_rows_concat(seq![row], sub);
        assert(seq![row].drop_last() =~= Seq::<Row>::empty());
        assert(rows_entries(Seq::<Row>::empty()) =~= Seq::<Seq<char>>::empty());
        lemma_rows_entries(f, e, path, rel, prefix, ord, k + 1);
        assert(rest.drop_first() =~= ord.subrange(k + 1, ord.len() as int));
        assert(rest[0] == ord[k]);
        if c.is_dir {
            assert(rows_entries(seq![row]) =~= Seq::<Seq<char>>::empty());
            lemma_orders_valid(f, c, cpath, crel);
            lemma_rows_entries(
                f,
                c,
                cpath,
                crel,
                prefix + crate::tree::indent(last),
                listed_order(f, c, cpath, crel),
                0,
            );
            assert(listed_order(f, c, cpath, crel).subrange(
                0,
                listed_order(f, c, cpath, crel).len() as int,
            ) =~= listed_order(f, c, cpath, crel));
        } else {
            assert(rows_entries(seq![row]) =~= seq![cpath]);
            assert(rows_entries(sub) =~= Seq::<Seq<char>>::empty());
        }
        assert(rows_entries(rows(f, e, path, rel, prefix, ord, k)) =~= flat_entries(
            f,
            e,
            path,
            rel,
            rest,
        ));
    }
}

proof fn lemma_kept_leaves_upto(v: ItemView, n: int)
    requires
        0 <= n <= v.children.len(),
    ensures
        kept_leaves_upto(v, n) == nodes_leaves(v.children.subrange(0, n)),
    decreases n,
{
    if n == 0 {
        assert(nodes_leaves(v.children.subrange(0, 0)) =~= Seq::<Seq<char>>::empty());
    } else {
        lemma_kept_leaves_upto(v, n - 1);
        lemma_nodes_leaves_push(v.children.subrange(0, n - 1), v.children[n - 1]);
        assert(v.children.subrange(0, n - 1).push(v.children[n - 1]) =~= v.children.subrange(
            0,
            n,
        ));
    }
}

proof fn lemma_nodes_leaves_push(vs: Seq<ItemView>, v: ItemView)
    ensures
        nodes_leaves(vs.push(v)) == nodes_leaves(vs) + kept_leaves(v),
    decreases vs.len(),
{
    if vs.len() == 0 {
        assert(vs.push(v).drop_first() =~= Seq::<ItemView>::empty());
        assert(nodes_leaves(Seq::<ItemView>::empty()) =~= Seq::<Seq<char>>::empty());
        assert(nodes_leaves(vs.push(v)) =~= nodes_leaves(vs) + kept_leaves(v));
    } else {
        lemma_nodes_leaves_push(vs.drop_first(), v);
        assert(vs.push(v).drop_first() =~= vs.drop_first().push(v));
        assert(nodes_leaves(vs.push(v)) =~= nodes_leaves(vs) + kept_leaves(v));
    }
}

proof fn lemma_nodes_leaves(
    f: TreeFilter,
    e: FsEntry,
    path: Seq<char>,
    rel: Seq<char>,
    ord: Seq<int>,
    k: int,
)
    requires
        valid_indices(ord, e.children@.len() as int),
        0 <= k <= ord.len(),
    ensures
        nodes_leaves(nodes(f, e, path, rel, ord, k)) == flat_kept(
            f,
            e,
            path,
            rel,
            ord.subrange(k, ord.len() as int),
        ),
    decreases e, ord.len() - k,
{
    let rest = ord.subrange(k, ord.len() as int);
    if k == ord.len() {
        assert(nodes_leaves(Seq::<ItemView>::empty()) =~= Seq::<Seq<char>>::empty());
        assert(rest =~= Seq::<int>::empty());
    } else {
        let x = ord[k];
        let c = e.children@[x];
        let cpath = join_path(path, c.name@);
        let crel = join_path(rel, c.name@);
        let tail = nodes(f, e, path, rel, ord, k + 1);
        lemma_nodes_leaves(f, e, path, rel, ord, k + 1);
        lemma_flat_kept_front(f, e, path, rel, rest);
        assert(rest.drop_first() =~= ord.subrange(k + 1, ord.len() as int));
        assert(rest[0] == x);
        assert(seq![x].drop_first() =~= Seq::<int>::empty());
        assert(flat_entries(f, e, path, rel, Seq::<int>::empty()) =~= Seq::<Seq<char>>::empty());
        if c.is_dir {
            let excluded = f.excludes_dir(crel);
            let so = shown_order(f, c, cpath);
            let kids = nodes(f, c, cpath, crel, so, 0);
            lemma_orders_valid(f, c, cpath, crel);
            lemma_nodes_leaves(f, c, cpath, crel, so, 0);
            assert(so.subrange(0, so.len() as int) =~= so);
            lemma_flat_kept_dropped(f, c, cpath, crel, so);
            if kids.len() > 0 || excluded {
                let node = ItemView {
                    name: c.name@,
                    path: cpath,
                    is_dir: true,
                    is_selected: false,
                    is_excluded_by_config: excluded,
                    children: kids,
                };
                assert(nodes(f, e, path, rel, ord, k) == seq![node] + tail);
                assert((seq![node] + tail).drop_first() =~= tail);
                assert((seq![node] + tail)[0] == node);
                if !excluded {
                    lemma_kept_leaves_upto(node, kids.len() as int);
                    assert(kids.subrange(0, kids.len() as int) =~= kids);
                }
                assert(nodes_leaves(nodes(f, e, path, rel, ord, k)) =~= flat_kept(
                    f,
                    e,
                    path,
                    rel,
                    rest,
                ));
            } else {
                assert(nodes(f, e, path, rel, ord, k) == tail);
                assert(nodes_leaves(kids) =~= Seq::<Seq<char>>::empty());
                assert(nodes_leaves(nodes(f, e, path, rel, ord, k)) =~= flat_kept(
                    f,
                    e,
                    path,
                    rel,
                    rest,
                ));
            }
        } else {
            let node = ItemView {
                name: c.name@,
                path: cpath,
                is_dir: false,
                is_selected: false,
                is_excluded_by_config: false,
                children: Seq::<ItemView>::empty(),
            };
            assert(nodes(f, e, path, rel, ord, k) == seq![node] + tail);
            assert((seq![node] + tail).drop_first() =~= tail);
            assert((seq![node] + tail)[0] == node);
            assert(nodes_leaves(nodes(f, e, path, rel, ord, k)) =~= flat_kept(
                f,
                e,
                path,
                rel,
                rest,
            ));
        }
    }
}

/// The selectable tree and the text tree agree on files: the non-directory
/// entries of the selectable tree, read in order and leaving out what lies
/// under the directories excluded by hand (which only the selectable tree
/// keeps), are exactly the non-directory lines of the text tree, in the
/// order it lists them.
pub proof fn lemma_traversals_agree(f: TreeFilter, root: FsEntry, root_path: Seq<char>)
    ensures
        kept_leaves_upto(
            root_node(f, root, root_path),
            root_node(f, root, root_path).children.len() as int,
        ) == rows_entries(flat_rows(f, root, root_path)),
{
    let empty = Seq::<char>::empty();
    let v = root_node(f, root, root_path);
    let so = shown_order(f, root, root_path);
    let lo = listed_order(f, root, root_path, empty);
    lemma_orders_valid(f, root, root_path, empty);
    lemma_kept_leaves_upto(v, v.children.len() as int);
    assert(v.children.subrange(0, v.children.len() as int) =~= v.children);
    lemma_nodes_leaves(f, root, root_path, empty, so, 0);
    assert(so.subrange(0, so.len() as int) =~= so);
    lemma_flat_kept_dropped(f, root, root_path, empty, so);
    lemma_rows_entries(f, root, root_path, empty, empty, lo, 0);
    assert(lo.subrange(0, lo.len() as int) =~= lo);
}

} // verus!
