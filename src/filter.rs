//! Which directory entries a traversal shows: the built-in ignore names, the
//! ignore-pattern verdicts, explicit exclusions and the extension sets.
use crate::text::{
    chars_of, lower_of, push_str, range_eq, slice_string, split, split_ranges, string_of,
    to_lowercase, trim, trim_range, views,
};
use vstd::prelude::*;

verus! {

/// The built-in names always treated as noise.
pub open spec fn is_default_name(s: Seq<char>) -> bool {
    s == ".git"@ || s == ".vscode"@ || s == "__pycache__"@ || s == ".DS_Store"@ || s == ".idea"@
        || s == ".gitignore"@
}

/// Some component of `path` is a built-in ignore name.
pub open spec fn default_ignored(path: Seq<char>) -> bool {
    exists|i: int|
        0 <= i < split(path, '/').len() && #[trigger] is_default_name(split(path, '/')[i])
}

/// `base` joined with `name` as `Path::join` does: a separator between them
/// unless `base` is empty or already ends in one.
pub open spec fn join_path(base: Seq<char>, name: Seq<char>) -> Seq<char> {
    if base.len() == 0 || base.last() == '/' {
        base + name
    } else {
        base.push('/') + name
    }
}

/// Index of the last `.` in `s`, or -1.
pub open spec fn last_dot(s: Seq<char>) -> int
    decreases s.len(),
{
    if s.len() == 0 {
        -1
    } else if s.last() == '.' {
        s.len() - 1
    } else {
        last_dot(s.drop_last())
    }
}

/// The extension of a file name, as `Path::extension` finds it.
pub open spec fn extension(name: Seq<char>) -> Option<Seq<char>> {
    if name == seq!['.', '.'] || last_dot(name) <= 0 {
        None
    } else {
        Some(name.subrange(last_dot(name) + 1, name.len() as int))
    }
}

/// The filter settings of one traversal.
pub struct TreeFilter {
    pub show_ignored: bool,
    pub show_default_ignored: bool,
    pub include_all: bool,
    /// Lowercased, dot-prefixed extensions to keep when not `include_all`.
    pub included: Vec<String>,
    /// Lowercased, dot-prefixed extensions to drop when `include_all`.
    pub excluded: Vec<String>,
    /// Paths, relative to the root, of directories excluded by hand.
    pub excluded_dirs: Vec<String>,
}

/// The non-empty entries of a comma list, trimmed and lowercased.
pub open spec fn ext_set(items: Seq<Seq<char>>) -> Seq<Seq<char>>
    decreases items.len(),
{
    if items.len() == 0 {
        Seq::<Seq<char>>::empty()
    } else {
        let rest = ext_set(items.drop_last());
        let e = lower_of(trim(items.last()));
        if e.len() == 0 {
            rest
        } else {
            rest.push(e)
        }
    }
}

impl TreeFilter {
    /// The filter for the given settings: `include_file_types` is `*` or a
    /// comma list of extensions.
    pub open spec fn spec_new(
        show_ignored: bool,
        show_default_ignored: bool,
        include_file_types: Seq<char>,
        exclude_file_types: Seq<Seq<char>>,
        excluded_dirs: Seq<Seq<char>>,
        r: TreeFilter,
    ) -> bool {
        &&& r.show_ignored == show_ignored
        &&& r.show_default_ignored == show_default_ignored
        &&& r.include_all == (include_file_types == "*"@)
        &&& views(r.included@) == (if r.include_all {
            Seq::<Seq<char>>::empty()
        } else {
            ext_set(split(include_file_types, ','))
        })
        &&& views(r.excluded@) == ext_set(exclude_file_types)
        &&& views(r.excluded_dirs@) == excluded_dirs
    }

    pub fn new(
        show_ignored: bool,
        show_default_ignored: bool,
        include_file_types: &str,
        exclude_file_types: &Vec<String>,
        excluded_dirs: &Vec<String>,
    ) -> (r: TreeFilter)
        ensures
            Self::spec_new(
                show_ignored,
                show_default_ignored,
                include_file_types@,
                views(exclude_file_types@),
                views(excluded_dirs@),
                r,
            ),
    {
        let inc = chars_of(include_file_types);
        let star = chars_of("*");
        let include_all = range_eq(&inc, 0, inc.len(), &star);
        assert(inc@.subrange(0, inc@.len() as int) =~= inc@);
        let mut included: Vec<String> = Vec::new();
        if !include_all {
            let pieces = split_ranges(&inc, 0, inc.len(), ',');
            let ghost items = split(inc@, ',');
            let mut k: usize = 0;
            while k < pieces.len()
                invariant
                    k <= pieces@.len(),
                    items == split(inc@.subrange(0, inc@.len() as int), ','),
                    pieces@.len() == items.len(),
                    forall|m: int|
                        0 <= m < pieces@.len() ==> (#[trigger] pieces@[m]).0 <= pieces@[m].1
                            <= inc@.len() && inc@.subrange(pieces@[m].0 as int, pieces@[m].1 as int)
                            == items[m],
                    views(included@) == ext_set(items.subrange(0, k as int)),
                decreases pieces@.len() - k,
            {
                let (a, b) = pieces[k];
                let (c, d) = trim_range(&inc, a, b);
                let t = slice_string(&inc, c, d);
                let e = to_lowercase(t.as_str());
                assert(items.subrange(0, k + 1).drop_last() =~= items.subrange(0, k as int));
                if !e.as_str().is_empty() {
                    included.push(e);
                    assert(views(included@) =~= ext_set(items.subrange(0, k as int)).push(e@));
                }
                k = k + 1;
            }
            assert(items.subrange(0, pieces@.len() as int) =~= items);
        } else {
            assert(views(included@) =~= Seq::<Seq<char>>::empty());
        }
        let mut excluded: Vec<String> = Vec::new();
        let mut k: usize = 0;
        while k < exclude_file_types.len()
            invariant
                k <= exclude_file_types@.len(),
                views(excluded@) == ext_set(views(exclude_file_types@).subrange(0, k as int)),
            decreases exclude_file_types@.len() - k,
        {
            let item = chars_of(exclude_file_types[k].as_str());
            let (c, d) = trim_range(&item, 0, item.len());
            let t = slice_string(&item, c, d);
            let e = to_lowercase(t.as_str());
            let ghost all = views(exclude_file_types@);
            assert(all.subrange(0, k + 1).drop_last() =~= all.subrange(0, k as int));
            assert(item@.subrange(0, item@.len() as int) =~= item@);
            if !e.as_str().is_empty() {
                excluded.push(e);
                assert(views(excluded@) =~= ext_set(all.subrange(0, k as int)).push(e@));
            }
            k = k + 1;
        }
        assert(views(exclude_file_types@).subrange(0, k as int) =~= views(exclude_file_types@));
        let mut dirs: Vec<String> = Vec::new();
        let mut k: usize = 0;
        while k < excluded_dirs.len()
            invariant
                k <= excluded_dirs@.len(),
                dirs@ == excluded_dirs@.subrange(0, k as int),
            decreases excluded_dirs@.len() - k,
        {
            dirs.push(excluded_dirs[k].clone());
            assert(dirs@ =~= excluded_dirs@.subrange(0, k + 1));
            k = k + 1;
        }
        assert(dirs@ =~= excluded_dirs@);
        TreeFilter {
            show_ignored,
            show_default_ignored,
            include_all,
            included,
            excluded: excluded,
            excluded_dirs: dirs,
        }
    }

    /// The ignore gates: everything when ignored entries are shown, else
    /// nothing the patterns match, and nothing built-in unless those are shown.
    pub open spec fn passes_ignore(self, by_pattern: bool, by_default: bool) -> bool {
        self.show_ignored || (!by_pattern && (self.show_default_ignored || !by_default))
    }

    /// The extension gate for a file named `name`.
    pub open spec fn passes_extension(self, name: Seq<char>) -> bool {
        match extension(name) {
            Some(x) => {
                let e = seq!['.'] + lower_of(x);
                if self.include_all {
                    !views(self.excluded@).contains(e)
                } else {
                    views(self.included@).contains(e)
                }
            },
            None => self.include_all,
        }
    }

    /// Whether a directory at `rel` (relative to the root) is excluded by hand.
    pub open spec fn excludes_dir(self, rel: Seq<char>) -> bool {
        views(self.excluded_dirs@).contains(rel)
    }

    pub fn passes_ignore_exec(&self, by_pattern: bool, by_default: bool) -> (r: bool)
        ensures
            r == self.passes_ignore(by_pattern, by_default),
    {
        self.show_ignored || (!by_pattern && (self.show_default_ignored || !by_default))
    }

    pub fn passes_extension_exec(&self, name: &Vec<char>) -> (r: bool)
        ensures
            r == self.passes_extension(name@),
    {
        let n = name.len();
        let mut k: usize = n;
        assert(name@.subrange(0, n as int) =~= name@);
        while k > 0 && name[k - 1] != '.'
            invariant
                k <= n == name@.len(),
                last_dot(name@) == last_dot(name@.subrange(0, k as int)),
            decreases k,
        {
            assert(name@.subrange(0, k as int).drop_last() =~= name@.subrange(0, k - 1));
            k = k - 1;
        }
        proof {
            assert(name@.subrange(0, n as int) =~= name@);
            if k > 0 {
                assert(name@.subrange(0, k as int).last() == '.');
            }
        }
        let dots = chars_of("..");
        proof {
            reveal_strlit("..");
        }
        assert(dots@ =~= seq!['.', '.']);
        if k <= 1 || range_eq(name, 0, n, &dots) {
            assert(name@.subrange(0, n as int) =~= name@);
            return self.include_all;
        }
        assert(name@.subrange(0, n as int) =~= name@);
        let x = slice_string(name, k, n);
        let lx = to_lowercase(x.as_str());
        let mut ev: Vec<char> = vec!['.'];
        push_str(&mut ev, lx.as_str());
        let e = string_of(ev.as_slice());
        assert(e@ =~= seq!['.'] + lower_of(x@));
        if self.include_all {
            !contains_string(&self.excluded, &e)
        } else {
            contains_string(&self.included, &e)
        }
    }

    pub fn excludes_dir_exec(&self, rel: &Vec<char>) -> (r: bool)
        ensures
            r == self.excludes_dir(rel@),
    {
        let s = string_of(rel.as_slice());
        contains_string(&self.excluded_dirs, &s)
    }
}

pub fn contains_string(v: &Vec<String>, s: &String) -> (r: bool)
    ensures
        r == views(v@).contains(s@),
{
    let mut k: usize = 0;
    while k < v.len()
        invariant
            k <= v@.len(),
            forall|m: int| 0 <= m < k ==> v@[m]@ != s@,
        decreases v@.len() - k,
    {
        if v[k] == *s {
            assert(views(v@)[k as int] == s@);
            return true;
        }
        k = k + 1;
    }
    assert forall|m: int| 0 <= m < views(v@).len() implies views(v@)[m] != s@ by {
        assert(views(v@)[m] == v@[m]@);
    }
    false
}

/// Whether `path[a..b]` is one of the built-in ignore names.
fn is_default_name_at(path: &Vec<char>, a: usize, b: usize) -> (r: bool)
    requires
        a <= b <= path@.len(),
    ensures
        r == is_default_name(path@.subrange(a as int, b as int)),
{
    range_eq(path, a, b, &chars_of(".git")) || range_eq(path, a, b, &chars_of(".vscode"))
        || range_eq(path, a, b, &chars_of("__pycache__")) || range_eq(
        path,
        a,
        b,
        &chars_of(".DS_Store"),
    ) || range_eq(path, a, b, &chars_of(".idea")) || range_eq(path, a, b, &chars_of(".gitignore"))
}

/// Whether some component of `path` is one of the built-in ignore names.
pub fn default_ignored_chars(path: &Vec<char>) -> (r: bool)
    ensures
        r == default_ignored(path@),
{
    let pieces = split_ranges(path, 0, path.len(), '/');
    let ghost ps = split(path@.subrange(0, path@.len() as int), '/');
    assert(path@.subrange(0, path@.len() as int) =~= path@);
    let mut k: usize = 0;
    while k < pieces.len()
        invariant
            k <= pieces@.len() == ps.len(),
            ps == split(path@, '/'),
            forall|m: int|
                0 <= m < pieces@.len() ==> (#[trigger] pieces@[m]).0 <= pieces@[m].1 <= path@.len()
                    && path@.subrange(pieces@[m].0 as int, pieces@[m].1 as int) == ps[m],
            forall|m: int| 0 <= m < k ==> !is_default_name(#[trigger] ps[m]),
        decreases pieces@.len() - k,
    {
        let (a, b) = pieces[k];
        if is_default_name_at(path, a, b) {
            assert(is_default_name(ps[k as int]));
            return true;
        }
        k = k + 1;
    }
    false
}

/// Whether `path`, or a directory above it, bears one of the built-in ignore
/// names (the version-control directory, editor state, OS metadata, the
/// ignore-pattern file, caches).
pub fn is_default_ignored(path: &str) -> (r: bool)
    ensures
        r == default_ignored(path@),
{
    let p = chars_of(path);
    default_ignored_chars(&p)
}

/// `base` and `name` joined with a separator, as `Path::join` does.
pub fn join_path_exec(base: &Vec<char>, name: &Vec<char>) -> (r: Vec<char>)
    ensures
        r@ == join_path(base@, name@),
{
    let mut r: Vec<char> = Vec::new();
    let mut k: usize = 0;
    while k < base.len()
        invariant
            k <= base@.len(),
            r@ == base@.subrange(0, k as int),
        decreases base@.len() - k,
    {
        r.push(base[k]);
        assert(r@ =~= base@.subrange(0, k + 1));
        k = k + 1;
    }
    assert(base@.subrange(0, base@.len() as int) =~= base@);
    if base.len() > 0 && base[base.len() - 1] != '/' {
        r.push('/');
    }
    let mut k: usize = 0;
    let ghost r0 = r@;
    while k < name.len()
        invariant
            k <= name@.len(),
            r@ == r0 + name@.subrange(0, k as int),
        decreases name@.len() - k,
    {
        r.push(name[k]);
        assert(r@ =~= r0 + name@.subrange(0, k + 1));
        k = k + 1;
    }
    assert(name@.subrange(0, name@.len() as int) =~= name@);
    r
}

} // verus!
