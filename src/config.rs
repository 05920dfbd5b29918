//! The settings record: its text format, reading and writing it, and the
//! migration of older records to the current version.
use crate::models::{Config, CONFIG_VERSION};
use crate::text::{
    chars_of, decimal, join, push_decimal, push_str, range_eq, relative_to, slice_string, split,
    split_ranges, string_of, strip_prefix_of, trim, trim_range, views,
};
use vstd::prelude::*;

verus! {

/// What a settings record holds.
pub struct ConfigView {
    pub version: u32,
    pub use_git_ignore: bool,
    pub include_file_types: Seq<char>,
    pub exclude_file_types: Seq<Seq<char>>,
    pub output_file: Seq<char>,
    pub save_output_file: bool,
    pub output_file_locally: bool,
    pub copy_to_clipboard: bool,
    pub safe_mode: bool,
    pub store_files_chosen: bool,
    pub line_numbers: bool,
    pub show_ignored_in_tree: bool,
    pub show_default_ignored_in_tree: bool,
    pub previous_files: Seq<Seq<char>>,
    pub last_directory: Option<Seq<char>>,
}

impl View for Config {
    type V = ConfigView;

    open spec fn view(&self) -> ConfigView {
        ConfigView {
            version: self.version,
            use_git_ignore: self.use_git_ignore,
            include_file_types: self.include_file_types@,
            exclude_file_types: views(self.exclude_file_types@),
            output_file: self.output_file@,
            save_output_file: self.save_output_file,
            output_file_locally: self.output_file_locally,
            copy_to_clipboard: self.copy_to_clipboard,
            safe_mode: self.safe_mode,
            store_files_chosen: self.store_files_chosen,
            line_numbers: self.line_numbers,
            show_ignored_in_tree: self.show_ignored_in_tree,
            show_default_ignored_in_tree: self.show_default_ignored_in_tree,
            previous_files: views(self.previous_files@),
            last_directory: match self.last_directory {
                Some(d) => Some(d@),
                None => None,
            },
        }
    }
}

/// The record a fresh settings file starts from.
pub open spec fn default_view() -> ConfigView {
    ConfigView {
        version: CONFIG_VERSION,
        use_git_ignore: true,
        include_file_types: "*"@,
        exclude_file_types: Seq::<Seq<char>>::empty(),
        output_file: "gptree_output.txt"@,
        save_output_file: true,
        output_file_locally: true,
        copy_to_clipboard: false,
        safe_mode: true,
        store_files_chosen: true,
        line_numbers: false,
        show_ignored_in_tree: false,
        show_default_ignored_in_tree: false,
        previous_files: Seq::<Seq<char>>::empty(),
        last_directory: None,
    }
}

impl Config {
    pub fn defaults() -> (r: Config)
        ensures
            r@ == default_view(),
    {
        let r = Config {
            version: CONFIG_VERSION,
            use_git_ignore: true,
            include_file_types: String::from_str("*"),
            exclude_file_types: Vec::new(),
            output_file: String::from_str("gptree_output.txt"),
            save_output_file: true,
            output_file_locally: true,
            copy_to_clipboard: false,
            safe_mode: true,
            store_files_chosen: true,
            line_numbers: false,
            show_ignored_in_tree: false,
            show_default_ignored_in_tree: false,
            previous_files: Vec::new(),
            last_directory: None,
        };
        assert(views(r.exclude_file_types@) =~= Seq::<Seq<char>>::empty());
        assert(views(r.previous_files@) =~= Seq::<Seq<char>>::empty());
        r
    }
}

impl Default for Config {
    fn default() -> (r: Config)
        ensures
            r@ == default_view(),
    {
        Config::defaults()
    }
}

/// Index of the first `:` in `t`, or -1.
pub open spec fn first_colon(t: Seq<char>) -> int
    decreases t.len(),
{
    if t.len() == 0 {
        -1
    } else {
        let r = first_colon(t.drop_last());
        if r >= 0 {
            r
        } else if t.last() == ':' {
            t.len() - 1
        } else {
            -1
        }
    }
}

pub open spec fn is_digit(c: char) -> bool {
    '0' <= c && c <= '9'
}

pub open spec fn all_digits(d: Seq<char>) -> bool {
    forall|i: int| 0 <= i < d.len() ==> is_digit(#[trigger] d[i])
}

/// The number written by the decimal digits `s`.
pub open spec fn digits_value(s: Seq<char>) -> nat
    decreases s.len(),
{
    if s.len() == 0 {
        0
    } else {
        digits_value(s.drop_last()) * 10 + ((s.last() as u32) - ('0' as u32)) as nat
    }
}

/// What `str::parse::<u32>` makes of `v`: an optional `+`, then one or more
/// decimal digits whose value fits.
pub open spec fn parse_u32(v: Seq<char>) -> Option<u32> {
    let d = if v.len() > 0 && v[0] == '+' {
        v.drop_first()
    } else {
        v
    };
    if d.len() > 0 && all_digits(d) && digits_value(d) <= u32::MAX {
        Some(digits_value(d) as u32)
    } else {
        None
    }
}

/// A comma list: nothing when empty, else each piece trimmed.
pub open spec fn parse_list(v: Seq<char>) -> Seq<Seq<char>> {
    if v.len() == 0 {
        Seq::<Seq<char>>::empty()
    } else {
        split(v, ',').map_values(|p: Seq<char>| trim(p))
    }
}

/// The record after reading `key: value`; an unknown key changes nothing.
pub open spec fn apply_entry(c: ConfigView, key: Seq<char>, value: Seq<char>) -> ConfigView {
    let b = value == "true"@;
    if key == "version"@ {
        match parse_u32(value) {
            Some(n) => ConfigView { version: n, ..c },
            None => c,
        }
    } else if key == "useGitIgnore"@ {
        ConfigView { use_git_ignore: b, ..c }
    } else if key == "includeFileTypes"@ {
        ConfigView { include_file_types: value, ..c }
    } else if key == "excludeFileTypes"@ {
        ConfigView { exclude_file_types: parse_list(value), ..c }
    } else if key == "outputFile"@ {
        ConfigView { output_file: value, ..c }
    } else if key == "saveOutputFile"@ {
        ConfigView { save_output_file: b, ..c }
    } else if key == "outputFileLocally"@ {
        ConfigView { output_file_locally: b, ..c }
    } else if key == "copyToClipboard"@ {
        ConfigView { copy_to_clipboard: b, ..c }
    } else if key == "safeMode"@ {
        ConfigView { safe_mode: b, ..c }
    } else if key == "storeFilesChosen"@ {
        ConfigView { store_files_chosen: b, ..c }
    } else if key == "lineNumbers"@ {
        ConfigView { line_numbers: b, ..c }
    } else if key == "showIgnoredInTree"@ {
        ConfigView { show_ignored_in_tree: b, ..c }
    } else if key == "showDefaultIgnoredInTree"@ {
        ConfigView { show_default_ignored_in_tree: b, ..c }
    } else if key == "previousFiles"@ {
        ConfigView { previous_files: parse_list(value), ..c }
    } else if key == "lastDirectory"@ {
        ConfigView { last_directory: Some(value), ..c }
    } else {
        c
    }
}

/// The record after reading one line: blank lines, comments and lines
/// without a colon change nothing.
pub open spec fn apply_line(c: ConfigView, line: Seq<char>) -> ConfigView {
    let t = trim(line);
    let i = first_colon(t);
    if t.len() == 0 || t[0] == '#' || i < 0 {
        c
    } else {
        apply_entry(c, trim(t.subrange(0, i)), trim(t.subrange(i + 1, t.len() as int)))
    }
}

pub open spec fn parse_lines(ls: Seq<Seq<char>>) -> ConfigView
    decreases ls.len(),
{
    if ls.len() == 0 {
        default_view()
    } else {
        apply_line(parse_lines(ls.drop_last()), ls.last())
    }
}

/// The record a settings file holds. Lines are taken between line feeds;
/// since each is trimmed, a carriage return before a line feed and a final
/// empty line change nothing, so this reads the file as `str::lines` does.
pub open spec fn parse_text(s: Seq<char>) -> ConfigView {
    parse_lines(split(s, '\n'))
}

pub open spec fn bool_text(b: bool) -> Seq<char> {
    if b {
        "true"@
    } else {
        "false"@
    }
}

/// A line that gives `key` the value `value`.
pub open spec fn key_line(key: Seq<char>, value: Seq<char>) -> Seq<char> {
    key + ": "@ + value
}

/// The lines of a settings file for `c`; the selection is kept in project
/// scope, the last directory in global scope.
pub open spec fn config_lines(c: ConfigView, is_global: bool) -> Seq<Seq<char>> {
    let scoped = if !is_global {
        seq![
            "# Previously selected files (when using the -s or --save flag previously)"@,
            key_line("previousFiles"@, join(c.previous_files, ","@)),
        ]
    } else {
        match c.last_directory {
            Some(d) => seq!["# Last directory opened"@, key_line("lastDirectory"@, d)],
            None => Seq::<Seq<char>>::empty(),
        }
    };
    seq![
        if is_global {
            "# GPTree Global Config"@
        } else {
            "# GPTree Local Config"@
        },
        key_line("version"@, decimal(c.version as nat)),
        "# Whether to use .gitignore"@,
        key_line("useGitIgnore"@, bool_text(c.use_git_ignore)),
        "# File types to include (e.g., .py,.js)"@,
        key_line("includeFileTypes"@, c.include_file_types),
        "# File types to exclude when includeFileTypes is '*'"@,
        key_line("excludeFileTypes"@, join(c.exclude_file_types, ","@)),
        "# Output file name"@,
        key_line("outputFile"@, c.output_file),
        "# Whether to save the output file at all"@,
        key_line("saveOutputFile"@, bool_text(c.save_output_file)),
        "# Whether to output the file locally or relative to the project directory"@,
        key_line("outputFileLocally"@, bool_text(c.output_file_locally)),
        "# Whether to copy the output to the clipboard"@,
        key_line("copyToClipboard"@, bool_text(c.copy_to_clipboard)),
        "# Whether to use safe mode (prevent overly large files from being combined)"@,
        key_line("safeMode"@, bool_text(c.safe_mode)),
        "# Whether to store the files chosen in the config file (--save, -s)"@,
        key_line("storeFilesChosen"@, bool_text(c.store_files_chosen)),
        "# Whether to include line numbers in the output (--line-numbers, -n)"@,
        key_line("lineNumbers"@, bool_text(c.line_numbers)),
        "# Whether to show ignored files in the directory tree"@,
        key_line("showIgnoredInTree"@, bool_text(c.show_ignored_in_tree)),
        "# Whether to show only default ignored files in the directory tree while still respecting gitignore"@,
        key_line("showDefaultIgnoredInTree"@, bool_text(c.show_default_ignored_in_tree)),
    ] + scoped
}

/// Each line followed by a line feed.
pub open spec fn lines_text(ls: Seq<Seq<char>>) -> Seq<char>
    decreases ls.len(),
{
    if ls.len() == 0 {
        Seq::<char>::empty()
    } else {
        lines_text(ls.drop_last()) + ls.last().push('\n')
    }
}

/// The settings file for `c`.
pub open spec fn serialize_text(c: ConfigView, is_global: bool) -> Seq<char> {
    lines_text(config_lines(c, is_global))
}

/// The record after each upgrade step from its version to the current one.
pub open spec fn migrate(c: ConfigView, is_global: bool) -> ConfigView {
    let c1 = if c.version < 1 {
        ConfigView {
            previous_files: if is_global {
                c.previous_files
            } else {
                Seq::<Seq<char>>::empty()
            },
            version: 1,
            ..c
        }
    } else {
        c
    };
    if c1.version < 2 {
        ConfigView {
            show_ignored_in_tree: false,
            show_default_ignored_in_tree: false,
            version: 2,
            ..c1
        }
    } else {
        c1
    }
}

pub proof fn lemma_first_colon_prefix(t: Seq<char>, j: int)
    requires
        0 <= j <= t.len(),
        first_colon(t.subrange(0, j)) >= 0,
    ensures
        first_colon(t) == first_colon(t.subrange(0, j)),
    decreases t.len() - j,
{
    if j < t.len() {
        assert(t.subrange(0, j + 1).drop_last() =~= t.subrange(0, j));
        lemma_first_colon_prefix(t, j + 1);
    } else {
        assert(t.subrange(0, j) =~= t);
    }
}

proof fn lemma_digits_step(s: Seq<char>, i: int)
    requires
        0 <= i < s.len(),
    ensures
        digits_value(s.subrange(0, i + 1)) == digits_value(s.subrange(0, i)) * 10 + ((s[i] as u32)
            - ('0' as u32)) as nat,
{
    assert(s.subrange(0, i + 1).drop_last() =~= s.subrange(0, i));
}

/// The value of `s[lo..hi]` read as `str::parse::<u32>` reads it.
fn parse_u32_exec(s: &Vec<char>, lo: usize, hi: usize) -> (r: Option<u32>)
    requires
        lo <= hi <= s@.len(),
    ensures
        r == parse_u32(s@.subrange(lo as int, hi as int)),
{
    let ghost v = s@.subrange(lo as int, hi as int);
    let mut a = lo;
    if a < hi && s[a] == '+' {
        a = a + 1;
    }
    let ghost d = s@.subrange(a as int, hi as int);
    proof {
        if v.len() > 0 && v[0] == '+' {
            assert(d =~= v.drop_first());
        } else {
            assert(d =~= v);
        }
    }
    if a == hi {
        return None;
    }
    let mut value: u64 = 0;
    let mut i = a;
    assert(d.subrange(0, 0) =~= Seq::<char>::empty());
    while i < hi
        invariant
            lo <= a <= i <= hi <= s@.len(),
            d == s@.subrange(a as int, hi as int),
            v == s@.subrange(lo as int, hi as int),
            d == (if v.len() > 0 && v[0] == '+' {
                v.drop_first()
            } else {
                v
            }),
            forall|m: int| 0 <= m < i - a ==> is_digit(#[trigger] d[m]),
            value == digits_value(d.subrange(0, i - a)),
            value <= u32::MAX,
        decreases hi - i,
    {
        let c = s[i];
        assert(d[i - a] == s@[i as int]);
        if !('0' <= c && c <= '9') {
            proof {
                let dd = if v.len() > 0 && v[0] == '+' {
                    v.drop_first()
                } else {
                    v
                };
                assert(dd == d);
                assert(!is_digit(dd[i - a]));
                assert(!all_digits(dd));
            }
            assert(parse_u32(v) is None);
            return None;
        }
        proof {
            lemma_digits_step(d, i - a);
        }
        let dv = (c as u32 - '0' as u32) as u64;
        value = value * 10 + dv;
        assert(value == digits_value(d.subrange(0, i - a + 1)));
        if value > u32::MAX as u64 {
            proof {
                lemma_digits_grow(d, i - a + 1);
                assert(digits_value(d) > u32::MAX);
                let dd = if v.len() > 0 && v[0] == '+' {
                    v.drop_first()
                } else {
                    v
                };
                assert(dd == d);
                assert(!(digits_value(dd) <= u32::MAX));
            }
            assert(parse_u32(v) is None);
            return None;
        }
        i = i + 1;
    }
    assert(d.subrange(0, hi - a) =~= d);
    Some(value as u32)
}

proof fn lemma_digits_grow(d: Seq<char>, j: int)
    requires
        0 <= j <= d.len(),
    ensures
        digits_value(d) >= digits_value(d.subrange(0, j)),
    decreases d.len() - j,
{
    if j < d.len() {
        lemma_digits_grow(d, j + 1);
        assert(d.subrange(0, j + 1).drop_last() =~= d.subrange(0, j));
    } else {
        assert(d.subrange(0, j) =~= d);
    }
}

/// The trimmed pieces of the comma list `s[lo..hi]`, or nothing when it is empty.
fn parse_list_exec(s: &Vec<char>, lo: usize, hi: usize) -> (r: Vec<String>)
    requires
        lo <= hi <= s@.len(),
    ensures
        views(r@) == parse_list(s@.subrange(lo as int, hi as int)),
{
    let ghost v = s@.subrange(lo as int, hi as int);
    let mut r: Vec<String> = Vec::new();
    if lo == hi {
        assert(views(r@) =~= Seq::<Seq<char>>::empty());
        return r;
    }
    let pieces = split_ranges(s, lo, hi, ',');
    let ghost ps = split(v, ',');
    let mut k: usize = 0;
    while k < pieces.len()
        invariant
            k <= pieces@.len() == ps.len(),
            ps == split(s@.subrange(lo as int, hi as int), ','),
            forall|m: int|
                0 <= m < pieces@.len() ==> (#[trigger] pieces@[m]).0 <= pieces@[m].1 <= s@.len()
                    && s@.subrange(pieces@[m].0 as int, pieces@[m].1 as int) == ps[m],
            views(r@) == ps.subrange(0, k as int).map_values(|p: Seq<char>| trim(p)),
        decreases pieces@.len() - k,
    {
        let (a, b) = pieces[k];
        let (c, d) = trim_range(s, a, b);
        let ghost before = views(r@);
        r.push(slice_string(s, c, d));
        assert(s@.subrange(c as int, d as int) == trim(ps[k as int]));
        assert(views(r@) =~= before.push(trim(ps[k as int])));
        assert(views(r@) =~= ps.subrange(0, k + 1).map_values(|p: Seq<char>| trim(p)));
        k = k + 1;
    }
    assert(ps.subrange(0, k as int) =~= ps);
    r
}

/// Reads the line `s[lo..hi]` into `c`.
fn apply_line_exec(c: &mut Config, s: &Vec<char>, lo: usize, hi: usize)
    requires
        lo <= hi <= s@.len(),
    ensures
        final(c)@ == apply_line(old(c)@, s@.subrange(lo as int, hi as int)),
{
    let ghost line = s@.subrange(lo as int, hi as int);
    let (x, y) = trim_range(s, lo, hi);
    let ghost t = s@.subrange(x as int, y as int);
    if x == y || s[x] == '#' {
        return;
    }
    let mut i = x;
    assert(t.subrange(0, 0) =~= Seq::<char>::empty());
    while i < y && s[i] != ':'
        invariant
            x <= i <= y <= s@.len(),
            t == s@.subrange(x as int, y as int),
            first_colon(t.subrange(0, i - x)) == -1,
        decreases y - i,
    {
        assert(t.subrange(0, i - x + 1).drop_last() =~= t.subrange(0, i - x));
        i = i + 1;
    }
    if i == y {
        assert(t.subrange(0, i - x) =~= t);
        return;
    }
    proof {
        assert(t.subrange(0, i - x + 1).drop_last() =~= t.subrange(0, i - x));
        lemma_first_colon_prefix(t, i - x + 1);
    }
    let (ka, kb) = trim_range(s, x, i);
    let (va, vb) = trim_range(s, i + 1, y);
    assert(t.subrange(0, i - x) =~= s@.subrange(x as int, i as int));
    assert(t.subrange(i - x + 1, t.len() as int) =~= s@.subrange(i + 1, y as int));
    apply_entry_exec(c, s, ka, kb, va, vb);
}

/// Reads the entry with key `s[ka..kb]` and value `s[va..vb]` into `c`.
#[verifier::rlimit(50)]
fn apply_entry_exec(c: &mut Config, s: &Vec<char>, ka: usize, kb: usize, va: usize, vb: usize)
    requires
        ka <= kb <= s@.len(),
        va <= vb <= s@.len(),
    ensures
        final(c)@ == apply_entry(old(c)@, s@.subrange(ka as int, kb as int), s@.subrange(va as int, vb as int)),
{
    let b = range_eq(s, va, vb, &chars_of("true"));
    if range_eq(s, ka, kb, &chars_of("version")) {
        match parse_u32_exec(s, va, vb) {
            Some(n) => {
                c.version = n;
            },
            None => {},
        }
    } else if range_eq(s, ka, kb, &chars_of("useGitIgnore")) {
        c.use_git_ignore = b;
    } else if range_eq(s, ka, kb, &chars_of("includeFileTypes")) {
        c.include_file_types = slice_string(s, va, vb);
    } else if range_eq(s, ka, kb, &chars_of("excludeFileTypes")) {
        c.exclude_file_types = parse_list_exec(s, va, vb);
    } else if range_eq(s, ka, kb, &chars_of("outputFile")) {
        c.output_file = slice_string(s, va, vb);
    } else if range_eq(s, ka, kb, &chars_of("saveOutputFile")) {
        c.save_output_file = b;
    } else if range_eq(s, ka, kb, &chars_of("outputFileLocally")) {
        c.output_file_locally = b;
    } else if range_eq(s, ka, kb, &chars_of("copyToClipboard")) {
        c.copy_to_clipboard = b;
    } else if range_eq(s, ka, kb, &chars_of("safeMode")) {
        c.safe_mode = b;
    } else if range_eq(s, ka, kb, &chars_of("storeFilesChosen")) {
        c.store_files_chosen = b;
    } else if range_eq(s, ka, kb, &chars_of("lineNumbers")) {
        c.line_numbers = b;
    } else if range_eq(s, ka, kb, &chars_of("showIgnoredInTree")) {
        c.show_ignored_in_tree = b;
    } else if range_eq(s, ka, kb, &chars_of("showDefaultIgnoredInTree")) {
        c.show_default_ignored_in_tree = b;
    } else if range_eq(s, ka, kb, &chars_of("previousFiles")) {
        c.previous_files = parse_list_exec(s, va, vb);
    } else if range_eq(s, ka, kb, &chars_of("lastDirectory")) {
        c.last_directory = Some(slice_string(s, va, vb));
    }
}

/// The record that the settings text `contents` holds: each known key read,
/// unknown keys ignored, missing or unreadable ones at their defaults.
pub fn parse_config(contents: &str) -> (r: Config)
    ensures
        r@ == parse_text(contents@),
{
    let s = chars_of(contents);
    let pieces = split_ranges(&s, 0, s.len(), '\n');
    let ghost ps = split(s@, '\n');
    assert(s@.subrange(0, s@.len() as int) =~= s@);
    let mut c = Config::defaults();
    let mut k: usize = 0;
    assert(ps.subrange(0, 0) =~= Seq::<Seq<char>>::empty());
    while k < pieces.len()
        invariant
            k <= pieces@.len() == ps.len(),
            ps == split(s@, '\n'),
            forall|m: int|
                0 <= m < pieces@.len() ==> (#[trigger] pieces@[m]).0 <= pieces@[m].1 <= s@.len()
                    && s@.subrange(pieces@[m].0 as int, pieces@[m].1 as int) == ps[m],
            c@ == parse_lines(ps.subrange(0, k as int)),
        decreases pieces@.len() - k,
    {
        let (a, b) = pieces[k];
        apply_line_exec(&mut c, &s, a, b);
        assert(ps.subrange(0, k + 1).drop_last() =~= ps.subrange(0, k as int));
        k = k + 1;
    }
    assert(ps.subrange(0, k as int) =~= ps);
    c
}

/// Appends `parts` joined with commas.
fn push_joined(out: &mut Vec<char>, parts: &Vec<String>)
    ensures
        final(out)@ == old(out)@ + join(views(parts@), ","@),
{
    let ghost o = out@;
    let mut k: usize = 0;
    while k < parts.len()
        invariant
            k <= parts@.len(),
            out@ == o + join(views(parts@).subrange(0, k as int), ","@),
        decreases parts@.len() - k,
    {
        if k > 0 {
            push_str(out, ",");
        }
        push_str(out, parts[k].as_str());
        proof {
            let ps = views(parts@).subrange(0, k + 1);
            assert(ps.drop_last() =~= views(parts@).subrange(0, k as int));
            assert(ps.last() == parts@[k as int]@);
            if k == 0 {
                assert(join(views(parts@).subrange(0, 0), ","@) =~= Seq::<char>::empty());
                assert(out@ =~= o + join(ps, ","@));
            } else {
                assert(out@ =~= o + join(ps, ","@));
            }
        }
        k = k + 1;
    }
    assert(views(parts@).subrange(0, k as int) =~= views(parts@));
}

fn line_of(key: &str, value: &Vec<char>) -> (r: Vec<char>)
    ensures
        r@ == key_line(key@, value@),
{
    let mut out = chars_of(key);
    push_str(&mut out, ": ");
    let ghost o = out@;
    let mut i: usize = 0;
    while i < value.len()
        invariant
            i <= value@.len(),
            out@ == o + value@.subrange(0, i as int),
        decreases value@.len() - i,
    {
        out.push(value[i]);
        assert(out@ =~= o + value@.subrange(0, i + 1));
        i = i + 1;
    }
    assert(value@.subrange(0, i as int) =~= value@);
    assert(out@ =~= key_line(key@, value@));
    out
}

fn bool_chars(b: bool) -> (r: Vec<char>)
    ensures
        r@ == bool_text(b),
{
    if b {
        chars_of("true")
    } else {
        chars_of("false")
    }
}

pub open spec fn char_lines(v: Seq<Vec<char>>) -> Seq<Seq<char>> {
    v.map_values(|l: Vec<char>| l@)
}

/// Each line followed by a line feed, as a string.
fn lines_to_string(ls: &Vec<Vec<char>>) -> (r: String)
    ensures
        r@ == lines_text(char_lines(ls@)),
{
    let mut out: Vec<char> = Vec::new();
    let mut k: usize = 0;
    while k < ls.len()
        invariant
            k <= ls@.len(),
            out@ == lines_text(char_lines(ls@).subrange(0, k as int)),
        decreases ls@.len() - k,
    {
        let ghost before = out@;
        let mut i: usize = 0;
        while i < ls[k].len()
            invariant
                k < ls@.len(),
                i <= ls@[k as int]@.len(),
                out@ == before + ls@[k as int]@.subrange(0, i as int),
            decreases ls@[k as int]@.len() - i,
        {
            out.push(ls[k][i]);
            assert(out@ =~= before + ls@[k as int]@.subrange(0, i + 1));
            i = i + 1;
        }
        out.push('\n');
        assert(ls@[k as int]@.subrange(0, i as int) =~= ls@[k as int]@);
        assert(char_lines(ls@).subrange(0, k + 1).drop_last() =~= char_lines(ls@).subrange(
            0,
            k as int,
        ));
        k = k + 1;
    }
    assert(char_lines(ls@).subrange(0, k as int) =~= char_lines(ls@));
    string_of(out.as_slice())
}

fn joined(parts: &Vec<String>) -> (r: Vec<char>)
    ensures
        r@ == join(views(parts@), ","@),
{
    let mut out: Vec<char> = Vec::new();
    push_joined(&mut out, parts);
    out
}

/// The settings file for `config`: each key after a comment that explains
/// it, in one fixed order.
#[verifier::rlimit(100)]
pub fn serialize_config(config: &Config, is_global: bool) -> (r: String)
    ensures
        r@ == serialize_text(config@, is_global),
{
    let c = config;
    let mut v: Vec<char> = Vec::new();
    push_decimal(&mut v, c.version as usize);
    let mut ls: Vec<Vec<char>> = Vec::new();
    if is_global {
        ls.push(chars_of("# GPTree Global Config"));
    } else {
        ls.push(chars_of("# GPTree Local Config"));
    }
    ls.push(line_of("version", &v));
    ls.push(chars_of("# Whether to use .gitignore"));
    ls.push(line_of("useGitIgnore", &bool_chars(c.use_git_ignore)));
    ls.push(chars_of("# File types to include (e.g., .py,.js)"));
    ls.push(line_of("includeFileTypes", &chars_of(c.include_file_types.as_str())));
    ls.push(chars_of("# File types to exclude when includeFileTypes is '*'"));
    ls.push(line_of("excludeFileTypes", &joined(&c.exclude_file_types)));
    ls.push(chars_of("# Output file name"));
    ls.push(line_of("outputFile", &chars_of(c.output_file.as_str())));
    ls.push(chars_of("# Whether to save the output file at all"));
    ls.push(line_of("saveOutputFile", &bool_chars(c.save_output_file)));
    ls.push(
        chars_of("# Whether to output the file locally or relative to the project directory"),
    );
    ls.push(line_of("outputFileLocally", &bool_chars(c.output_file_locally)));
    ls.push(chars_of("# Whether to copy the output to the clipboard"));
    ls.push(line_of("copyToClipboard", &bool_chars(c.copy_to_clipboard)));
    ls.push(
        chars_of("# Whether to use safe mode (prevent overly large files from being combined)"),
    );
    ls.push(line_of("safeMode", &bool_chars(c.safe_mode)));
    ls.push(chars_of("# Whether to store the files chosen in the config file (--save, -s)"));
    ls.push(line_of("storeFilesChosen", &bool_chars(c.store_files_chosen)));
    ls.push(chars_of("# Whether to include line numbers in the output (--line-numbers, -n)"));
    ls.push(line_of("lineNumbers", &bool_chars(c.line_numbers)));
    ls.push(chars_of("# Whether to show ignored files in the directory tree"));
    ls.push(line_of("showIgnoredInTree", &bool_chars(c.show_ignored_in_tree)));
    ls.push(
        chars_of(
            "# Whether to show only default ignored files in the directory tree while still respecting gitignore",
        ),
    );
    ls.push(line_of("showDefaultIgnoredInTree", &bool_chars(c.show_default_ignored_in_tree)));
    if !is_global {
        ls.push(
            chars_of("# Previously selected files (when using the -s or --save flag previously)"),
        );
        ls.push(line_of("previousFiles", &joined(&c.previous_files)));
    } else {
        match &c.last_directory {
            Some(d) => {
                ls.push(chars_of("# Last directory opened"));
                ls.push(line_of("lastDirectory", &chars_of(d.as_str())));
            },
            None => {},
        }
    }
    assert(char_lines(ls@) =~= config_lines(c@, is_global));
    lines_to_string(&ls)
}

/// Migrating a record twice gives what migrating it once gives, and never
/// lowers its version.
pub proof fn lemma_migrate_idempotent(c: ConfigView, is_global: bool)
    ensures
        migrate(migrate(c, is_global), is_global) == migrate(c, is_global),
        migrate(c, is_global).version >= c.version,
        migrate(c, is_global).version >= CONFIG_VERSION,
{
}

/// `config` brought up to the current version, one step at a time.
pub fn migrate_config(config: Config, is_global: bool) -> (r: Config)
    ensures
        r@ == migrate(config@, is_global),
{
    let mut config = config;
    if config.version < CONFIG_VERSION {
        if config.version < 1 {
            if !is_global {
                config.previous_files = Vec::new();
                assert(views(config.previous_files@) =~= Seq::<Seq<char>>::empty());
            }
            config.version = 1;
        }
        if config.version < 2 {
            config.show_ignored_in_tree = false;
            config.show_default_ignored_in_tree = false;
            config.version = 2;
        }
    }
    config
}

/// The project settings and the text to write back: what `contents` holds,
/// migrated, or the defaults when there is no file yet. The file is always
/// written back, so that it stays in the one canonical form.
pub fn load_or_create_project_config(contents: Option<&str>) -> (r: (Config, String))
    ensures
        r.0@ == match contents {
            Some(t) => migrate(parse_text(t@), false),
            None => default_view(),
        },
        r.1@ == serialize_text(r.0@, false),
{
    let config = match contents {
        Some(t) => migrate_config(parse_config(t), false),
        None => Config::defaults(),
    };
    let text = serialize_config(&config, false);
    (config, text)
}

/// The global settings, and the text to write back when there is any: the
/// defaults when there is no file yet, and the migrated record only when
/// migrating changed it.
pub fn load_or_create_global_config(contents: Option<&str>) -> (r: (Config, Option<String>))
    ensures
        match contents {
            Some(t) => {
                &&& r.0@ == migrate(parse_text(t@), true)
                &&& (r.1 is Some <==> r.0@ != parse_text(t@))
            },
            None => r.0@ == default_view() && r.1 is Some,
        },
        r.1 matches Some(w) ==> w@ == serialize_text(r.0@, true),
{
    match contents {
        Some(t) => {
            let loaded = parse_config(t);
            let migrated = migrate_config(parse_config(t), true);
            let changed = loaded.version != migrated.version || loaded.show_ignored_in_tree
                != migrated.show_ignored_in_tree || loaded.show_default_ignored_in_tree
                != migrated.show_default_ignored_in_tree;
            if changed {
                let text = serialize_config(&migrated, true);
                (migrated, Some(text))
            } else {
                assert(migrated@ =~= loaded@);
                (migrated, None)
            }
        },
        None => {
            let config = Config::defaults();
            let text = serialize_config(&config, true);
            (config, Some(text))
        },
    }
}

/// The selected paths that lie under `root`, relative to it, in order.
pub open spec fn relative_paths(sel: Seq<Seq<char>>, root: Seq<char>) -> Seq<Seq<char>>
    decreases sel.len(),
{
    if sel.len() == 0 {
        Seq::<Seq<char>>::empty()
    } else {
        let r = relative_paths(sel.drop_last(), root);
        match strip_prefix_of(sel.last(), root) {
            Some(p) => r.push(p),
            None => r,
        }
    }
}

/// The project settings text `contents` with the selection replaced by the
/// `selected_files` that lie under `root_dir`, relative to it.
pub fn update_previous_files(contents: &str, selected_files: &Vec<String>, root_dir: &str) -> (r:
    String)
    ensures
        r@ == serialize_text(
            ConfigView {
                previous_files: relative_paths(views(selected_files@), root_dir@),
                ..parse_text(contents@)
            },
            false,
        ),
{
    let mut rel: Vec<String> = Vec::new();
    let mut k: usize = 0;
    while k < selected_files.len()
        invariant
            k <= selected_files@.len(),
            views(rel@) == relative_paths(views(selected_files@).subrange(0, k as int), root_dir@),
        decreases selected_files@.len() - k,
    {
        let ghost sel = views(selected_files@).subrange(0, k + 1);
        assert(sel.drop_last() =~= views(selected_files@).subrange(0, k as int));
        assert(sel.last() == selected_files@[k as int]@);
        match relative_to(selected_files[k].as_str(), root_dir) {
            Some(p) => {
                rel.push(p);
                assert(views(rel@) =~= relative_paths(sel, root_dir@));
            },
            None => {},
        }
        k = k + 1;
    }
    assert(views(selected_files@).subrange(0, k as int) =~= views(selected_files@));
    let mut config = parse_config(contents);
    config.previous_files = rel;
    serialize_config(&config, false)
}

/// Whether `line` is read as an entry for `key`.
pub open spec fn names_key(line: Seq<char>, key: Seq<char>) -> bool {
    let t = trim(line);
    let i = first_colon(t);
    t.len() > 0 && t[0] != '#' && i >= 0 && trim(t.subrange(0, i)) == key
}

pub open spec fn no_line_names(ls: Seq<Seq<char>>, key: Seq<char>) -> bool {
    forall|i: int| 0 <= i < ls.len() ==> !names_key(#[trigger] ls[i], key)
}

proof fn lemma_unnamed_keys_default(ls: Seq<Seq<char>>)
    ensures
        no_line_names(ls, "version"@) ==> parse_lines(ls).version == default_view().version,
        no_line_names(ls, "useGitIgnore"@) ==> parse_lines(ls).use_git_ignore == default_view().use_git_ignore,
        no_line_names(ls, "includeFileTypes"@) ==> parse_lines(ls).include_file_types == default_view().include_file_types,
        no_line_names(ls, "excludeFileTypes"@) ==> parse_lines(ls).exclude_file_types == default_view().exclude_file_types,
        no_line_names(ls, "outputFile"@) ==> parse_lines(ls).output_file == default_view().output_file,
        no_line_names(ls, "saveOutputFile"@) ==> parse_lines(ls).save_output_file == default_view().save_output_file,
        no_line_names(ls, "outputFileLocally"@) ==> parse_lines(ls).output_file_locally == default_view().output_file_locally,
        no_line_names(ls, "copyToClipboard"@) ==> parse_lines(ls).copy_to_clipboard == default_view().copy_to_clipboard,
        no_line_names(ls, "safeMode"@) ==> parse_lines(ls).safe_mode == default_view().safe_mode,
        no_line_names(ls, "storeFilesChosen"@) ==> parse_lines(ls).store_files_chosen == default_view().store_files_chosen,
        no_line_names(ls, "lineNumbers"@) ==> parse_lines(ls).line_numbers == default_view().line_numbers,
        no_line_names(ls, "showIgnoredInTree"@) ==> parse_lines(ls).show_ignored_in_tree == default_view().show_ignored_in_tree,
        no_line_names(ls, "showDefaultIgnoredInTree"@) ==> parse_lines(ls).show_default_ignored_in_tree == default_view().show_default_ignored_in_tree,
        no_line_names(ls, "previousFiles"@) ==> parse_lines(ls).previous_files == default_view().previous_files,
        no_line_names(ls, "lastDirectory"@) ==> parse_lines(ls).last_directory == default_view().last_directory,
    decreases ls.len(),
{
    if ls.len() > 0 {
        let p = ls.drop_last();
        assert forall|k: Seq<char>| no_line_names(ls, k) implies no_line_names(p, k) by {
            assert forall|i: int| 0 <= i < p.len() implies !names_key(#[trigger] p[i], k) by {
                assert(p[i] == ls[i]);
            }
        }
        lemma_unnamed_keys_default(p);
    }
}

/// A key that no line of the settings text names keeps its default, whatever
/// else the text holds (unknown keys included).
pub proof fn lemma_missing_keys_default(s: Seq<char>)
    ensures
        no_line_names(split(s, '\n'), "version"@) ==> parse_text(s).version == default_view().version,
        no_line_names(split(s, '\n'), "useGitIgnore"@) ==> parse_text(s).use_git_ignore == default_view().use_git_ignore,
        no_line_names(split(s, '\n'), "includeFileTypes"@) ==> parse_text(s).include_file_types == default_view().include_file_types,
        no_line_names(split(s, '\n'), "excludeFileTypes"@) ==> parse_text(s).exclude_file_types == default_view().exclude_file_types,
        no_line_names(split(s, '\n'), "outputFile"@) ==> parse_text(s).output_file == default_view().output_file,
        no_line_names(split(s, '\n'), "saveOutputFile"@) ==> parse_text(s).save_output_file == default_view().save_output_file,
        no_line_names(split(s, '\n'), "outputFileLocally"@) ==> parse_text(s).output_file_locally == default_view().output_file_locally,
        no_line_names(split(s, '\n'), "copyToClipboard"@) ==> parse_text(s).copy_to_clipboard == default_view().copy_to_clipboard,
        no_line_names(split(s, '\n'), "safeMode"@) ==> parse_text(s).safe_mode == default_view().safe_mode,
        no_line_names(split(s, '\n'), "storeFilesChosen"@) ==> parse_text(s).store_files_chosen == default_view().store_files_chosen,
        no_line_names(split(s, '\n'), "lineNumbers"@) ==> parse_text(s).line_numbers == default_view().line_numbers,
        no_line_names(split(s, '\n'), "showIgnoredInTree"@) ==> parse_text(s).show_ignored_in_tree == default_view().show_ignored_in_tree,
        no_line_names(split(s, '\n'), "showDefaultIgnoredInTree"@) ==> parse_text(s).show_default_ignored_in_tree == default_view().show_default_ignored_in_tree,
        no_line_names(split(s, '\n'), "previousFiles"@) ==> parse_text(s).previous_files == default_view().previous_files,
        no_line_names(split(s, '\n'), "lastDirectory"@) ==> parse_text(s).last_directory == default_view().last_directory,
{
    lemma_unnamed_keys_default(split(s, '\n'));
}

} // verus!
