//! Reading back what the settings writer produces: the lines, each
//! `key: value` entry, comments, lists and version numbers, and in the end
//! the whole record.
use crate::config::{
    apply_entry, apply_line, bool_text, config_lines, default_view, digits_value, first_colon,
    is_digit, key_line, lemma_first_colon_prefix, lines_text, parse_lines, parse_list, parse_text,
    parse_u32, serialize_text, ConfigView,
};
use crate::text::{decimal, digit, is_ws, join, split, trim, trim_end, trim_start};
use vstd::prelude::*;

verus! {

/// `s` has no whitespace at either end.
pub open spec fn trimmed(s: Seq<char>) -> bool {
    s.len() == 0 || (!is_ws(s[0]) && !is_ws(s.last()))
}

pub open spec fn free_of(s: Seq<char>, c: char) -> bool {
    forall|i: int| 0 <= i < s.len() ==> s[i] != c
}

/// A text value that a settings line carries unchanged.
pub open spec fn text_ok(s: Seq<char>) -> bool {
    trimmed(s) && free_of(s, '\n')
}

/// A list that a settings line carries unchanged: no single empty entry,
/// and entries free of commas and line feeds, with no whitespace at the ends.
pub open spec fn list_ok(l: Seq<Seq<char>>) -> bool {
    &&& (l.len() == 1 ==> l[0].len() > 0)
    &&& forall|i: int|
        0 <= i < l.len() ==> text_ok(#[trigger] l[i]) && free_of(l[i], ',')
}

proof fn lemma_split_append(s: Seq<char>, t: Seq<char>, sep: char)
    requires
        free_of(t, sep),
    ensures
        split(s + t, sep) == split(s, sep).update(
            split(s, sep).len() - 1,
            split(s, sep).last() + t,
        ),
        split(s + t, sep).len() == split(s, sep).len(),
    decreases t.len(),
{
    crate::text::lemma_split_nonempty(s, sep);
    if t.len() == 0 {
        assert(s + t =~= s);
        assert(split(s, sep).last() + t =~= split(s, sep).last());
        assert(split(s, sep).update(split(s, sep).len() - 1, split(s, sep).last())
            =~= split(s, sep));
    } else {
        let t0 = t.drop_last();
        assert(free_of(t0, sep));
        lemma_split_append(s, t0, sep);
        assert((s + t).drop_last() =~= s + t0);
        assert((s + t).last() == t.last());
        assert(t.last() != sep);
        let rest = split(s + t0, sep);
        let l = split(s, sep).len();
        assert(rest.len() == l);
        assert(rest.last() == split(s, sep).last() + t0);
        assert((split(s, sep).last() + t0).push(t.last()) =~= split(s, sep).last() + t);
        assert(split(s + t, sep) == rest.update(rest.len() - 1, rest.last().push(t.last())));
        assert(split(s + t, sep) =~= split(s, sep).update(
            split(s, sep).len() - 1,
            split(s, sep).last() + t,
        ));
    }
}

/// The text of lines written one per line, none holding a line feed, splits
/// back into those lines and a final empty piece.
pub proof fn lemma_split_lines(ls: Seq<Seq<char>>)
    requires
        forall|i: int| 0 <= i < ls.len() ==> free_of(#[trigger] ls[i], '\n'),
    ensures
        split(lines_text(ls), '\n') == ls.push(Seq::<char>::empty()),
    decreases ls.len(),
{
    if ls.len() == 0 {
        assert(split(Seq::<char>::empty(), '\n') =~= seq![Seq::<char>::empty()]);
        assert(ls.push(Seq::<char>::empty()) =~= seq![Seq::<char>::empty()]);
    } else {
        let prev = ls.drop_last();
        assert forall|i: int| 0 <= i < prev.len() implies free_of(#[trigger] prev[i], '\n') by {
            assert(prev[i] == ls[i]);
        }
        lemma_split_lines(prev);
        let x = lines_text(prev) + ls.last();
        assert(free_of(ls.last(), '\n'));
        lemma_split_append(lines_text(prev), ls.last(), '\n');
        assert(lines_text(ls) =~= x.push('\n'));
        assert(x.push('\n').drop_last() =~= x);
        assert(Seq::<char>::empty() + ls.last() =~= ls.last());
        assert(split(x, '\n') =~= ls);
    }
}

proof fn lemma_split_join(items: Seq<Seq<char>>)
    requires
        items.len() > 0,
        forall|i: int| 0 <= i < items.len() ==> free_of(#[trigger] items[i], ','),
    ensures
        split(join(items, seq![',']), ',') == items,
    decreases items.len(),
{
    if items.len() == 1 {
        lemma_split_append(Seq::<char>::empty(), items[0], ',');
        assert(Seq::<char>::empty() + items[0] =~= items[0]);
        assert(split(Seq::<char>::empty(), ',') =~= seq![Seq::<char>::empty()]);
        assert(split(join(items, seq![',']), ',') =~= items);
    } else {
        let prev = items.drop_last();
        assert forall|i: int| 0 <= i < prev.len() implies free_of(#[trigger] prev[i], ',') by {
            assert(prev[i] == items[i]);
        }
        lemma_split_join(prev);
        let x = join(prev, seq![',']).push(',');
        assert(join(items, seq![',']) =~= x + items.last());
        assert(free_of(items.last(), ','));
        lemma_split_append(x, items.last(), ',');
        assert(x.drop_last() =~= join(prev, seq![',']));
        assert(Seq::<char>::empty() + items.last() =~= items.last());
        assert(split(join(items, seq![',']), ',') =~= items);
    }
}

proof fn lemma_trim_trimmed(s: Seq<char>)
    requires
        trimmed(s),
    ensures
        trim(s) == s,
{
    assert(trim_start(s) == s);
    assert(trim_end(s) == s);
}

/// A list written with commas reads back as itself, when no entry holds a
/// comma or a line feed or has whitespace at its ends, and it is not a lone
/// empty entry.
pub proof fn lemma_parse_list(l: Seq<Seq<char>>)
    requires
        list_ok(l),
    ensures
        parse_list(join(l, seq![','])) == l,
{
    if l.len() == 0 {
        assert(join(l, seq![',']) =~= Seq::<char>::empty());
    } else {
        assert forall|i: int| 0 <= i < l.len() implies free_of(#[trigger] l[i], ',') by {}
        lemma_split_join(l);
        if l.len() == 1 {
            assert(join(l, seq![',']).len() > 0);
        } else {
            assert(join(l, seq![',']) == join(l.drop_last(), seq![',']) + seq![','] + l.last());
            assert(join(l, seq![',']).len() > 0);
        }
        assert forall|i: int| 0 <= i < l.len() implies trim(#[trigger] l[i]) == l[i] by {
            assert(text_ok(l[i]));
            lemma_trim_trimmed(l[i]);
        }
        assert(split(join(l, seq![',']), ',').map_values(|p: Seq<char>| trim(p)) =~= l);
    }
}

proof fn lemma_no_colon(s: Seq<char>)
    requires
        free_of(s, ':'),
    ensures
        first_colon(s) == -1,
    decreases s.len(),
{
    if s.len() > 0 {
        assert(free_of(s.drop_last(), ':'));
        lemma_no_colon(s.drop_last());
    }
}

/// Reading a written `key: value` line gives exactly that entry, for a key
/// of non-blank ends that holds no colon and does not start a comment, and a
/// value with no whitespace at its ends.
pub proof fn lemma_key_line(c: ConfigView, key: Seq<char>, value: Seq<char>)
    requires
        key.len() > 0,
        key[0] != '#',
        trimmed(key),
        free_of(key, ':'),
        trimmed(value),
    ensures
        apply_line(c, key + ": "@ + value) == apply_entry(c, key, value),
{
    reveal_strlit(": ");
    let line = key + ": "@ + value;
    assert(line[0] == key[0]);
    assert(trim_start(line) == line);
    let t = if value.len() > 0 {
        assert(line.last() == value.last());
        line
    } else {
        assert(line.last() == ' ');
        assert(line.drop_last() =~= key.push(':'));
        assert(trim_end(key.push(':')) == key.push(':'));
        key.push(':')
    };
    assert(trim(line) == t);
    assert(t.subrange(0, key.len() as int) =~= key);
    assert(t[key.len() as int] == ':');
    lemma_no_colon(key);
    assert(t.subrange(0, key.len() as int + 1).drop_last() =~= key);
    lemma_first_colon_prefix(t, key.len() as int + 1);
    assert(first_colon(t) == key.len());
    lemma_trim_trimmed(key);
    let rest = t.subrange(key.len() as int + 1, t.len() as int);
    if value.len() > 0 {
        assert(rest =~= seq![' '] + value);
        assert(rest.drop_first() =~= value);
        lemma_trim_trimmed(value);
        assert(trim_start(rest) == trim_start(value));
        assert(trim(rest) == value);
    } else {
        assert(rest =~= Seq::<char>::empty());
        assert(trim(rest) =~= value);
    }
}

/// A written comment line, `#` first and no blank at its end, changes nothing.
pub proof fn lemma_comment_line(c: ConfigView, line: Seq<char>)
    requires
        line.len() > 0,
        line[0] == '#',
        !is_ws(line.last()),
    ensures
        apply_line(c, line) == c,
{
    assert(trimmed(line));
    lemma_trim_trimmed(line);
}

proof fn lemma_digit(m: nat)
    requires
        m < 10,
    ensures
        ((digit(m) as u32) - ('0' as u32)) as nat == m,
        is_digit(digit(m)),
        digit(m) != '+',
{
}

proof fn lemma_decimal(n: nat)
    ensures
        decimal(n).len() > 0,
        forall|i: int| 0 <= i < decimal(n).len() ==> is_digit(#[trigger] decimal(n)[i]),
        digits_value(decimal(n)) == n,
        decimal(n)[0] != '+',
    decreases n,
{
    if n >= 10 {
        lemma_decimal(n / 10);
        let d = decimal(n / 10);
        assert(decimal(n) == d.push(digit(n % 10)));
        assert(decimal(n).drop_last() =~= d);
        assert(decimal(n)[0] == d[0]);
        lemma_digit(n % 10);
        assert(decimal(n).last() == digit(n % 10));
        assert(digits_value(decimal(n)) == digits_value(d) * 10 + n % 10);
        assert(n == (n / 10) * 10 + n % 10) by (nonlinear_arith);
        assert forall|i: int| 0 <= i < decimal(n).len() implies is_digit(
            #[trigger] decimal(n)[i],
        ) by {
            if i < d.len() {
                assert(decimal(n)[i] == d[i]);
            }
        }
    } else {
        assert(decimal(n).drop_last() =~= Seq::<char>::empty());
        lemma_digit(n);
        assert(decimal(n).last() == digit(n));
        assert(digits_value(Seq::<char>::empty()) == 0);
        assert(digits_value(decimal(n)) == n);
    }
}

/// A version written in decimal reads back as itself.
pub proof fn lemma_parse_decimal(v: u32)
    ensures
        parse_u32(decimal(v as nat)) == Some(v),
{
    lemma_decimal(v as nat);
}



/// The records that the settings file of a scope holds exactly: text values
/// that survive trimming and line splitting, and only the fields that the
/// scope writes.
pub open spec fn in_range(c: ConfigView, is_global: bool) -> bool {
    &&& text_ok(c.include_file_types)
    &&& text_ok(c.output_file)
    &&& list_ok(c.exclude_file_types)
    &&& if is_global {
        &&& c.previous_files.len() == 0
        &&& (c.last_directory matches Some(d) ==> text_ok(d))
    } else {
        &&& list_ok(c.previous_files)
        &&& c.last_directory is None
    }
}

pub open spec fn good_key(k: Seq<char>) -> bool {
    &&& k.len() > 0
    &&& k[0] != '#'
    &&& trimmed(k)
    &&& free_of(k, ':')
    &&& free_of(k, '\n')
}

pub open spec fn good_comment(l: Seq<char>) -> bool {
    &&& l.len() > 0
    &&& l[0] == '#'
    &&& !is_ws(l.last())
    &&& free_of(l, '\n')
}

proof fn lemma_key_version()
    ensures
        good_key("version"@),
        "version"@.len() == 7,
        "version"@[0] == 'v',
{
    reveal_strlit("version");
}

proof fn lemma_key_useGitIgnore()
    ensures
        good_key("useGitIgnore"@),
        "useGitIgnore"@.len() == 12,
        "useGitIgnore"@[0] == 'u',
{
    reveal_strlit("useGitIgnore");
}

proof fn lemma_key_includeFileTypes()
    ensures
        good_key("includeFileTypes"@),
        "includeFileTypes"@.len() == 16,
        "includeFileTypes"@[0] == 'i',
{
    reveal_strlit("includeFileTypes");
}

proof fn lemma_key_excludeFileTypes()
    ensures
        good_key("excludeFileTypes"@),
        "excludeFileTypes"@.len() == 16,
        "excludeFileTypes"@[0] == 'e',
{
    reveal_strlit("excludeFileTypes");
}

proof fn lemma_key_outputFile()
    ensures
        good_key("outputFile"@),
        "outputFile"@.len() == 10,
        "outputFile"@[0] == 'o',
{
    reveal_strlit("outputFile");
}

proof fn lemma_key_saveOutputFile()
    ensures
        good_key("saveOutputFile"@),
        "saveOutputFile"@.len() == 14,
        "saveOutputFile"@[0] == 's',
{
    reveal_strlit("saveOutputFile");
}

proof fn lemma_key_outputFileLocally()
    ensures
        good_key("outputFileLocally"@),
        "outputFileLocally"@.len() == 17,
        "outputFileLocally"@[0] == 'o',
{
    reveal_strlit("outputFileLocally");
}

proof fn lemma_key_copyToClipboard()
    ensures
        good_key("copyToClipboard"@),
        "copyToClipboard"@.len() == 15,
        "copyToClipboard"@[0] == 'c',
{
    reveal_strlit("copyToClipboard");
}

proof fn lemma_key_safeMode()
    ensures
        good_key("safeMode"@),
        "safeMode"@.len() == 8,
        "safeMode"@[0] == 's',
{
    reveal_strlit("safeMode");
}

proof fn lemma_key_storeFilesChosen()
    ensures
        good_key("storeFilesChosen"@),
        "storeFilesChosen"@.len() == 16,
        "storeFilesChosen"@[0] == 's',
{
    reveal_strlit("storeFilesChosen");
}

proof fn lemma_key_lineNumbers()
    ensures
        good_key("lineNumbers"@),
        "lineNumbers"@.len() == 11,
        "lineNumbers"@[0] == 'l',
{
    reveal_strlit("lineNumbers");
}

proof fn lemma_key_showIgnoredInTree()
    ensures
        good_key("showIgnoredInTree"@),
        "showIgnoredInTree"@.len() == 17,
        "showIgnoredInTree"@[0] == 's',
{
    reveal_strlit("showIgnoredInTree");
}

proof fn lemma_key_showDefaultIgnoredInTree()
    ensures
        good_key("showDefaultIgnoredInTree"@),
        "showDefaultIgnoredInTree"@.len() == 24,
        "showDefaultIgnoredInTree"@[0] == 's',
{
    reveal_strlit("showDefaultIgnoredInTree");
}

proof fn lemma_key_previousFiles()
    ensures
        good_key("previousFiles"@),
        "previousFiles"@.len() == 13,
        "previousFiles"@[0] == 'p',
{
    reveal_strlit("previousFiles");
}

proof fn lemma_key_lastDirectory()
    ensures
        good_key("lastDirectory"@),
        "lastDirectory"@.len() == 13,
        "lastDirectory"@[0] == 'l',
{
    reveal_strlit("lastDirectory");
}

proof fn lemma_comment_0()
    ensures
        good_comment("# GPTree Global Config"@),
{
    reveal_strlit("# GPTree Global Config");
}

proof fn lemma_comment_1()
    ensures
        good_comment("# GPTree Local Config"@),
{
    reveal_strlit("# GPTree Local Config");
}

proof fn lemma_comment_2()
    ensures
        good_comment("# Whether to use .gitignore"@),
{
    reveal_strlit("# Whether to use .gitignore");
}

proof fn lemma_comment_3()
    ensures
        good_comment("# File types to include (e.g., .py,.js)"@),
{
    reveal_strlit("# File types to include (e.g., .py,.js)");
}

proof fn lemma_comment_4()
    ensures
        good_comment("# File types to exclude when includeFileTypes is '*'"@),
{
    reveal_strlit("# File types to exclude when includeFileTypes is '*'");
}

proof fn lemma_comment_5()
    ensures
        good_comment("# Output file name"@),
{
    reveal_strlit("# Output file name");
}

proof fn lemma_comment_6()
    ensures
        good_comment("# Whether to save the output file at all"@),
{
    reveal_strlit("# Whether to save the output file at all");
}

proof fn lemma_comment_7()
    ensures
        good_comment("# Whether to output the file locally or relative to the project directory"@),
{
    reveal_strlit("# Whether to output the file locally or relative to the project directory");
}

proof fn lemma_comment_8()
    ensures
        good_comment("# Whether to copy the output to the clipboard"@),
{
    reveal_strlit("# Whether to copy the output to the clipboard");
}

proof fn lemma_comment_9()
    ensures
        good_comment("# Whether to use safe mode (prevent overly large files from being combined)"@),
{
    reveal_strlit("# Whether to use safe mode (prevent overly large files from being combined)");
}

proof fn lemma_comment_10()
    ensures
        good_comment("# Whether to store the files chosen in the config file (--save, -s)"@),
{
    reveal_strlit("# Whether to store the files chosen in the config file (--save, -s)");
}

proof fn lemma_comment_11()
    ensures
        good_comment("# Whether to include line numbers in the output (--line-numbers, -n)"@),
{
    reveal_strlit("# Whether to include line numbers in the output (--line-numbers, -n)");
}

proof fn lemma_comment_12()
    ensures
        good_comment("# Whether to show ignored files in the directory tree"@),
{
    reveal_strlit("# Whether to show ignored files in the directory tree");
}

proof fn lemma_comment_13()
    ensures
        good_comment("# Whether to show only default ignored files in the directory tree while still respecting gitignore"@),
{
    reveal_strlit("# Whether to show only default ignored files in the directory tree while still respecting gitignore");
}

proof fn lemma_comment_14()
    ensures
        good_comment("# Previously selected files (when using the -s or --save flag previously)"@),
{
    reveal_strlit("# Previously selected files (when using the -s or --save flag previously)");
}

proof fn lemma_comment_15()
    ensures
        good_comment("# Last directory opened"@),
{
    reveal_strlit("# Last directory opened");
}

proof fn lemma_small_literals()
    ensures
        ": "@ == seq![':', ' '],
        "true"@ == seq!['t', 'r', 'u', 'e'],
        "false"@ == seq!['f', 'a', 'l', 's', 'e'],
        ","@ == seq![','],
{
    reveal_strlit(": ");
    reveal_strlit("true");
    reveal_strlit("false");
    reveal_strlit(",");
    assert(": "@ =~= seq![':', ' ']);
    assert("true"@ =~= seq!['t', 'r', 'u', 'e']);
    assert("false"@ =~= seq!['f', 'a', 'l', 's', 'e']);
    assert(","@ =~= seq![',']);
}

proof fn lemma_bool_value(b: bool)
    ensures
        trimmed(bool_text(b)),
        free_of(bool_text(b), '\n'),
        (bool_text(b) == "true"@) == b,
{
    lemma_small_literals();
}

proof fn lemma_join_ends(l: Seq<Seq<char>>)
    requires
        l.len() > 0,
        forall|i: int| 0 <= i < l.len() ==> text_ok(#[trigger] l[i]),
    ensures
        join(l, seq![',']).len() > 0 ==> join(l, seq![','])[0] == (if l[0].len() > 0 {
            l[0][0]
        } else {
            ','
        }),
        join(l, seq![',']).len() > 0 ==> join(l, seq![',']).last() == (if l.last().len() > 0 {
            l.last().last()
        } else {
            ','
        }),
        l.len() > 1 ==> join(l, seq![',']).len() > 0,
        free_of(join(l, seq![',']), '\n'),
    decreases l.len(),
{
    if l.len() > 1 {
        let prev = l.drop_last();
        assert forall|i: int| 0 <= i < prev.len() implies text_ok(#[trigger] prev[i]) by {
            assert(prev[i] == l[i]);
        }
        lemma_join_ends(prev);
        let j = join(prev, seq![',']);
        assert(join(l, seq![',']) == j + seq![','] + l.last());
        assert(text_ok(l.last()));
        if j.len() > 0 {
            assert(join(l, seq![','])[0] == j[0]);
        } else {
            assert(join(l, seq![','])[0] == ',');
            assert(prev.len() == 1);
        }
        assert forall|i: int| 0 <= i < join(l, seq![',']).len() implies join(l, seq![','])[i]
            != '\n' by {
            if i < j.len() {
                assert(join(l, seq![','])[i] == j[i]);
            } else if i > j.len() {
                assert(join(l, seq![','])[i] == l.last()[i - j.len() - 1]);
            }
        }
    } else {
        assert(text_ok(l[0]));
    }
}

proof fn lemma_list_value(l: Seq<Seq<char>>)
    requires
        list_ok(l),
    ensures
        trimmed(join(l, ","@)),
        free_of(join(l, ","@), '\n'),
        parse_list(join(l, ","@)) == l,
{
    lemma_small_literals();
    lemma_parse_list(l);
    if l.len() > 0 {
        lemma_join_ends(l);
        assert(text_ok(l[0]));
        assert(text_ok(l.last()));
    } else {
        assert(join(l, seq![',']) =~= Seq::<char>::empty());
    }
}

proof fn lemma_line_free(key: Seq<char>, value: Seq<char>)
    requires
        free_of(key, '\n'),
        free_of(value, '\n'),
    ensures
        free_of(key_line(key, value), '\n'),
{
    lemma_small_literals();
    let l = key_line(key, value);
    assert forall|i: int| 0 <= i < l.len() implies l[i] != '\n' by {
        if i < key.len() {
            assert(l[i] == key[i]);
        } else if i >= key.len() + 2 {
            assert(l[i] == value[i - key.len() - 2]);
        }
    }
}

proof fn lemma_parse_step(ls: Seq<Seq<char>>, k: int)
    requires
        0 <= k < ls.len(),
    ensures
        parse_lines(ls.subrange(0, k + 1)) == apply_line(parse_lines(ls.subrange(0, k)), ls[k]),
{
    assert(ls.subrange(0, k + 1).drop_last() =~= ls.subrange(0, k));
}

proof fn step_key(ls: Seq<Seq<char>>, k: int, key: Seq<char>, value: Seq<char>)
    requires
        0 <= k < ls.len(),
        ls[k] == key_line(key, value),
        good_key(key),
        trimmed(value),
    ensures
        parse_lines(ls.subrange(0, k + 1)) == apply_entry(
            parse_lines(ls.subrange(0, k)),
            key,
            value,
        ),
{
    lemma_parse_step(ls, k);
    lemma_key_line(parse_lines(ls.subrange(0, k)), key, value);
}

proof fn step_comment(ls: Seq<Seq<char>>, k: int)
    requires
        0 <= k < ls.len(),
        good_comment(ls[k]),
    ensures
        parse_lines(ls.subrange(0, k + 1)) == parse_lines(ls.subrange(0, k)),
{
    lemma_parse_step(ls, k);
    lemma_comment_line(parse_lines(ls.subrange(0, k)), ls[k]);
}

proof fn entry_version(st: ConfigView, x: u32)
    ensures
        apply_entry(st, "version"@, decimal(x as nat)) == (ConfigView { version: x, ..st }),
{
    lemma_key_version();
    lemma_parse_decimal(x);
}

proof fn entry_use_git_ignore(st: ConfigView, x: bool)
    ensures
        apply_entry(st, "useGitIgnore"@, bool_text(x)) == (ConfigView { use_git_ignore: x, ..st }),
{
    lemma_key_version();
    lemma_key_useGitIgnore();
    lemma_bool_value(x);
}

proof fn entry_include_file_types(st: ConfigView, x: Seq<char>)
    ensures
        apply_entry(st, "includeFileTypes"@, x) == (ConfigView { include_file_types: x, ..st }),
{
    lemma_key_version();
    lemma_key_useGitIgnore();
    lemma_key_includeFileTypes();
}

proof fn entry_exclude_file_types(st: ConfigView, x: Seq<Seq<char>>)
    requires
        list_ok(x),
    ensures
        apply_entry(st, "excludeFileTypes"@, join(x, ","@)) == (ConfigView { exclude_file_types: x, ..st }),
{
    lemma_key_version();
    lemma_key_useGitIgnore();
    lemma_key_includeFileTypes();
    lemma_key_excludeFileTypes();
    lemma_list_value(x);
}

proof fn entry_output_file(st: ConfigView, x: Seq<char>)
    ensures
        apply_entry(st, "outputFile"@, x) == (ConfigView { output_file: x, ..st }),
{
    lemma_key_version();
    lemma_key_useGitIgnore();
    lemma_key_includeFileTypes();
    lemma_key_excludeFileTypes();
    lemma_key_outputFile();
}

proof fn entry_save_output_file(st: ConfigView, x: bool)
    ensures
        apply_entry(st, "saveOutputFile"@, bool_text(x)) == (ConfigView { save_output_file: x, ..st }),
{
    lemma_key_version();
    lemma_key_useGitIgnore();
    lemma_key_includeFileTypes();
    lemma_key_excludeFileTypes();
    lemma_key_outputFile();
    lemma_key_saveOutputFile();
    lemma_bool_value(x);
}

proof fn entry_output_file_locally(st: ConfigView, x: bool)
    ensures
        apply_entry(st, "outputFileLocally"@, bool_text(x)) == (ConfigView { output_file_locally: x, ..st }),
{
    lemma_key_version();
    lemma_key_useGitIgnore();
    lemma_key_includeFileTypes();
    lemma_key_excludeFileTypes();
    lemma_key_outputFile();
    lemma_key_saveOutputFile();
    lemma_key_outputFileLocally();
    lemma_bool_value(x);
}

proof fn entry_copy_to_clipboard(st: ConfigView, x: bool)
    ensures
        apply_entry(st, "copyToClipboard"@, bool_text(x)) == (ConfigView { copy_to_clipboard: x, ..st }),
{
    lemma_key_version();
    lemma_key_useGitIgnore();
    lemma_key_includeFileTypes();
    lemma_key_excludeFileTypes();
    lemma_key_outputFile();
    lemma_key_saveOutputFile();
    lemma_key_outputFileLocally();
    lemma_key_copyToClipboard();
    lemma_bool_value(x);
}

proof fn entry_safe_mode(st: ConfigView, x: bool)
    ensures
        apply_entry(st, "safeMode"@, bool_text(x)) == (ConfigView { safe_mode: x, ..st }),
{
    lemma_key_version();
    lemma_key_useGitIgnore();
    lemma_key_includeFileTypes();
    lemma_key_excludeFileTypes();
    lemma_key_outputFile();
    lemma_key_saveOutputFile();
    lemma_key_outputFileLocally();
    lemma_key_copyToClipboard();
    lemma_key_safeMode();
    lemma_bool_value(x);
}

proof fn entry_store_files_chosen(st: ConfigView, x: bool)
    ensures
        apply_entry(st, "storeFilesChosen"@, bool_text(x)) == (ConfigView { store_files_chosen: x, ..st }),
{
    lemma_key_version();
    lemma_key_useGitIgnore();
    lemma_key_includeFileTypes();
    lemma_key_excludeFileTypes();
    lemma_key_outputFile();
    lemma_key_saveOutputFile();
    lemma_key_outputFileLocally();
    lemma_key_copyToClipboard();
    lemma_key_safeMode();
    lemma_key_storeFilesChosen();
    lemma_bool_value(x);
}

proof fn entry_line_numbers(st: ConfigView, x: bool)
    ensures
        apply_entry(st, "lineNumbers"@, bool_text(x)) == (ConfigView { line_numbers: x, ..st }),
{
    lemma_key_version();
    lemma_key_useGitIgnore();
    lemma_key_includeFileTypes();
    lemma_key_excludeFileTypes();
    lemma_key_outputFile();
    lemma_key_saveOutputFile();
    lemma_key_outputFileLocally();
    lemma_key_copyToClipboard();
    lemma_key_safeMode();
    lemma_key_storeFilesChosen();
    lemma_key_lineNumbers();
    lemma_bool_value(x);
}

proof fn entry_show_ignored_in_tree(st: ConfigView, x: bool)
    ensures
        apply_entry(st, "showIgnoredInTree"@, bool_text(x)) == (ConfigView { show_ignored_in_tree: x, ..st }),
{
    lemma_key_version();
    lemma_key_useGitIgnore();
    lemma_key_includeFileTypes();
    lemma_key_excludeFileTypes();
    lemma_key_outputFile();
    lemma_key_saveOutputFile();
    lemma_key_outputFileLocally();
    lemma_key_copyToClipboard();
    lemma_key_safeMode();
    lemma_key_storeFilesChosen();
    lemma_key_lineNumbers();
    lemma_key_showIgnoredInTree();
    lemma_bool_value(x);
}

proof fn entry_show_default_ignored_in_tree(st: ConfigView, x: bool)
    ensures
        apply_entry(st, "showDefaultIgnoredInTree"@, bool_text(x)) == (ConfigView { show_default_ignored_in_tree: x, ..st }),
{
    lemma_key_version();
    lemma_key_useGitIgnore();
    lemma_key_includeFileTypes();
    lemma_key_excludeFileTypes();
    lemma_key_outputFile();
    lemma_key_saveOutputFile();
    lemma_key_outputFileLocally();
    lemma_key_copyToClipboard();
    lemma_key_safeMode();
    lemma_key_storeFilesChosen();
    lemma_key_lineNumbers();
    lemma_key_showIgnoredInTree();
    lemma_key_showDefaultIgnoredInTree();
    lemma_bool_value(x);
}

proof fn entry_previous_files(st: ConfigView, x: Seq<Seq<char>>)
    requires
        list_ok(x),
    ensures
        apply_entry(st, "previousFiles"@, join(x, ","@)) == (ConfigView { previous_files: x, ..st }),
{
    lemma_key_version();
    lemma_key_useGitIgnore();
    lemma_key_includeFileTypes();
    lemma_key_excludeFileTypes();
    lemma_key_outputFile();
    lemma_key_saveOutputFile();
    lemma_key_outputFileLocally();
    lemma_key_copyToClipboard();
    lemma_key_safeMode();
    lemma_key_storeFilesChosen();
    lemma_key_lineNumbers();
    lemma_key_showIgnoredInTree();
    lemma_key_showDefaultIgnoredInTree();
    lemma_key_previousFiles();
    lemma_list_value(x);
}

proof fn entry_last_directory(st: ConfigView, x: Seq<char>)
    ensures
        apply_entry(st, "lastDirectory"@, x) == (ConfigView { last_directory: Some(x), ..st }),
{
    lemma_key_version();
    lemma_key_useGitIgnore();
    lemma_key_includeFileTypes();
    lemma_key_excludeFileTypes();
    lemma_key_outputFile();
    lemma_key_saveOutputFile();
    lemma_key_outputFileLocally();
    lemma_key_copyToClipboard();
    lemma_key_safeMode();
    lemma_key_storeFilesChosen();
    lemma_key_lineNumbers();
    lemma_key_showIgnoredInTree();
    lemma_key_showDefaultIgnoredInTree();
    lemma_key_previousFiles();
    lemma_key_lastDirectory();
}

#[verifier::rlimit(100)]
proof fn lemma_common(c: ConfigView, is_global: bool)
    requires
        in_range(c, is_global),
    ensures
        parse_lines(config_lines(c, is_global).subrange(0, 26)) == (ConfigView {
            version: c.version,
            use_git_ignore: c.use_git_ignore,
            include_file_types: c.include_file_types,
            exclude_file_types: c.exclude_file_types,
            output_file: c.output_file,
            save_output_file: c.save_output_file,
            output_file_locally: c.output_file_locally,
            copy_to_clipboard: c.copy_to_clipboard,
            safe_mode: c.safe_mode,
            store_files_chosen: c.store_files_chosen,
            line_numbers: c.line_numbers,
            show_ignored_in_tree: c.show_ignored_in_tree,
            show_default_ignored_in_tree: c.show_default_ignored_in_tree,
            ..default_view()
        }),
{
    let ls = config_lines(c, is_global);
    lemma_comment_0();
    lemma_comment_1();
    lemma_key_version();
    lemma_comment_2();
    lemma_key_useGitIgnore();
    lemma_comment_3();
    lemma_key_includeFileTypes();
    lemma_comment_4();
    lemma_key_excludeFileTypes();
    lemma_comment_5();
    lemma_key_outputFile();
    lemma_comment_6();
    lemma_key_saveOutputFile();
    lemma_comment_7();
    lemma_key_outputFileLocally();
    lemma_comment_8();
    lemma_key_copyToClipboard();
    lemma_comment_9();
    lemma_key_safeMode();
    lemma_comment_10();
    lemma_key_storeFilesChosen();
    lemma_comment_11();
    lemma_key_lineNumbers();
    lemma_comment_12();
    lemma_key_showIgnoredInTree();
    lemma_comment_13();
    lemma_key_showDefaultIgnoredInTree();
    lemma_decimal(c.version as nat);
    lemma_bool_value(c.use_git_ignore);
    lemma_bool_value(c.save_output_file);
    lemma_bool_value(c.output_file_locally);
    lemma_bool_value(c.copy_to_clipboard);
    lemma_bool_value(c.safe_mode);
    lemma_bool_value(c.store_files_chosen);
    lemma_bool_value(c.line_numbers);
    lemma_bool_value(c.show_ignored_in_tree);
    lemma_bool_value(c.show_default_ignored_in_tree);
    lemma_list_value(c.exclude_file_types);
    lemma_trim_trimmed(c.include_file_types);
    lemma_trim_trimmed(c.output_file);
    assert(ls.subrange(0, 0) =~= Seq::<Seq<char>>::empty());
    let ghost st = default_view();
    step_comment(ls, 0);
    assert(parse_lines(ls.subrange(0, 1)) == st);
    step_key(ls, 1, "version"@, decimal(c.version as nat));
    entry_version(st, c.version);
    let ghost st = ConfigView { version: c.version, ..st };
    assert(parse_lines(ls.subrange(0, 2)) == st);
    step_comment(ls, 2);
    assert(parse_lines(ls.subrange(0, 3)) == st);
    step_key(ls, 3, "useGitIgnore"@, bool_text(c.use_git_ignore));
    entry_use_git_ignore(st, c.use_git_ignore);
    let ghost st = ConfigView { use_git_ignore: c.use_git_ignore, ..st };
    assert(parse_lines(ls.subrange(0, 4)) == st);
    step_comment(ls, 4);
    assert(parse_lines(ls.subrange(0, 5)) == st);
    step_key(ls, 5, "includeFileTypes"@, c.include_file_types);
    entry_include_file_types(st, c.include_file_types);
    let ghost st = ConfigView { include_file_types: c.include_file_types, ..st };
    assert(parse_lines(ls.subrange(0, 6)) == st);
    step_comment(ls, 6);
    assert(parse_lines(ls.subrange(0, 7)) == st);
    step_key(ls, 7, "excludeFileTypes"@, join(c.exclude_file_types, ","@));
    entry_exclude_file_types(st, c.exclude_file_types);
    let ghost st = ConfigView { exclude_file_types: c.exclude_file_types, ..st };
    assert(parse_lines(ls.subrange(0, 8)) == st);
    step_comment(ls, 8);
    assert(parse_lines(ls.subrange(0, 9)) == st);
    step_key(ls, 9, "outputFile"@, c.output_file);
    entry_output_file(st, c.output_file);
    let ghost st = ConfigView { output_file: c.output_file, ..st };
    assert(parse_lines(ls.subrange(0, 10)) == st);
    step_comment(ls, 10);
    assert(parse_lines(ls.subrange(0, 11)) == st);
    step_key(ls, 11, "saveOutputFile"@, bool_text(c.save_output_file));
    entry_save_output_file(st, c.save_output_file);
    let ghost st = ConfigView { save_output_file: c.save_output_file, ..st };
    assert(parse_lines(ls.subrange(0, 12)) == st);
    step_comment(ls, 12);
    assert(parse_lines(ls.subrange(0, 13)) == st);
    step_key(ls, 13, "outputFileLocally"@, bool_text(c.output_file_locally));
    entry_output_file_locally(st, c.output_file_locally);
    let ghost st = ConfigView { output_file_locally: c.output_file_locally, ..st };
    assert(parse_lines(ls.subrange(0, 14)) == st);
    step_comment(ls, 14);
    assert(parse_lines(ls.subrange(0, 15)) == st);
    step_key(ls, 15, "copyToClipboard"@, bool_text(c.copy_to_clipboard));
    entry_copy_to_clipboard(st, c.copy_to_clipboard);
    let ghost st = ConfigView { copy_to_clipboard: c.copy_to_clipboard, ..st };
    assert(parse_lines(ls.subrange(0, 16)) == st);
    step_comment(ls, 16);
    assert(parse_lines(ls.subrange(0, 17)) == st);
    step_key(ls, 17, "safeMode"@, bool_text(c.safe_mode));
    entry_safe_mode(st, c.safe_mode);
    let ghost st = ConfigView { safe_mode: c.safe_mode, ..st };
    assert(parse_lines(ls.subrange(0, 18)) == st);
    step_comment(ls, 18);
    assert(parse_lines(ls.subrange(0, 19)) == st);
    step_key(ls, 19, "storeFilesChosen"@, bool_text(c.store_files_chosen));
    entry_store_files_chosen(st, c.store_files_chosen);
    let ghost st = ConfigView { store_files_chosen: c.store_files_chosen, ..st };
    assert(parse_lines(ls.subrange(0, 20)) == st);
    step_comment(ls, 20);
    assert(parse_lines(ls.subrange(0, 21)) == st);
    step_key(ls, 21, "lineNumbers"@, bool_text(c.line_numbers));
    entry_line_numbers(st, c.line_numbers);
    let ghost st = ConfigView { line_numbers: c.line_numbers, ..st };
    assert(parse_lines(ls.subrange(0, 22)) == st);
    step_comment(ls, 22);
    assert(parse_lines(ls.subrange(0, 23)) == st);
    step_key(ls, 23, "showIgnoredInTree"@, bool_text(c.show_ignored_in_tree));
    entry_show_ignored_in_tree(st, c.show_ignored_in_tree);
    let ghost st = ConfigView { show_ignored_in_tree: c.show_ignored_in_tree, ..st };
    assert(parse_lines(ls.subrange(0, 24)) == st);
    step_comment(ls, 24);
    assert(parse_lines(ls.subrange(0, 25)) == st);
    step_key(ls, 25, "showDefaultIgnoredInTree"@, bool_text(c.show_default_ignored_in_tree));
    entry_show_default_ignored_in_tree(st, c.show_default_ignored_in_tree);
    let ghost st = ConfigView { show_default_ignored_in_tree: c.show_default_ignored_in_tree, ..st };
    assert(parse_lines(ls.subrange(0, 26)) == st);
}

proof fn lemma_lines_free(c: ConfigView, is_global: bool)
    requires
        in_range(c, is_global),
    ensures
        forall|i: int|
            0 <= i < config_lines(c, is_global).len() ==> free_of(
                #[trigger] config_lines(c, is_global)[i],
                '\n',
            ),
{
    let ls = config_lines(c, is_global);
    lemma_comment_0();
    lemma_comment_1();
    lemma_key_version();
    lemma_comment_2();
    lemma_key_useGitIgnore();
    lemma_comment_3();
    lemma_key_includeFileTypes();
    lemma_comment_4();
    lemma_key_excludeFileTypes();
    lemma_comment_5();
    lemma_key_outputFile();
    lemma_comment_6();
    lemma_key_saveOutputFile();
    lemma_comment_7();
    lemma_key_outputFileLocally();
    lemma_comment_8();
    lemma_key_copyToClipboard();
    lemma_comment_9();
    lemma_key_safeMode();
    lemma_comment_10();
    lemma_key_storeFilesChosen();
    lemma_comment_11();
    lemma_key_lineNumbers();
    lemma_comment_12();
    lemma_key_showIgnoredInTree();
    lemma_comment_13();
    lemma_key_showDefaultIgnoredInTree();
    lemma_comment_14();
    lemma_comment_15();
    lemma_key_previousFiles();
    lemma_key_lastDirectory();
    lemma_decimal(c.version as nat);
    lemma_bool_value(c.use_git_ignore);
    lemma_bool_value(c.save_output_file);
    lemma_bool_value(c.output_file_locally);
    lemma_bool_value(c.copy_to_clipboard);
    lemma_bool_value(c.safe_mode);
    lemma_bool_value(c.store_files_chosen);
    lemma_bool_value(c.line_numbers);
    lemma_bool_value(c.show_ignored_in_tree);
    lemma_bool_value(c.show_default_ignored_in_tree);
    lemma_list_value(c.exclude_file_types);
    lemma_trim_trimmed(c.include_file_types);
    lemma_trim_trimmed(c.output_file);
    lemma_line_free("version"@, decimal(c.version as nat));
    lemma_line_free("useGitIgnore"@, bool_text(c.use_git_ignore));
    lemma_line_free("includeFileTypes"@, c.include_file_types);
    lemma_line_free("excludeFileTypes"@, join(c.exclude_file_types, ","@));
    lemma_line_free("outputFile"@, c.output_file);
    lemma_line_free("saveOutputFile"@, bool_text(c.save_output_file));
    lemma_line_free("outputFileLocally"@, bool_text(c.output_file_locally));
    lemma_line_free("copyToClipboard"@, bool_text(c.copy_to_clipboard));
    lemma_line_free("safeMode"@, bool_text(c.safe_mode));
    lemma_line_free("storeFilesChosen"@, bool_text(c.store_files_chosen));
    lemma_line_free("lineNumbers"@, bool_text(c.line_numbers));
    lemma_line_free("showIgnoredInTree"@, bool_text(c.show_ignored_in_tree));
    lemma_line_free("showDefaultIgnoredInTree"@, bool_text(c.show_default_ignored_in_tree));
    if !is_global {
        lemma_list_value(c.previous_files);
        lemma_line_free("previousFiles"@, join(c.previous_files, ","@));
    } else {
        match c.last_directory {
            Some(d) => {
                lemma_line_free("lastDirectory"@, d);
            },
            None => {},
        }
    }
    assert forall|i: int| 0 <= i < ls.len() implies free_of(#[trigger] ls[i], '\n') by {
        if i == 0 {
            assert(free_of(ls[0], '\n'));
        } else if i == 1 {
            assert(free_of(ls[1], '\n'));
        } else if i == 2 {
            assert(free_of(ls[2], '\n'));
        } else if i == 3 {
            assert(free_of(ls[3], '\n'));
        } else if i == 4 {
            assert(free_of(ls[4], '\n'));
        } else if i == 5 {
            assert(free_of(ls[5], '\n'));
        } else if i == 6 {
            assert(free_of(ls[6], '\n'));
        } else if i == 7 {
            assert(free_of(ls[7], '\n'));
        } else if i == 8 {
            assert(free_of(ls[8], '\n'));
        } else if i == 9 {
            assert(free_of(ls[9], '\n'));
        } else if i == 10 {
            assert(free_of(ls[10], '\n'));
        } else if i == 11 {
            assert(free_of(ls[11], '\n'));
        } else if i == 12 {
            assert(free_of(ls[12], '\n'));
        } else if i == 13 {
            assert(free_of(ls[13], '\n'));
        } else if i == 14 {
            assert(free_of(ls[14], '\n'));
        } else if i == 15 {
            assert(free_of(ls[15], '\n'));
        } else if i == 16 {
            assert(free_of(ls[16], '\n'));
        } else if i == 17 {
            assert(free_of(ls[17], '\n'));
        } else if i == 18 {
            assert(free_of(ls[18], '\n'));
        } else if i == 19 {
            assert(free_of(ls[19], '\n'));
        } else if i == 20 {
            assert(free_of(ls[20], '\n'));
        } else if i == 21 {
            assert(free_of(ls[21], '\n'));
        } else if i == 22 {
            assert(free_of(ls[22], '\n'));
        } else if i == 23 {
            assert(free_of(ls[23], '\n'));
        } else if i == 24 {
            assert(free_of(ls[24], '\n'));
        } else if i == 25 {
            assert(free_of(ls[25], '\n'));
        } else if i == 26 {
            assert(free_of(ls[26], '\n'));
        } else if i == 27 {
            assert(free_of(ls[27], '\n'));
        }
    }
}

proof fn lemma_read_lines(c: ConfigView, is_global: bool)
    requires
        in_range(c, is_global),
    ensures
        parse_text(serialize_text(c, is_global)) == parse_lines(config_lines(c, is_global)),
{
    let ls = config_lines(c, is_global);
    lemma_lines_free(c, is_global);
    lemma_split_lines(ls);
    assert(ls.push(Seq::<char>::empty()).drop_last() =~= ls);
    assert(trim(Seq::<char>::empty()) =~= Seq::<char>::empty());
}

/// Writing a record and reading the text back gives the record again, for
/// every record that the scope's file holds exactly.
pub proof fn lemma_config_round_trip(c: ConfigView, is_global: bool)
    requires
        in_range(c, is_global),
    ensures
        parse_text(serialize_text(c, is_global)) == c,
{
    let ls = config_lines(c, is_global);
    lemma_read_lines(c, is_global);
    lemma_common(c, is_global);
    let ghost st = parse_lines(ls.subrange(0, 26));
    if !is_global {
        lemma_comment_14();
        lemma_key_previousFiles();
        lemma_list_value(c.previous_files);
        step_comment(ls, 26);
        step_key(ls, 27, "previousFiles"@, join(c.previous_files, ","@));
        entry_previous_files(st, c.previous_files);
        assert(ls.subrange(0, 28) =~= ls);
        assert(parse_lines(ls) =~= c);
    } else {
        assert(c.previous_files =~= Seq::<Seq<char>>::empty());
        match c.last_directory {
            Some(d) => {
                lemma_comment_15();
                lemma_key_lastDirectory();
                lemma_trim_trimmed(d);
                step_comment(ls, 26);
                step_key(ls, 27, "lastDirectory"@, d);
                entry_last_directory(st, d);
                assert(ls.subrange(0, 28) =~= ls);
                assert(parse_lines(ls) =~= c);
            },
            None => {
                assert(ls.subrange(0, 26) =~= ls);
                assert(parse_lines(ls) =~= c);
            },
        }
    }
}

} // verus!
