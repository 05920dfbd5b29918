//! Assembling the output: the tree header, the selected files with optional
//! line numbers, per-file token estimates, and the safe-mode limits.
use crate::filter::{join_path, TreeFilter};
use crate::models::{
    AppError, Config, FileDetail, FsEntry, OutputContent, SAFE_MODE_MAX_FILES, SAFE_MODE_MAX_LENGTH,
};
use crate::text::{
    chars_of, decimal, join, lines, pad_left, push_decimal, push_str, relative_to, split,
    split_ranges, string_of, strip_cr, strip_prefix_of, views,
};
use crate::tree::{flat_rows, generate_tree_structure, rows_text};
use vstd::prelude::*;
use vstd::string::StringSliceAdditionalSpecFns;
use vstd::utf8::encode_utf8;

verus! {

/// `content` with each line prefixed by its number, right-aligned to the
/// width of the largest number, and ` | `.
pub open spec fn numbered(content: Seq<char>) -> Seq<char> {
    let ls = lines(content);
    let w = decimal(ls.len()).len();
    join(
        Seq::new(ls.len(), |i: int| pad_left(decimal((i + 1) as nat), w) + " | "@ + ls[i]),
        seq!['\n'],
    )
}

/// A text of 10 to 99 lines is numbered in two columns: line `i` becomes
/// its number right-aligned in two characters, ` | `, and the line.
pub proof fn lemma_two_column_numbers(content: Seq<char>)
    requires
        10 <= lines(content).len() <= 99,
    ensures
        numbered(content) == join(
            Seq::new(
                lines(content).len(),
                |i: int| pad_left(decimal((i + 1) as nat), 2) + " | "@ + lines(content)[i],
            ),
            seq!['\n'],
        ),
{
    let n = lines(content).len();
    assert(n / 10 < 10);
    assert(decimal(n / 10).len() == 1);
    assert(decimal(n).len() == 2);
    let ls = lines(content);
    assert(Seq::new(ls.len(), |i: int| pad_left(decimal((i + 1) as nat), decimal(ls.len()).len()) + " | "@ + ls[i])
        =~= Seq::new(ls.len(), |i: int| pad_left(decimal((i + 1) as nat), 2) + " | "@ + ls[i]));
}

/// Rough token count of a text: one token per four bytes.
pub fn estimate_tokens(text: &str) -> (r: usize)
    ensures
        r == text.len() / 4,
{
    text.len() / 4
}

pub open spec fn tokens_of(s: Seq<char>) -> usize {
    (encode_utf8(s).len() as usize) / 4
}

/// Appends `n` right-aligned in a field of `w` characters.
fn push_padded(out: &mut Vec<char>, n: usize, w: usize)
    ensures
        final(out)@ == old(out)@ + pad_left(decimal(n as nat), w as nat),
{
    let mut num: Vec<char> = Vec::new();
    push_decimal(&mut num, n);
    let ghost o = out@;
    if num.len() < w {
        let pad = w - num.len();
        let mut q: usize = 0;
        while q < pad
            invariant
                q <= pad,
                out@ == o + Seq::new(q as nat, |i: int| ' '),
            decreases pad - q,
        {
            out.push(' ');
            assert(out@ =~= o + Seq::new((q + 1) as nat, |i: int| ' '));
            q = q + 1;
        }
    }
    out.append(&mut num);
    assert(out@ =~= o + pad_left(decimal(n as nat), w as nat));
}

/// Appends `s[a..b]`.
fn push_range(out: &mut Vec<char>, s: &Vec<char>, a: usize, b: usize)
    requires
        a <= b <= s@.len(),
    ensures
        final(out)@ == old(out)@ + s@.subrange(a as int, b as int),
{
    let ghost o3 = out@;
    let mut i = a;
    while i < b
        invariant
            a <= i <= b <= s@.len(),
            out@ == o3 + s@.subrange(a as int, i as int),
        decreases b - i,
    {
        out.push(s[i]);
        assert(out@ =~= o3 + s@.subrange(a as int, i + 1));
        i = i + 1;
    }
}

/// Prefixes each line of `content` with its number, padded to the width of
/// the largest line number, and ` | `; no lines give the empty string.
#[verifier::rlimit(60)]
pub fn add_line_numbers(content: &str) -> (r: String)
    ensures
        r@ == numbered(content@),
{
    let s = chars_of(content);
    let pieces = split_ranges(&s, 0, s.len(), '\n');
    let ghost p = split(s@, '\n');
    let ghost ls = lines(content@);
    assert(s@.subrange(0, s@.len() as int) =~= s@);
    proof {
        crate::text::lemma_split_nonempty(s@, '\n');
    }
    let m = pieces.len();
    let (la, lb) = pieces[m - 1];
    let n = if la == lb {
        m - 1
    } else {
        m
    };
    assert(ls.len() == n);
    let mut wv: Vec<char> = Vec::new();
    push_decimal(&mut wv, n);
    let w = wv.len();
    let ghost body = Seq::new(
        ls.len(),
        |i: int| pad_left(decimal((i + 1) as nat), w as nat) + " | "@ + ls[i],
    );
    let mut out: Vec<char> = Vec::new();
    let mut k: usize = 0;
    while k < n
        invariant
            k <= n <= m == pieces@.len() == p.len(),
            n == ls.len(),
            p == split(s@, '\n'),
            s@ == content@,
            ls == lines(content@),
            w == decimal(n as nat).len(),
            body == Seq::new(
                ls.len(),
                |i: int| pad_left(decimal((i + 1) as nat), w as nat) + " | "@ + ls[i],
            ),
            forall|q: int|
                0 <= q < pieces@.len() ==> (#[trigger] pieces@[q]).0 <= pieces@[q].1 <= s@.len()
                    && s@.subrange(pieces@[q].0 as int, pieces@[q].1 as int) == p[q],
            out@ == join(body.subrange(0, k as int), seq!['\n']),
        decreases n - k,
    {
        if k > 0 {
            out.push('\n');
        }
        push_padded(&mut out, k + 1, w);
        push_str(&mut out, " | ");
        let (a, b0) = pieces[k];
        let b = if k + 1 < m && b0 > a && s[b0 - 1] == '\r' {
            b0 - 1
        } else {
            b0
        };
        proof {
            if k + 1 < m {
                assert(ls[k as int] == strip_cr(p[k as int]));
                if b0 > a && s@[b0 - 1] == '\r' {
                    assert(s@.subrange(a as int, b as int) =~= p[k as int].drop_last());
                }
            } else {
                assert(ls[k as int] == p.last());
            }
            assert(s@.subrange(a as int, b as int) == ls[k as int]);
        }
        push_range(&mut out, &s, a, b);
        proof {
            let item = pad_left(decimal((k + 1) as nat), w as nat) + " | "@ + ls[k as int];
            assert(body[k as int] == item);
            assert(body.subrange(0, k + 1).drop_last() =~= body.subrange(0, k as int));
            if k == 0 {
                assert(body.subrange(0, 1) =~= seq![item]);
                assert(out@ =~= join(body.subrange(0, k + 1), seq!['\n']));
            } else {
                assert(join(body.subrange(0, k + 1), seq!['\n']) == join(
                    body.subrange(0, k as int),
                    seq!['\n'],
                ) + seq!['\n'] + item);
                assert(out@ =~= join(body.subrange(0, k + 1), seq!['\n']));
            }
        }
        k = k + 1;
    }
    assert(body.subrange(0, n as int) =~= body);
    string_of(out.as_slice())
}

/// The sum of the sizes that could be read.
pub open spec fn known_total(sizes: Seq<Option<u64>>) -> nat
    decreases sizes.len(),
{
    if sizes.len() == 0 {
        0
    } else {
        known_total(sizes.drop_last()) + match sizes.last() {
            Some(n) => n as nat,
            None => 0,
        }
    }
}

pub open spec fn too_many_message(n: nat) -> Seq<char> {
    "Safe mode: Too many files selected ("@ + decimal(n) + " > "@ + decimal(
        SAFE_MODE_MAX_FILES as nat,
    ) + ")"@
}

pub open spec fn too_large_message() -> Seq<char> {
    "Safe mode: Combined file size too large (> "@ + decimal(SAFE_MODE_MAX_LENGTH as nat)
        + " bytes)"@
}

/// The safe-mode limits on a selection of `count` files whose sizes, where
/// they could be read, are `sizes`: too many files, or too many bytes in all.
pub fn check_safe_mode(count: usize, sizes: &Vec<Option<u64>>) -> (r: Result<(), AppError>)
    ensures
        count > SAFE_MODE_MAX_FILES ==> (r matches Err(AppError::SafeMode(m)) && m@
            == too_many_message(count as nat)),
        count <= SAFE_MODE_MAX_FILES && known_total(sizes@) > SAFE_MODE_MAX_LENGTH ==> (
        r matches Err(AppError::SafeMode(m)) && m@ == too_large_message()),
        count <= SAFE_MODE_MAX_FILES && known_total(sizes@) <= SAFE_MODE_MAX_LENGTH ==> r is Ok,
{
    if count > SAFE_MODE_MAX_FILES {
        let mut m = chars_of("Safe mode: Too many files selected (");
        push_decimal(&mut m, count);
        push_str(&mut m, " > ");
        push_decimal(&mut m, SAFE_MODE_MAX_FILES);
        push_str(&mut m, ")");
        return Err(AppError::SafeMode(string_of(m.as_slice())));
    }
    let mut total: u64 = 0;
    let mut k: usize = 0;
    while k < sizes.len()
        invariant
            k <= sizes@.len(),
            total == known_total(sizes@.subrange(0, k as int)),
            total <= SAFE_MODE_MAX_LENGTH,
            count <= SAFE_MODE_MAX_FILES,
        decreases sizes@.len() - k,
    {
        assert(sizes@.subrange(0, k + 1).drop_last() =~= sizes@.subrange(0, k as int));
        match sizes[k] {
            Some(n) => {
                if n > SAFE_MODE_MAX_LENGTH as u64 - total {
                    proof {
                        lemma_known_total_grows(sizes@, k + 1);
                    }
                    let mut m = chars_of("Safe mode: Combined file size too large (> ");
                    push_decimal(&mut m, SAFE_MODE_MAX_LENGTH);
                    push_str(&mut m, " bytes)");
                    return Err(AppError::SafeMode(string_of(m.as_slice())));
                }
                total = total + n;
            },
            None => {},
        }
        k = k + 1;
    }
    assert(sizes@.subrange(0, k as int) =~= sizes@);
    Ok(())
}

proof fn lemma_known_total_grows(sizes: Seq<Option<u64>>, j: int)
    requires
        0 <= j <= sizes.len(),
    ensures
        known_total(sizes) >= known_total(sizes.subrange(0, j)),
    decreases sizes.len() - j,
{
    if j < sizes.len() {
        lemma_known_total_grows(sizes, j + 1);
        assert(sizes.subrange(0, j + 1).drop_last() =~= sizes.subrange(0, j));
    } else {
        assert(sizes.subrange(0, j) =~= sizes);
    }
}

/// The path shown for a selected file: relative to the root where it lies
/// under it, else as given.
pub open spec fn shown_path(path: Seq<char>, root: Seq<char>) -> Seq<char> {
    match strip_prefix_of(path, root) {
        Some(r) => r,
        None => path,
    }
}

/// What a file contributes once read: its text, numbered when asked.
pub open spec fn processed(content: Seq<char>, line_numbers: bool) -> Seq<char> {
    if line_numbers {
        numbered(content)
    } else {
        content
    }
}

/// The parts, header and content, of the files that could be read, in order.
pub open spec fn file_parts(
    paths: Seq<Seq<char>>,
    contents: Seq<Option<Seq<char>>>,
    root: Seq<char>,
    line_numbers: bool,
) -> Seq<Seq<char>>
    decreases paths.len(),
{
    if paths.len() == 0 || contents.len() != paths.len() {
        Seq::<Seq<char>>::empty()
    } else {
        let r = file_parts(paths.drop_last(), contents.drop_last(), root, line_numbers);
        match contents.last() {
            Some(c) => r.push("\n# File: "@ + shown_path(paths.last(), root) + "\n"@).push(
                processed(c, line_numbers),
            ),
            None => r,
        }
    }
}

/// The path and token estimate of each file that could be read, in order.
pub open spec fn file_tokens(
    paths: Seq<Seq<char>>,
    contents: Seq<Option<Seq<char>>>,
    root: Seq<char>,
    line_numbers: bool,
) -> Seq<(Seq<char>, usize)>
    decreases paths.len(),
{
    if paths.len() == 0 || contents.len() != paths.len() {
        Seq::<(Seq<char>, usize)>::empty()
    } else {
        let r = file_tokens(paths.drop_last(), contents.drop_last(), root, line_numbers);
        match contents.last() {
            Some(c) => r.push(
                (shown_path(paths.last(), root), tokens_of(processed(c, line_numbers))),
            ),
            None => r,
        }
    }
}

/// The sum of the estimates, held at `usize::MAX` should it ever pass it.
pub open spec fn token_sum(ts: Seq<(Seq<char>, usize)>) -> nat
    decreases ts.len(),
{
    if ts.len() == 0 {
        0
    } else {
        let s = token_sum(ts.drop_last()) + ts.last().1;
        if s > usize::MAX {
            usize::MAX as nat
        } else {
            s as nat
        }
    }
}

pub open spec fn detail_views(ds: Seq<FileDetail>) -> Seq<(Seq<char>, usize)> {
    ds.map_values(|d: FileDetail| (d.path@, d.tokens))
}

pub open spec fn opt_views(v: Seq<Option<String>>) -> Seq<Option<Seq<char>>> {
    v.map_values(
        |o: Option<String>|
            match o {
                Some(s) => Some(s@),
                None => None,
            },
    )
}

/// The whole output text: the tree under its header, the start marker, then
/// each file's header and content, one part per line.
pub open spec fn combined_text(tree_text: Seq<char>, parts: Seq<Seq<char>>) -> Seq<char> {
    join(
        seq!["# Project Directory Structure:"@, tree_text, "\n# BEGIN FILE CONTENTS"@] + parts,
        seq!['\n'],
    )
}

/// Appends `'\n'` and `part` to `out`.
fn push_part(out: &mut Vec<char>, part: &Vec<char>)
    ensures
        final(out)@ == old(out)@.push('\n') + part@,
{
    out.push('\n');
    let ghost o = out@;
    let mut i: usize = 0;
    while i < part.len()
        invariant
            i <= part@.len(),
            out@ == o + part@.subrange(0, i as int),
        decreases part@.len() - i,
    {
        out.push(part[i]);
        assert(out@ =~= o + part@.subrange(0, i + 1));
        i = i + 1;
    }
    assert(part@.subrange(0, i as int) =~= part@);
}

/// The output for the `selected_files` of the project at `root_dir`, whose
/// snapshot is `root` (already marked by the ignore patterns): the text tree
/// under the configured filters, then each selected file that could be read
/// (`contents`, in selection order), with its token estimate. In safe mode
/// too many files, or too many bytes by `sizes`, fail the whole call.
pub fn combine_files_with_structure(
    root_dir: &str,
    root: &FsEntry,
    config: &Config,
    selected_files: &Vec<String>,
    current_excluded_dirs: &Vec<String>,
    sizes: &Vec<Option<u64>>,
    contents: &Vec<Option<String>>,
) -> (r: Result<OutputContent, AppError>)
    requires
        contents@.len() == selected_files@.len(),
    ensures
        config.safe_mode && (selected_files@.len() > SAFE_MODE_MAX_FILES || known_total(sizes@)
            > SAFE_MODE_MAX_LENGTH) ==> r matches Err(AppError::SafeMode(_)),
        !(config.safe_mode && (selected_files@.len() > SAFE_MODE_MAX_FILES || known_total(sizes@)
            > SAFE_MODE_MAX_LENGTH)) ==> r is Ok,
        r matches Ok(o) ==> {
            let paths = views(selected_files@);
            let cs = opt_views(contents@);
            &&& exists|f: TreeFilter|
                TreeFilter::spec_new(
                    config.show_ignored_in_tree,
                    config.show_default_ignored_in_tree,
                    config.include_file_types@,
                    views(config.exclude_file_types@),
                    views(current_excluded_dirs@),
                    f,
                ) && o.tree_structure@ == seq!['.'] + rows_text(flat_rows(f, *root, root_dir@))
            &&& o.combined_content@ == combined_text(
                o.tree_structure@,
                file_parts(paths, cs, root_dir@, config.line_numbers),
            )
            &&& detail_views(o.file_details@) == file_tokens(
                paths,
                cs,
                root_dir@,
                config.line_numbers,
            )
            &&& o.token_estimate == token_sum(
                file_tokens(paths, cs, root_dir@, config.line_numbers),
            )
            &&& o.saved_path is None
        },
{
    let filter = TreeFilter::new(
        config.show_ignored_in_tree,
        config.show_default_ignored_in_tree,
        config.include_file_types.as_str(),
        &config.exclude_file_types,
        current_excluded_dirs,
    );
    let tree = generate_tree_structure(root_dir, root, &filter);
    if config.safe_mode {
        match check_safe_mode(selected_files.len(), sizes) {
            Ok(()) => {},
            Err(e) => {
                return Err(e);
            },
        }
    }
    let ghost paths = views(selected_files@);
    let ghost cs = opt_views(contents@);
    let ghost ln = config.line_numbers;
    let mut out = chars_of("# Project Directory Structure:");
    push_part(&mut out, &chars_of(tree.tree_text.as_str()));
    push_part(&mut out, &chars_of("\n# BEGIN FILE CONTENTS"));
    let ghost head = seq!["# Project Directory Structure:"@, tree.tree_text@, "\n# BEGIN FILE CONTENTS"@];
    assert(head.drop_last().drop_last() =~= seq!["# Project Directory Structure:"@]);
    assert(head.drop_last() =~= seq!["# Project Directory Structure:"@, tree.tree_text@]);
    assert(join(head.drop_last().drop_last(), seq!['\n']) == "# Project Directory Structure:"@);
    assert(join(head.drop_last(), seq!['\n']) == "# Project Directory Structure:"@ + seq!['\n']
        + tree.tree_text@);
    assert(join(head, seq!['\n']) == join(head.drop_last(), seq!['\n']) + seq!['\n']
        + "\n# BEGIN FILE CONTENTS"@);
    assert(out@ =~= join(head, seq!['\n']));
    let mut details: Vec<FileDetail> = Vec::new();
    let mut total: usize = 0;
    let mut k: usize = 0;
    while k < selected_files.len()
        invariant
            k <= selected_files@.len() == contents@.len(),
            paths == views(selected_files@),
            cs == opt_views(contents@),
            ln == config.line_numbers,
            head.len() == 3,
            out@ == join(
                head + file_parts(
                    paths.subrange(0, k as int),
                    cs.subrange(0, k as int),
                    root_dir@,
                    ln,
                ),
                seq!['\n'],
            ),
            detail_views(details@) == file_tokens(
                paths.subrange(0, k as int),
                cs.subrange(0, k as int),
                root_dir@,
                ln,
            ),
            total == token_sum(
                file_tokens(paths.subrange(0, k as int), cs.subrange(0, k as int), root_dir@, ln),
            ),
        decreases selected_files@.len() - k,
    {
        let ghost ps = paths.subrange(0, k + 1);
        let ghost css = cs.subrange(0, k + 1);
        assert(ps.drop_last() =~= paths.subrange(0, k as int));
        assert(css.drop_last() =~= cs.subrange(0, k as int));
        assert(ps.last() == selected_files@[k as int]@);
        let ghost prev = head + file_parts(
            paths.subrange(0, k as int),
            cs.subrange(0, k as int),
            root_dir@,
            ln,
        );
        match &contents[k] {
            Some(c) => {
                assert(css.last() == Some(c@));
                let text = if config.line_numbers {
                    add_line_numbers(c.as_str())
                } else {
                    c.clone()
                };
                let rel = match relative_to(selected_files[k].as_str(), root_dir) {
                    Some(p) => p,
                    None => selected_files[k].clone(),
                };
                let mut h = chars_of("\n# File: ");
                push_str(&mut h, rel.as_str());
                push_str(&mut h, "\n");
                push_part(&mut out, &h);
                push_part(&mut out, &chars_of(text.as_str()));
                let tokens = estimate_tokens(text.as_str());
                let ghost hv = h@;
                assert(text@ == processed(c@, ln));
                assert(tokens == tokens_of(text@));
                proof {
                    assert(prev.len() >= 3);
                    assert((prev.push(hv).push(text@)).drop_last() =~= prev.push(hv));
                    assert((prev.push(hv)).drop_last() =~= prev);
                    assert(join(prev.push(hv), seq!['\n']) == join(prev, seq!['\n']) + seq!['\n']
                        + hv);
                    assert(join(prev.push(hv).push(text@), seq!['\n']) == join(
                        prev.push(hv),
                        seq!['\n'],
                    ) + seq!['\n'] + text@);
                    assert(out@ =~= join(prev.push(hv).push(text@), seq!['\n']));
                    assert(head + file_parts(ps, css, root_dir@, ln) =~= prev.push(hv).push(
                        text@,
                    ));
                }
                details.push(FileDetail { path: rel, tokens });
                assert(detail_views(details@) =~= file_tokens(ps, css, root_dir@, ln));
                let ghost tprev = file_tokens(
                    paths.subrange(0, k as int),
                    cs.subrange(0, k as int),
                    root_dir@,
                    ln,
                );
                assert(file_tokens(ps, css, root_dir@, ln) == tprev.push((rel@, tokens)));
                assert(file_tokens(ps, css, root_dir@, ln).drop_last() =~= tprev);
                total = total.saturating_add(tokens);
            },
            None => {
                assert(css.last() is None);
                assert(head + file_parts(ps, css, root_dir@, ln) =~= prev);
            },
        }
        k = k + 1;
    }
    assert(paths.subrange(0, k as int) =~= paths);
    assert(cs.subrange(0, k as int) =~= cs);
    Ok(
        OutputContent {
            tree_structure: tree.tree_text,
            combined_content: string_of(out.as_slice()),
            file_details: details,
            token_estimate: total,
            saved_path: None,
        },
    )
}

/// What `Path::join` makes of `base` and `name` on Unix: `name` itself when
/// it is absolute, else the two with a separator between them where `base`
/// lacks one.
pub open spec fn path_join_of(base: Seq<char>, name: Seq<char>) -> Seq<char> {
    if name.len() > 0 && name[0] == '/' {
        name
    } else {
        join_path(base, name)
    }
}

/// Relies on `Path::join` and `Path::to_string_lossy`: `name` placed under `base`
/// (or `name` itself, when it is absolute); both are valid UTF-8, so nothing
/// is lost in the conversion.
#[verifier::external_body]
fn path_join(base: &str, name: &str) -> (r: String)
    ensures
        r@ == path_join_of(base@, name@),
{
    std::path::Path::new(base).join(name).to_string_lossy().into_owned()
}

/// Where the output is written, if saving is on: under the project, or under
/// the documents directory when one is known and the output is not kept
/// with the project.
pub fn output_file_path(config: &Config, root_dir: &str, document_dir: Option<&str>) -> (r: Option<
    String,
>)
    ensures
        !config.save_output_file ==> r is None,
        config.save_output_file ==> r is Some && r->0@ == path_join_of(
            match (config.output_file_locally, document_dir) {
                (false, Some(d)) => d@,
                _ => root_dir@,
            },
            config.output_file@,
        ),
{
    if !config.save_output_file {
        return None;
    }
    if config.output_file_locally {
        Some(path_join(root_dir, config.output_file.as_str()))
    } else {
        match document_dir {
            Some(d) => Some(path_join(d, config.output_file.as_str())),
            None => Some(path_join(root_dir, config.output_file.as_str())),
        }
    }
}

} // verus!
