//! Character-level helpers: whitespace trimming, splitting, decimal
//! formatting and ordering of names, each stated over `Seq<char>`.
use vstd::prelude::*;
use vstd::std_specs::iter::IteratorSpec;

verus! {

/// The characters for which `char::is_whitespace` holds (Unicode `White_Space`).
pub open spec fn is_ws(c: char) -> bool {
    let u = c as u32;
    (0x09 <= u && u <= 0x0D) || u == 0x20 || u == 0x85 || u == 0xA0 || u == 0x1680 || (0x2000
        <= u && u <= 0x200A) || u == 0x2028 || u == 0x2029 || u == 0x202F || u == 0x205F || u
        == 0x3000
}

pub open spec fn trim_start(s: Seq<char>) -> Seq<char>
    decreases s.len(),
{
    if s.len() > 0 && is_ws(s[0]) {
        trim_start(s.drop_first())
    } else {
        s
    }
}

pub open spec fn trim_end(s: Seq<char>) -> Seq<char>
    decreases s.len(),
{
    if s.len() > 0 && is_ws(s.last()) {
        trim_end(s.drop_last())
    } else {
        s
    }
}

/// What `str::trim` leaves of `s`.
pub open spec fn trim(s: Seq<char>) -> Seq<char> {
    trim_end(trim_start(s))
}

/// The pieces of `s` between occurrences of `sep`, as `str::split` gives them.
pub open spec fn split(s: Seq<char>, sep: char) -> Seq<Seq<char>>
    decreases s.len(),
{
    if s.len() == 0 {
        seq![Seq::<char>::empty()]
    } else {
        let rest = split(s.drop_last(), sep);
        if s.last() == sep {
            rest.push(Seq::<char>::empty())
        } else {
            rest.update(rest.len() - 1, rest.last().push(s.last()))
        }
    }
}

/// `parts` joined with `sep` between neighbours.
pub open spec fn join(parts: Seq<Seq<char>>, sep: Seq<char>) -> Seq<char>
    decreases parts.len(),
{
    if parts.len() == 0 {
        Seq::<char>::empty()
    } else if parts.len() == 1 {
        parts[0]
    } else {
        join(parts.drop_last(), sep) + sep + parts.last()
    }
}

/// Drops one trailing carriage return.
pub open spec fn strip_cr(s: Seq<char>) -> Seq<char> {
    if s.len() > 0 && s.last() == '\r' {
        s.drop_last()
    } else {
        s
    }
}

/// The lines of `s`, as `str::lines` gives them: split at line feeds, a
/// carriage return before a line feed dropped, no final empty line.
pub open spec fn lines(s: Seq<char>) -> Seq<Seq<char>> {
    let p = split(s, '\n');
    let head = p.drop_last().map_values(|l: Seq<char>| strip_cr(l));
    if p.last().len() == 0 {
        head
    } else {
        head.push(p.last())
    }
}

pub open spec fn digit(d: nat) -> char {
    if d == 0 {
        '0'
    } else if d == 1 {
        '1'
    } else if d == 2 {
        '2'
    } else if d == 3 {
        '3'
    } else if d == 4 {
        '4'
    } else if d == 5 {
        '5'
    } else if d == 6 {
        '6'
    } else if d == 7 {
        '7'
    } else if d == 8 {
        '8'
    } else {
        '9'
    }
}

/// The decimal digits of `n`, most significant first.
pub open spec fn decimal(n: nat) -> Seq<char>
    decreases n,
{
    if n < 10 {
        seq![digit(n)]
    } else {
        decimal(n / 10).push(digit(n % 10))
    }
}

/// `s` right-aligned in a field of `width` characters, padded with spaces.
pub open spec fn pad_left(s: Seq<char>, width: nat) -> Seq<char> {
    if s.len() >= width {
        s
    } else {
        Seq::new((width - s.len()) as nat, |i: int| ' ') + s
    }
}

/// Lexicographic order by code point; UTF-8 encoding keeps this order, so it
/// is the byte order in which `OsStr` compares names.
pub open spec fn name_lt(a: Seq<char>, b: Seq<char>) -> bool
    decreases a.len(),
{
    if b.len() == 0 {
        false
    } else if a.len() == 0 {
        true
    } else if (a[0] as u32) < (b[0] as u32) {
        true
    } else if a[0] == b[0] {
        name_lt(a.drop_first(), b.drop_first())
    } else {
        false
    }
}

/// Views of a vector of strings.
pub open spec fn views(v: Seq<String>) -> Seq<Seq<char>> {
    v.map_values(|s: String| s@)
}

/// The characters of `s` in order.
pub(crate) fn chars_of(s: &str) -> (r: Vec<char>)
    ensures
        r@ == s@,
{
    broadcast use vstd::string::group_string_axioms;

    let mut it = s.chars();
    let mut v: Vec<char> = Vec::new();
    loop
        invariant
            it.obeys_prophetic_iter_laws(),
            v@ + it.remaining() == s@,
        ensures
            v@ == s@,
        decreases s@.len() - v@.len(),
    {
        match it.next() {
            Some(c) => {
                v.push(c);
                assert(v@ + it.remaining() =~= s@);
            },
            None => {
                assert(v@ =~= s@);
                break;
            },
        }
    }
    v
}

/// Relies on `String: FromIterator<char>`: the string of the given characters.
#[verifier::external_body]
pub(crate) fn string_of(v: &[char]) -> (r: String)
    ensures
        r@ == v@,
{
    v.iter().collect()
}

/// `r` is `s` with each of `A`-`Z` replaced by its lowercase letter.
pub open spec fn ascii_lower(s: Seq<char>, r: Seq<char>) -> bool {
    &&& r.len() == s.len()
    &&& forall|i: int|
        0 <= i < s.len() ==> (#[trigger] r[i] as u32) as int == if 65 <= (s[i] as u32) <= 90 {
            (s[i] as u32) as int + 32
        } else {
            (s[i] as u32) as int
        }
}

/// What `str::to_lowercase` makes of a string.
pub uninterp spec fn lower_of(s: Seq<char>) -> Seq<char>;

/// Relies on `str::to_lowercase`: the result depends on the characters alone,
/// the empty string stays empty, and on ASCII text only `A`-`Z` change, each
/// to its lowercase letter.
#[verifier::external_body]
pub(crate) fn to_lowercase(s: &str) -> (r: String)
    ensures
        r@ == lower_of(s@),
        s@.len() == 0 ==> r@.len() == 0,
        (forall|i: int| 0 <= i < s@.len() ==> (#[trigger] s@[i] as u32) < 128) ==> ascii_lower(
            s@,
            r@,
        ),
{
    s.to_lowercase()
}

/// What `Path::strip_prefix` leaves of `path` below `root`, as a string.
pub uninterp spec fn strip_prefix_of(path: Seq<char>, root: Seq<char>) -> Option<Seq<char>>;

/// Relies on `Path::strip_prefix` and `Path::to_string_lossy`: the part of
/// `path` below `root`, when `root` is a leading part of it.
#[verifier::external_body]
pub(crate) fn relative_to(path: &str, root: &str) -> (r: Option<String>)
    ensures
        match r {
            Some(s) => strip_prefix_of(path@, root@) == Some(s@),
            None => strip_prefix_of(path@, root@) is None,
        },
{
    std::path::Path::new(path).strip_prefix(root).ok().map(|p| p.to_string_lossy().into_owned())
}

pub fn is_whitespace(c: char) -> (r: bool)
    ensures
        r == is_ws(c),
{
    let u = c as u32;
    (0x09 <= u && u <= 0x0D) || u == 0x20 || u == 0x85 || u == 0xA0 || u == 0x1680 || (0x2000
        <= u && u <= 0x200A) || u == 0x2028 || u == 0x2029 || u == 0x202F || u == 0x205F || u
        == 0x3000
}

proof fn lemma_trim_start_skip(s: Seq<char>, i: int)
    requires
        0 <= i < s.len(),
        is_ws(s[i]),
    ensures
        trim_start(s.subrange(i, s.len() as int)) == trim_start(s.subrange(i + 1, s.len() as int)),
{
    assert(s.subrange(i, s.len() as int).drop_first() =~= s.subrange(i + 1, s.len() as int));
}

proof fn lemma_trim_end_skip(s: Seq<char>, j: int)
    requires
        0 < j <= s.len(),
        is_ws(s[j - 1]),
    ensures
        trim_end(s.subrange(0, j)) == trim_end(s.subrange(0, j - 1)),
{
    assert(s.subrange(0, j).drop_last() =~= s.subrange(0, j - 1));
}

/// Bounds of `trim(s[lo..hi])` within `s`.
pub fn trim_range(s: &Vec<char>, lo: usize, hi: usize) -> (r: (usize, usize))
    requires
        lo <= hi <= s@.len(),
    ensures
        lo <= r.0 <= r.1 <= hi,
        s@.subrange(r.0 as int, r.1 as int) == trim(s@.subrange(lo as int, hi as int)),
{
    let ghost t = s@.subrange(lo as int, hi as int);
    let mut i = lo;
    assert(t.subrange(0, t.len() as int) =~= t);
    while i < hi && is_whitespace(s[i])
        invariant
            lo <= i <= hi <= s@.len(),
            t == s@.subrange(lo as int, hi as int),
            trim_start(t) == trim_start(t.subrange(i - lo, t.len() as int)),
        decreases hi - i,
    {
        proof {
            lemma_trim_start_skip(t, i - lo);
        }
        i = i + 1;
    }
    let ghost u = t.subrange(i - lo, t.len() as int);
    assert(u =~= s@.subrange(i as int, hi as int));
    if i < hi {
        assert(u.len() > 0 && !is_ws(u[0]));
    }
    assert(trim_start(u) == u);
    let mut j = hi;
    assert(u.subrange(0, u.len() as int) =~= u);
    while j > i && is_whitespace(s[j - 1])
        invariant
            lo <= i <= j <= hi <= s@.len(),
            u == s@.subrange(i as int, hi as int),
            trim_end(u) == trim_end(u.subrange(0, j - i)),
        decreases j,
    {
        proof {
            lemma_trim_end_skip(u, j - i);
        }
        j = j - 1;
    }
    let ghost w = u.subrange(0, j - i);
    assert(w =~= s@.subrange(i as int, j as int));
    if j > i {
        assert(w.len() > 0 && !is_ws(w.last()));
    }
    (i, j)
}

/// The characters `s[lo..hi]` as a string.
pub fn slice_string(s: &Vec<char>, lo: usize, hi: usize) -> (r: String)
    requires
        lo <= hi <= s@.len(),
    ensures
        r@ == s@.subrange(lo as int, hi as int),
{
    string_of(&s.as_slice()[lo..hi])
}

/// Whether `a[lo..hi]` equals `b`.
pub fn range_eq(a: &Vec<char>, lo: usize, hi: usize, b: &Vec<char>) -> (r: bool)
    requires
        lo <= hi <= a@.len(),
    ensures
        r == (a@.subrange(lo as int, hi as int) == b@),
{
    if hi - lo != b.len() {
        return false;
    }
    let mut k: usize = 0;
    while k < b.len()
        invariant
            lo <= hi <= a@.len(),
            hi - lo == b@.len(),
            k <= b@.len(),
            forall|m: int| 0 <= m < k ==> a@[lo + m] == b@[m],
        decreases b@.len() - k,
    {
        if a[lo + k] != b[k] {
            return false;
        }
        k = k + 1;
    }
    assert(a@.subrange(lo as int, hi as int) =~= b@);
    true
}

proof fn lemma_split_step(s: Seq<char>, i: int, sep: char)
    requires
        0 <= i < s.len(),
    ensures
        split(s.subrange(0, i + 1), sep) == (if s[i] == sep {
            split(s.subrange(0, i), sep).push(Seq::<char>::empty())
        } else {
            let r = split(s.subrange(0, i), sep);
            r.update(r.len() - 1, r.last().push(s[i]))
        }),
{
    assert(s.subrange(0, i + 1).drop_last() =~= s.subrange(0, i));
}

pub proof fn lemma_split_nonempty(s: Seq<char>, sep: char)
    ensures
        split(s, sep).len() >= 1,
    decreases s.len(),
{
    if s.len() > 0 {
        lemma_split_nonempty(s.drop_last(), sep);
    }
}

/// The bounds within `s` of the pieces of `s[lo..hi]` between occurrences of `sep`.
pub fn split_ranges(s: &Vec<char>, lo: usize, hi: usize, sep: char) -> (r: Vec<(usize, usize)>)
    requires
        lo <= hi <= s@.len(),
    ensures
        r@.len() == split(s@.subrange(lo as int, hi as int), sep).len(),
        forall|k: int|
            0 <= k < r@.len() ==> lo <= (#[trigger] r@[k]).0 <= r@[k].1 <= hi && s@.subrange(
                r@[k].0 as int,
                r@[k].1 as int,
            ) == split(s@.subrange(lo as int, hi as int), sep)[k],
{
    let ghost t = s@.subrange(lo as int, hi as int);
    let mut r: Vec<(usize, usize)> = Vec::new();
    let mut start = lo;
    let mut i = lo;
    assert(t.subrange(0, 0) =~= Seq::<char>::empty());
    assert(s@.subrange(lo as int, lo as int) =~= Seq::<char>::empty());
    while i < hi
        invariant
            lo <= start <= i <= hi <= s@.len(),
            t == s@.subrange(lo as int, hi as int),
            split(t.subrange(0, i - lo), sep).len() == r@.len() + 1,
            split(t.subrange(0, i - lo), sep).last() == s@.subrange(start as int, i as int),
            forall|k: int|
                0 <= k < r@.len() ==> lo <= (#[trigger] r@[k]).0 <= r@[k].1 <= hi
                    && s@.subrange(r@[k].0 as int, r@[k].1 as int) == split(
                    t.subrange(0, i - lo),
                    sep,
                )[k],
        decreases hi - i,
    {
        proof {
            lemma_split_step(t, i - lo, sep);
            assert(t[i - lo] == s@[i as int]);
        }
        let ghost before = split(t.subrange(0, i - lo), sep);
        if s[i] == sep {
            r.push((start, i));
            start = i + 1;
            assert(s@.subrange(start as int, i + 1) =~= Seq::<char>::empty());
        } else {
            assert(s@.subrange(start as int, i + 1) =~= s@.subrange(start as int, i as int).push(
                s@[i as int],
            ));
        }
        i = i + 1;
    }
    r.push((start, hi));
    assert(t.subrange(0, hi - lo) =~= t);
    r
}

/// Appends the characters of `s` to `out`.
pub fn push_str(out: &mut Vec<char>, s: &str)
    ensures
        final(out)@ == old(out)@ + s@,
{
    let mut v = chars_of(s);
    out.append(&mut v);
}

/// Appends the decimal digits of `n` to `out`.
pub fn push_decimal(out: &mut Vec<char>, n: usize)
    ensures
        final(out)@ == old(out)@ + decimal(n as nat),
    decreases n,
{
    if n >= 10 {
        push_decimal(out, n / 10);
    }
    let d = n % 10;
    let c = if d == 0 {
        '0'
    } else if d == 1 {
        '1'
    } else if d == 2 {
        '2'
    } else if d == 3 {
        '3'
    } else if d == 4 {
        '4'
    } else if d == 5 {
        '5'
    } else if d == 6 {
        '6'
    } else if d == 7 {
        '7'
    } else if d == 8 {
        '8'
    } else {
        '9'
    };
    out.push(c);
    proof {
        if n < 10 {
            assert(n as nat % 10 == n as nat);
        }
    }
    assert(final(out)@ =~= old(out)@ + decimal(n as nat));
}

/// Whether `a` comes before `b` in code-point order.
pub fn name_less(a: &Vec<char>, b: &Vec<char>) -> (r: bool)
    ensures
        r == name_lt(a@, b@),
{
    let mut k: usize = 0;
    assert(a@.subrange(0, a@.len() as int) =~= a@);
    assert(b@.subrange(0, b@.len() as int) =~= b@);
    while k < a.len() && k < b.len() && a[k] == b[k]
        invariant
            k <= a@.len(),
            k <= b@.len(),
            name_lt(a@, b@) == name_lt(
                a@.subrange(k as int, a@.len() as int),
                b@.subrange(k as int, b@.len() as int),
            ),
        decreases a@.len() - k,
    {
        let ghost sa = a@.subrange(k as int, a@.len() as int);
        let ghost sb = b@.subrange(k as int, b@.len() as int);
        assert(sa.drop_first() =~= a@.subrange(k + 1, a@.len() as int));
        assert(sb.drop_first() =~= b@.subrange(k + 1, b@.len() as int));
        k = k + 1;
    }
    let ghost sa = a@.subrange(k as int, a@.len() as int);
    let ghost sb = b@.subrange(k as int, b@.len() as int);
    assert(sb.len() > 0 ==> sb[0] == b@[k as int]);
    assert(sa.len() > 0 ==> sa[0] == a@[k as int]);
    if k == b.len() {
        false
    } else if k == a.len() {
        true
    } else {
        (a[k] as u32) < (b[k] as u32)
    }
}

} // verus!
