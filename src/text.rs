//! Character-level helpers on source text: searching, splitting and trimming.
use vstd::prelude::*;

verus! {

/// Whitespace in the sense of `u8::is_ascii_whitespace`.
pub open spec fn is_ascii_space(c: char) -> bool {
    c == ' ' || c == '\t' || c == '\n' || c == '\x0C' || c == '\r'
}

/// Whitespace in the sense of `char::is_whitespace` (the Unicode White_Space property).
pub open spec fn is_unicode_space(c: char) -> bool {
    ('\t' <= c && c <= '\r') || c == ' ' || c == '\u{85}' || c == '\u{A0}' || c == '\u{1680}'
        || ('\u{2000}' <= c && c <= '\u{200A}') || c == '\u{2028}' || c == '\u{2029}'
        || c == '\u{202F}' || c == '\u{205F}' || c == '\u{3000}'
}

/// Whitespace of either kind: Unicode when `wide`, ASCII otherwise.
pub open spec fn is_space(c: char, wide: bool) -> bool {
    if wide {
        is_unicode_space(c)
    } else {
        is_ascii_space(c)
    }
}

/// `s` without its leading whitespace.
pub open spec fn trim_start(s: Seq<char>, wide: bool) -> Seq<char>
    decreases s.len(),
{
    if s.len() > 0 && is_space(s[0], wide) {
        trim_start(s.drop_first(), wide)
    } else {
        s
    }
}

/// `s` without its trailing whitespace.
pub open spec fn trim_end(s: Seq<char>, wide: bool) -> Seq<char>
    decreases s.len(),
{
    if s.len() > 0 && is_space(s.last(), wide) {
        trim_end(s.drop_last(), wide)
    } else {
        s
    }
}

/// `s` without whitespace at either end.
pub open spec fn trim(s: Seq<char>, wide: bool) -> Seq<char> {
    trim_end(trim_start(s, wide), wide)
}

/// `i` is the position of the first `c` in `s`.
pub open spec fn is_first(s: Seq<char>, c: char, i: int) -> bool {
    0 <= i < s.len() && s[i] == c && forall|j: int| 0 <= j < i ==> s[j] != c
}

/// Position of the first `c` in `s`, if any.
pub open spec fn first_of(s: Seq<char>, c: char) -> Option<int> {
    if exists|i: int| is_first(s, c, i) {
        Some(choose|i: int| is_first(s, c, i))
    } else {
        None
    }
}

/// The pieces of `s` between occurrences of `c`, as `str::split` yields them.
pub open spec fn split_all(s: Seq<char>, c: char) -> Seq<Seq<char>>
    decreases s.len(),
{
    match first_of(s, c) {
        Some(i) => if 0 <= i < s.len() {
            seq![s.subrange(0, i)] + split_all(s.subrange(i + 1, s.len() as int), c)
        } else {
            seq![s]
        },
        None => seq![s],
    }
}

/// There is at most one first position of a character.
pub proof fn lemma_first_unique(s: Seq<char>, c: char, i: int, j: int)
    requires
        is_first(s, c, i),
        is_first(s, c, j),
    ensures
        i == j,
{
    if i < j {
        assert(s[i] != c);
    } else if j < i {
        assert(s[j] != c);
    }
}

/// `first_of` names the first position when there is one.
pub proof fn lemma_first_of(s: Seq<char>, c: char, i: int)
    requires
        is_first(s, c, i),
    ensures
        first_of(s, c) == Some(i),
{
    let k = choose|k: int| is_first(s, c, k);
    lemma_first_unique(s, c, i, k);
}

/// The characters of `s`, one per element.
pub fn chars_of(s: &str) -> (r: Vec<char>)
    ensures
        r@ == s@,
{
    let mut r: Vec<char> = Vec::new();
    for c in it: s.chars()
        invariant
            it.seq() == s@,
            r@ == it.seq().subrange(0, it.index() as int),
    {
        r.push(c);
    }
    r
}

/// Position of the first `c` in `v[from..to]`, counted from `from`.
pub fn find_char(v: &Vec<char>, from: usize, to: usize, c: char) -> (r: Option<usize>)
    requires
        from <= to <= v@.len(),
    ensures
        match r {
            Some(i) => first_of(v@.subrange(from as int, to as int), c) == Some(i as int),
            None => first_of(v@.subrange(from as int, to as int), c) is None,
        },
{
    let ghost s = v@.subrange(from as int, to as int);
    let mut i: usize = from;
    while i < to
        invariant
            from <= i <= to <= v@.len(),
            s == v@.subrange(from as int, to as int),
            forall|j: int| 0 <= j < i - from ==> s[j] != c,
        decreases to - i,
    {
        if v[i] == c {
            proof {
                lemma_first_of(s, c, i - from);
            }
            return Some(i - from);
        }
        i = i + 1;
    }
    assert(!exists|k: int| is_first(s, c, k));
    None
}

/// True when `v[from..to]` holds exactly the characters of `lit`.
pub fn same_chars(v: &Vec<char>, from: usize, to: usize, lit: &str) -> (r: bool)
    requires
        from <= to <= v@.len(),
    ensures
        r == (v@.subrange(from as int, to as int) == lit@),
{
    let n = lit.unicode_len();
    if to - from != n {
        return false;
    }
    let mut i: usize = 0;
    while i < n
        invariant
            to - from == n == lit@.len(),
            from <= to <= v@.len(),
            i <= n,
            forall|j: int| 0 <= j < i ==> v@[from + j] == lit@[j],
        decreases n - i,
    {
        if v[from + i] != lit.get_char(i) {
            assert(v@.subrange(from as int, to as int)[i as int] != lit@[i as int]);
            return false;
        }
        i = i + 1;
    }
    assert(v@.subrange(from as int, to as int) =~= lit@);
    true
}

proof fn lemma_trim_start_step(v: Seq<char>, i: int, to: int, wide: bool)
    requires
        0 <= i < to <= v.len(),
        is_space(v[i], wide),
    ensures
        trim_start(v.subrange(i, to), wide) == trim_start(v.subrange(i + 1, to), wide),
{
    assert(v.subrange(i, to).drop_first() =~= v.subrange(i + 1, to));
}

proof fn lemma_trim_end_step(v: Seq<char>, from: int, j: int, wide: bool)
    requires
        0 <= from < j <= v.len(),
        is_space(v[j - 1], wide),
    ensures
        trim_end(v.subrange(from, j), wide) == trim_end(v.subrange(from, j - 1), wide),
{
    assert(v.subrange(from, j).drop_last() =~= v.subrange(from, j - 1));
}

/// Bounds of `v[from..to]` without whitespace at either end.
pub fn trim_bounds(v: &Vec<char>, from: usize, to: usize, wide: bool) -> (r: (usize, usize))
    requires
        from <= to <= v@.len(),
    ensures
        from <= r.0 <= r.1 <= to,
        v@.subrange(r.0 as int, r.1 as int) == trim(v@.subrange(from as int, to as int), wide),
{
    let mut i: usize = from;
    while i < to && space_char(v[i], wide)
        invariant
            from <= i <= to <= v@.len(),
            trim_start(v@.subrange(from as int, to as int), wide) == trim_start(
                v@.subrange(i as int, to as int),
                wide,
            ),
        decreases to - i,
    {
        proof {
            lemma_trim_start_step(v@, i as int, to as int, wide);
        }
        i = i + 1;
    }
    let ghost start = v@.subrange(i as int, to as int);
    assert(trim_start(start, wide) == start);
    let mut j: usize = to;
    while j > i && space_char(v[j - 1], wide)
        invariant
            from <= i <= j <= to <= v@.len(),
            trim_end(start, wide) == trim_end(v@.subrange(i as int, j as int), wide),
        decreases j,
    {
        proof {
            lemma_trim_end_step(v@, i as int, j as int, wide);
        }
        j = j - 1;
    }
    (i, j)
}

/// Whether `c` is whitespace of the chosen kind.
pub fn space_char(c: char, wide: bool) -> (r: bool)
    ensures
        r == is_space(c, wide),
{
    if wide {
        ('\t' <= c && c <= '\r') || c == ' ' || c == '\u{85}' || c == '\u{A0}' || c == '\u{1680}'
            || ('\u{2000}' <= c && c <= '\u{200A}') || c == '\u{2028}' || c == '\u{2029}'
            || c == '\u{202F}' || c == '\u{205F}' || c == '\u{3000}'
    } else {
        c == ' ' || c == '\t' || c == '\n' || c == '\x0C' || c == '\r'
    }
}


/// A text that does not start with the separator has a non-empty first piece that
/// starts with the text's first character.
pub proof fn lemma_split_first(s: Seq<char>, c: char)
    requires
        s.len() > 0,
        s[0] != c,
    ensures
        split_all(s, c).len() >= 1,
        split_all(s, c)[0].len() >= 1,
        split_all(s, c)[0][0] == s[0],
{
    match first_of(s, c) {
        Some(i) => {
            let k = choose|k: int| is_first(s, c, k);
            assert(is_first(s, c, k));
            assert(k == i);
            assert(i != 0);
        },
        None => {},
    }
}

/// Bounds of the pieces of `v[from..to]` between occurrences of `c`.
pub fn split_bounds(v: &Vec<char>, from: usize, to: usize, c: char) -> (r: Vec<(usize, usize)>)
    requires
        from <= to <= v@.len(),
    ensures
        r@.len() == split_all(v@.subrange(from as int, to as int), c).len(),
        forall|i: int|
            0 <= i < r@.len() ==> from <= #[trigger] r@[i].0 <= r@[i].1 <= to && v@.subrange(
                r@[i].0 as int,
                r@[i].1 as int,
            ) == split_all(v@.subrange(from as int, to as int), c)[i],
{
    let ghost total = split_all(v@.subrange(from as int, to as int), c);
    let ghost mut done: Seq<Seq<char>> = seq![];
    let mut pieces: Vec<(usize, usize)> = Vec::new();
    let mut start: usize = from;
    loop
        invariant
            from <= start <= to <= v@.len(),
            total == split_all(v@.subrange(from as int, to as int), c),
            total == done + split_all(v@.subrange(start as int, to as int), c),
            done.len() == pieces@.len(),
            forall|i: int|
                0 <= i < pieces@.len() ==> from <= #[trigger] pieces@[i].0 <= pieces@[i].1 <= to
                    && v@.subrange(pieces@[i].0 as int, pieces@[i].1 as int) == done[i],
        decreases to - start,
    {
        let ghost rest = v@.subrange(start as int, to as int);
        match find_char(v, start, to, c) {
            Some(k) => {
                let ghost i = choose|i: int| is_first(rest, c, i);
                assert(is_first(rest, c, i));
                assert(rest.subrange(0, k as int) == v@.subrange(start as int, start + k));
                assert(rest.subrange(k + 1, rest.len() as int) == v@.subrange(
                    start + k + 1,
                    to as int,
                ));
                proof {
                    done = done.push(v@.subrange(start as int, start + k));
                }
                pieces.push((start, start + k));
                assert(total =~= done + split_all(v@.subrange(start + k + 1, to as int), c));
                start = start + k + 1;
            },
            None => {
                proof {
                    done = done.push(rest);
                }
                pieces.push((start, to));
                assert(split_all(rest, c) == seq![rest]);
                assert(total =~= done);
                return pieces;
            },
        }
    }
}

} // verus!
