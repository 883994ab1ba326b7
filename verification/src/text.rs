//! Character-level text processing: trimming, splitting, searching and integer parsing,
//! each over sequences of `char` with a specification of what it computes.

use vstd::prelude::*;

verus! {

/// Unicode `White_Space`, the property that `char::is_whitespace` tests.
pub open spec fn is_ws(c: char) -> bool {
    let u = c as u32;
    ||| 0x09 <= u <= 0x0d
    ||| u == 0x20
    ||| u == 0x85
    ||| u == 0xa0
    ||| u == 0x1680
    ||| 0x2000 <= u <= 0x200a
    ||| u == 0x2028
    ||| u == 0x2029
    ||| u == 0x202f
    ||| u == 0x205f
    ||| u == 0x3000
}

pub fn char_is_ws(c: char) -> (res: bool)
    ensures
        res == is_ws(c),
{
    let u = c as u32;
    (0x09 <= u && u <= 0x0d) || u == 0x20 || u == 0x85 || u == 0xa0 || u == 0x1680 || (0x2000
        <= u && u <= 0x200a) || u == 0x2028 || u == 0x2029 || u == 0x202f || u == 0x205f || u
        == 0x3000
}

/// Number of whitespace characters at the start of `s`.
pub open spec fn leading_ws(s: Seq<char>) -> nat
    decreases s.len(),
{
    if s.len() > 0 && is_ws(s[0]) {
        1 + leading_ws(s.drop_first())
    } else {
        0
    }
}

/// Number of whitespace characters at the end of `s`.
pub open spec fn trailing_ws(s: Seq<char>) -> nat
    decreases s.len(),
{
    if s.len() > 0 && is_ws(s.last()) {
        1 + trailing_ws(s.drop_last())
    } else {
        0
    }
}

/// `s` without its leading and trailing whitespace, as `str::trim` gives it.
pub open spec fn trim(s: Seq<char>) -> Seq<char> {
    let t = s.skip(leading_ws(s) as int);
    t.take(t.len() - trailing_ws(t))
}

/// Copies `s[from..to]`.
pub fn copy_range(s: &[char], from: usize, to: usize) -> (res: Vec<char>)
    requires
        from <= to <= s@.len(),
    ensures
        res@ == s@.subrange(from as int, to as int),
{
    let mut res: Vec<char> = Vec::new();
    let mut i = from;
    while i < to
        invariant
            from <= i <= to <= s@.len(),
            res@ == s@.subrange(from as int, i as int),
        decreases to - i,
    {
        res.push(s[i]);
        i = i + 1;
    }
    res
}

/// `s` with leading and trailing whitespace removed.
pub fn trim_chars(s: &[char]) -> (res: Vec<char>)
    ensures
        res@ == trim(s@),
{
    let n = s.len();
    let mut a: usize = 0;
    assert(s@.skip(0) =~= s@);
    while a < n && char_is_ws(s[a])
        invariant
            a <= n == s@.len(),
            leading_ws(s@) == a + leading_ws(s@.skip(a as int)),
        decreases n - a,
    {
        proof {
            assert(s@.skip(a as int).drop_first() =~= s@.skip(a + 1));
        }
        a = a + 1;
    }
    proof {
        assert(leading_ws(s@.skip(a as int)) == 0);
    }
    let ghost t = s@.skip(a as int);
    assert(t =~= s@.subrange(a as int, n as int));
    let mut b: usize = n;
    while b > a && char_is_ws(s[b - 1])
        invariant
            a <= b <= n == s@.len(),
            t == s@.skip(a as int),
            trailing_ws(t) == (n - b) + trailing_ws(s@.subrange(a as int, b as int)),
        decreases b - a,
    {
        proof {
            assert(s@.subrange(a as int, b as int).drop_last() =~= s@.subrange(a as int, b - 1));
        }
        b = b - 1;
    }
    proof {
        assert(t =~= s@.subrange(a as int, n as int));
        assert(trailing_ws(s@.subrange(a as int, b as int)) == 0);
        assert(t.take(t.len() - trailing_ws(t)) =~= s@.subrange(a as int, b as int));
    }
    copy_range(s, a, b)
}


/// Index of the first `c` in `s`, or `s.len()` when `s` holds none.
pub open spec fn first_index(s: Seq<char>, c: char) -> nat
    decreases s.len(),
{
    if s.len() == 0 {
        0
    } else if s[0] == c {
        0
    } else {
        1 + first_index(s.drop_first(), c)
    }
}

pub proof fn lemma_first_index(s: Seq<char>, c: char)
    ensures
        first_index(s, c) <= s.len(),
        first_index(s, c) < s.len() ==> s[first_index(s, c) as int] == c,
        forall|k: int| 0 <= k < first_index(s, c) ==> s[k] != c,
    decreases s.len(),
{
    if s.len() > 0 && s[0] != c {
        lemma_first_index(s.drop_first(), c);
        assert forall|k: int| 0 <= k < first_index(s, c) implies s[k] != c by {
            if k > 0 {
                assert(s[k] == s.drop_first()[k - 1]);
            }
        }
    }
}

/// The pieces of `s` between occurrences of `c`, as `str::split` with a `char` gives them.
pub open spec fn split_on(s: Seq<char>, c: char) -> Seq<Seq<char>>
    decreases s.len(),
{
    let j = first_index(s, c);
    if j < s.len() {
        seq![s.take(j as int)] + split_on(s.skip(j + 1 as int), c)
    } else {
        seq![s]
    }
}

/// A line without the `'\r'` of a `"\r\n"` ending.
pub open spec fn strip_cr(l: Seq<char>) -> Seq<char> {
    if l.len() > 0 && l.last() == '\r' {
        l.drop_last()
    } else {
        l
    }
}

/// The lines of `s`, as `str::lines` gives them: split at `'\n'`, a `'\r'` before the
/// `'\n'` removed, and no empty line after a final `'\n'`.
pub open spec fn lines(s: Seq<char>) -> Seq<Seq<char>>
    decreases s.len(),
{
    if s.len() == 0 {
        seq![]
    } else {
        let j = first_index(s, '\n');
        if j < s.len() {
            seq![strip_cr(s.take(j as int))] + lines(s.skip(j + 1 as int))
        } else {
            seq![s]
        }
    }
}

/// The first index `>= from` that holds `c`, or `s.len()`.
pub fn find_char_from(s: &[char], c: char, from: usize) -> (res: usize)
    requires
        from <= s@.len(),
    ensures
        res == from + first_index(s@.skip(from as int), c),
{
    let n = s.len();
    let mut i = from;
    while i < n && s[i] != c
        invariant
            from <= i <= n == s@.len(),
            first_index(s@.skip(from as int), c) == (i - from) + first_index(s@.skip(i as int), c),
        decreases n - i,
    {
        proof {
            assert(s@.skip(i as int).drop_first() =~= s@.skip(i + 1));
        }
        i = i + 1;
    }
    i
}

pub open spec fn deep(v: Seq<Vec<char>>) -> Seq<Seq<char>> {
    v.map_values(|x: Vec<char>| x@)
}

proof fn lemma_deep_push(v: Seq<Vec<char>>, x: Vec<char>)
    ensures
        deep(v.push(x)) == deep(v).push(x@),
{
    assert(deep(v.push(x)) =~= deep(v).push(x@));
}

/// The pieces of `s` between occurrences of `c`.
pub fn split_chars(s: &[char], c: char) -> (res: Vec<Vec<char>>)
    ensures
        deep(res@) == split_on(s@, c),
{
    let n = s.len();
    let mut res: Vec<Vec<char>> = Vec::new();
    let mut pos: usize = 0;
    assert(s@.skip(0) =~= s@);
    loop
        invariant
            pos <= n == s@.len(),
            split_on(s@, c) == deep(res@) + split_on(s@.skip(pos as int), c),
        decreases n - pos,
    {
        let j = find_char_from(s, c, pos);
        let ghost t = s@.skip(pos as int);
        proof {
            lemma_first_index(t, c);
        }
        let piece = copy_range(s, pos, j);
        proof {
            lemma_deep_push(res@, piece);
            assert(piece@ =~= t.take(j - pos));
        }
        if j < n {
            proof {
                assert(t.skip(j - pos + 1) =~= s@.skip(j + 1));
                assert(split_on(t, c) == seq![t.take(j - pos)] + split_on(s@.skip(j + 1), c));
                assert(deep(res@.push(piece)) + split_on(s@.skip(j + 1), c) =~= deep(res@) + (
                seq![t.take(j - pos)] + split_on(s@.skip(j + 1), c)));
            }
            res.push(piece);
            pos = j + 1;
        } else {
            proof {
                assert(t.take(j - pos) =~= t);
                assert(split_on(t, c) == seq![t]);
                assert(deep(res@.push(piece)) =~= deep(res@) + seq![t]);
            }
            res.push(piece);
            return res;
        }
    }
}

/// The lines of `s`.
pub fn split_lines(s: &[char]) -> (res: Vec<Vec<char>>)
    ensures
        deep(res@) == lines(s@),
{
    let n = s.len();
    let mut res: Vec<Vec<char>> = Vec::new();
    let mut pos: usize = 0;
    assert(s@.skip(0) =~= s@);
    while pos < n
        invariant
            pos <= n == s@.len(),
            lines(s@) == deep(res@) + lines(s@.skip(pos as int)),
        decreases n - pos,
    {
        let j = find_char_from(s, '\n', pos);
        let ghost t = s@.skip(pos as int);
        proof {
            lemma_first_index(t, '\n');
        }
        if j < n {
            let mut end = j;
            if end > pos && s[end - 1] == '\r' {
                end = end - 1;
            }
            let piece = copy_range(s, pos, end);
            proof {
                lemma_deep_push(res@, piece);
                assert(piece@ =~= strip_cr(t.take(j - pos)));
                assert(t.skip(j - pos + 1) =~= s@.skip(j + 1));
                assert(deep(res@.push(piece)) + lines(s@.skip(j + 1)) =~= deep(res@) + (seq![
                    strip_cr(t.take(j - pos)),
                ] + lines(s@.skip(j + 1))));
            }
            res.push(piece);
            pos = j + 1;
        } else {
            let piece = copy_range(s, pos, n);
            proof {
                lemma_deep_push(res@, piece);
                assert(piece@ =~= t);
                assert(s@.skip(n as int) =~= Seq::<char>::empty());
                assert(deep(res@.push(piece)) + lines(s@.skip(n as int)) =~= deep(res@) + seq![t]);
            }
            res.push(piece);
            pos = n;
        }
    }
    proof {
        assert(s@.skip(n as int) =~= Seq::<char>::empty());
        assert(deep(res@) + lines(s@.skip(n as int)) =~= deep(res@));
    }
    res
}


/// `p` occurs in `s` at index `i`.
pub open spec fn matches_at(s: Seq<char>, p: Seq<char>, i: int) -> bool {
    0 <= i && i + p.len() <= s.len() && s.subrange(i, i + p.len()) == p
}

/// The first index `>= i` at which `p` occurs in `s`.
pub open spec fn find_from(s: Seq<char>, p: Seq<char>, i: nat) -> Option<nat>
    decreases s.len() + 1 - i,
{
    if i + p.len() > s.len() {
        None
    } else if s.subrange(i as int, (i + p.len()) as int) == p {
        Some(i)
    } else {
        find_from(s, p, i + 1)
    }
}

/// The first index at which `p` occurs in `s`, as `str::find` with a `&str` pattern gives it.
pub open spec fn find(s: Seq<char>, p: Seq<char>) -> Option<nat> {
    find_from(s, p, 0)
}

/// `p` occurs in `s`, as `str::contains` says.
pub open spec fn contains(s: Seq<char>, p: Seq<char>) -> bool {
    find(s, p) is Some
}

/// `s` begins with `p`.
pub open spec fn starts_with(s: Seq<char>, p: Seq<char>) -> bool {
    p.len() <= s.len() && s.take(p.len() as int) == p
}

pub proof fn lemma_find_from(s: Seq<char>, p: Seq<char>, i: nat)
    ensures
        find_from(s, p, i) matches Some(k) ==> i <= k && matches_at(s, p, k as int),
        find_from(s, p, i) matches Some(k) ==> forall|j: int| i <= j < k ==> !matches_at(s, p, j),
        find_from(s, p, i) is None ==> forall|j: int| i <= j ==> !matches_at(s, p, j),
    decreases s.len() + 1 - i,
{
    if i + p.len() <= s.len() && s.subrange(i as int, (i + p.len()) as int) != p {
        lemma_find_from(s, p, i + 1);
    }
}

/// `p` occurs in `s` at index `i`.
pub fn matches_here(s: &[char], p: &[char], i: usize) -> (res: bool)
    ensures
        res == matches_at(s@, p@, i as int),
{
    if i > s.len() || p.len() > s.len() - i {
        return false;
    }
    let mut k: usize = 0;
    while k < p.len()
        invariant
            i + p@.len() <= s@.len(),
            s@.len() == s.len(),
            k <= p@.len(),
            s@.subrange(i as int, i + k) =~= p@.take(k as int),
        decreases p@.len() - k,
    {
        if s[i + k] != p[k] {
            proof {
                assert(s@.subrange(i as int, i + p@.len())[k as int] != p@[k as int]);
            }
            return false;
        }
        k = k + 1;
    }
    proof {
        assert(p@.take(k as int) =~= p@);
    }
    true
}

/// The first index `>= from` at which `p` occurs in `s`.
pub fn find_pattern_from(s: &[char], p: &[char], from: usize) -> (res: Option<usize>)
    ensures
        res matches Some(k) ==> find_from(s@, p@, from as nat) == Some(k as nat),
        res is None ==> find_from(s@, p@, from as nat) is None,
{
    let mut i = from;
    loop
        invariant
            from <= i,
            find_from(s@, p@, from as nat) == find_from(s@, p@, i as nat),
        decreases s@.len() + 1 - i,
    {
        if i > s.len() || p.len() > s.len() - i {
            return None;
        }
        if matches_here(s, p, i) {
            return Some(i);
        }
        proof {
            if p@.len() == 0 {
                assert(s@.subrange(i as int, i as int) =~= p@);
            }
        }
        i = i + 1;
    }
}

/// The first index at which `p` occurs in `s`.
pub fn find_pattern(s: &[char], p: &[char]) -> (res: Option<usize>)
    ensures
        res matches Some(k) ==> find(s@, p@) == Some(k as nat),
        res is None ==> find(s@, p@) is None,
{
    find_pattern_from(s, p, 0)
}

/// `p` occurs in `s`.
pub fn contains_pattern(s: &[char], p: &[char]) -> (res: bool)
    ensures
        res == contains(s@, p@),
{
    find_pattern(s, p).is_some()
}

/// `s` begins with `p`.
pub fn has_prefix(s: &[char], p: &[char]) -> (res: bool)
    ensures
        res == starts_with(s@, p@),
{
    let r = matches_here(s, p, 0);
    proof {
        assert(s@.subrange(0, p@.len() as int) =~= s@.take(p@.len() as int));
    }
    r
}

/// `s` equals `t`.
pub fn same_chars(s: &[char], t: &[char]) -> (res: bool)
    ensures
        res == (s@ == t@),
{
    if s.len() != t.len() {
        return false;
    }
    let r = has_prefix(s, t);
    proof {
        assert(s@.take(t@.len() as int) =~= s@);
    }
    r
}

/// A decimal digit.
pub open spec fn is_digit(c: char) -> bool {
    '0' <= c <= '9'
}

/// The value of the decimal numeral `d`.
pub open spec fn digits_value(d: Seq<char>) -> int
    decreases d.len(),
{
    if d.len() == 0 {
        0
    } else {
        10 * digits_value(d.drop_last()) + (d.last() as int - '0' as int)
    }
}

pub open spec fn all_digits(d: Seq<char>) -> bool {
    forall|i: int| 0 <= i < d.len() ==> is_digit(#[trigger] d[i])
}

/// What `<i32 as FromStr>::from_str` gives for `s`: an optional sign, then one or more
/// decimal digits, with a value in the range of `i32`.
pub open spec fn parse_i32(s: Seq<char>) -> Option<i32> {
    if s.len() == 0 {
        None
    } else {
        let signed = s[0] == '-' || s[0] == '+';
        let d = if signed {
            s.drop_first()
        } else {
            s
        };
        let v = if s[0] == '-' {
            -digits_value(d)
        } else {
            digits_value(d)
        };
        if d.len() == 0 || !all_digits(d) {
            None
        } else if i32::MIN <= v <= i32::MAX {
            Some(v as i32)
        } else {
            None
        }
    }
}

/// `parse_i32(s)`, or 0 where that is `None`, as `parse().unwrap_or(0)` gives it.
pub open spec fn parse_i32_or_zero(s: Seq<char>) -> i32 {
    match parse_i32(s) {
        Some(v) => v,
        None => 0,
    }
}

proof fn lemma_digits_value_monotone(d: Seq<char>, k: int)
    requires
        all_digits(d),
        0 <= k <= d.len(),
    ensures
        0 <= digits_value(d.take(k)) <= digits_value(d),
    decreases d.len(),
{
    if k == d.len() {
        assert(d.take(k) =~= d);
        lemma_digits_value_nonneg(d);
    } else {
        let e = d.drop_last();
        assert(all_digits(e)) by {
            assert forall|i: int| 0 <= i < e.len() implies is_digit(#[trigger] e[i]) by {
                assert(e[i] == d[i]);
            }
        }
        lemma_digits_value_monotone(e, k);
        assert(e.take(k) =~= d.take(k));
        lemma_digits_value_nonneg(e);
        assert(is_digit(d[d.len() - 1]));
    }
}

proof fn lemma_digits_value_nonneg(d: Seq<char>)
    requires
        all_digits(d),
    ensures
        digits_value(d) >= 0,
    decreases d.len(),
{
    if d.len() > 0 {
        let e = d.drop_last();
        assert(all_digits(e)) by {
            assert forall|i: int| 0 <= i < e.len() implies is_digit(#[trigger] e[i]) by {
                assert(e[i] == d[i]);
            }
        }
        lemma_digits_value_nonneg(e);
        assert(is_digit(d[d.len() - 1]));
    }
}

/// `s` read as an `i32`, or 0 where it is not one.
pub fn parse_i32_or_zero_chars(s: &[char]) -> (res: i32)
    ensures
        res == parse_i32_or_zero(s@),
{
    let n = s.len();
    if n == 0 {
        return 0;
    }
    let neg = s[0] == '-';
    let start: usize = if s[0] == '-' || s[0] == '+' {
        1
    } else {
        0
    };
    let ghost d = if start == 1 {
        s@.drop_first()
    } else {
        s@
    };
    assert(d =~= s@.skip(start as int));
    assert(d == (if s@[0] == '-' || s@[0] == '+' {
        s@.drop_first()
    } else {
        s@
    }));
    if start == n {
        return 0;
    }
    let mut acc: i64 = 0;
    let mut i: usize = start;
    assert(d.take(0) =~= Seq::<char>::empty());
    while i < n
        invariant
            start <= i <= n == s@.len(),
            n > 0,
            neg == (s@[0] == '-'),
            d == (if s@[0] == '-' || s@[0] == '+' {
                s@.drop_first()
            } else {
                s@
            }),
            d == s@.skip(start as int),
            d.len() == n - start,
            forall|j: int| 0 <= j < i - start ==> is_digit(#[trigger] d[j]),
            acc == digits_value(d.take(i - start)),
            0 <= acc <= 2147483648,
        decreases n - i,
    {
        let c = s[i];
        if !('0' <= c && c <= '9') {
            proof {
                assert(!is_digit(d[i - start]));
                assert(!all_digits(d));
            }
            return 0;
        }
        let dv = (c as u32 - '0' as u32) as i64;
        let next = acc * 10 + dv;
        proof {
            assert(d.take(i - start + 1).drop_last() =~= d.take(i - start));
            assert(d.take(i - start + 1).last() == c);
        }
        if next > 2147483648 {
            // every further digit only raises the value: no `i32` can result
            proof {
                assert(digits_value(d.take(i - start + 1)) == next);
                if all_digits(d) {
                    lemma_digits_value_monotone(d, i - start + 1);
                }
            }
            return 0;
        }
        acc = next;
        i = i + 1;
    }
    proof {
        assert(d.take(n - start) =~= d);
        assert(all_digits(d));
    }
    if neg {
        (0 - acc) as i32
    } else if acc <= 2147483647 {
        acc as i32
    } else {
        0
    }
}


pub proof fn lemma_leading_ws_stops(s: Seq<char>)
    ensures
        leading_ws(s) <= s.len(),
        leading_ws(s) < s.len() ==> !is_ws(s[leading_ws(s) as int]),
        forall|k: int| 0 <= k < leading_ws(s) ==> is_ws(s[k]),
    decreases s.len(),
{
    if s.len() > 0 && is_ws(s[0]) {
        lemma_leading_ws_stops(s.drop_first());
        assert forall|k: int| 0 <= k < leading_ws(s) implies is_ws(s[k]) by {
            if k > 0 {
                assert(s[k] == s.drop_first()[k - 1]);
            }
        }
    }
}

/// Index of the first whitespace character of `s`, or `s.len()`.
pub open spec fn first_ws(s: Seq<char>) -> nat
    decreases s.len(),
{
    if s.len() == 0 {
        0
    } else if is_ws(s[0]) {
        0
    } else {
        1 + first_ws(s.drop_first())
    }
}

pub proof fn lemma_first_ws(s: Seq<char>)
    ensures
        first_ws(s) <= s.len(),
        first_ws(s) < s.len() ==> is_ws(s[first_ws(s) as int]),
        forall|k: int| 0 <= k < first_ws(s) ==> !is_ws(s[k]),
    decreases s.len(),
{
    if s.len() > 0 && !is_ws(s[0]) {
        lemma_first_ws(s.drop_first());
        assert forall|k: int| 0 <= k < first_ws(s) implies !is_ws(s[k]) by {
            if k > 0 {
                assert(s[k] == s.drop_first()[k - 1]);
            }
        }
    }
}

/// The whitespace-separated words of `s`, as `str::split_whitespace` gives them.
pub open spec fn words(s: Seq<char>) -> Seq<Seq<char>>
    decreases s.len(),
{
    let t = s.skip(leading_ws(s) as int);
    if t.len() == 0 {
        seq![]
    } else {
        proof {
            lemma_leading_ws_stops(s);
            lemma_first_ws(t);
        }
        let j = first_ws(t);
        seq![t.take(j as int)] + words(t.skip(j as int))
    }
}

/// `from` plus the number of whitespace characters that start `s[from..]`.
pub fn skip_ws_from(s: &[char], from: usize) -> (res: usize)
    requires
        from <= s@.len(),
    ensures
        res == from + leading_ws(s@.skip(from as int)),
        res <= s@.len(),
{
    let n = s.len();
    let mut a = from;
    while a < n && char_is_ws(s[a])
        invariant
            from <= a <= n == s@.len(),
            leading_ws(s@.skip(from as int)) == (a - from) + leading_ws(s@.skip(a as int)),
        decreases n - a,
    {
        proof {
            assert(s@.skip(a as int).drop_first() =~= s@.skip(a + 1));
        }
        a = a + 1;
    }
    a
}

/// The first index `>= from` that holds whitespace, or `s.len()`.
pub fn find_ws_from(s: &[char], from: usize) -> (res: usize)
    requires
        from <= s@.len(),
    ensures
        res == from + first_ws(s@.skip(from as int)),
        res <= s@.len(),
{
    let n = s.len();
    let mut b = from;
    while b < n && !char_is_ws(s[b])
        invariant
            from <= b <= n == s@.len(),
            first_ws(s@.skip(from as int)) == (b - from) + first_ws(s@.skip(b as int)),
        decreases n - b,
    {
        proof {
            assert(s@.skip(b as int).drop_first() =~= s@.skip(b + 1));
        }
        b = b + 1;
    }
    b
}

/// The whitespace-separated words of `s`.
pub fn split_words(s: &[char]) -> (res: Vec<Vec<char>>)
    ensures
        deep(res@) == words(s@),
{
    let n = s.len();
    let mut res: Vec<Vec<char>> = Vec::new();
    let mut pos: usize = 0;
    assert(s@.skip(0) =~= s@);
    loop
        invariant
            pos <= n == s@.len(),
            words(s@) == deep(res@) + words(s@.skip(pos as int)),
        decreases n - pos,
    {
        let a = skip_ws_from(s, pos);
        let ghost u = s@.skip(pos as int);
        let ghost t = u.skip(leading_ws(u) as int);
        assert(t =~= s@.skip(a as int));
        if a == n {
            proof {
                assert(words(u) == Seq::<Seq<char>>::empty());
                assert(deep(res@) + words(u) =~= deep(res@));
            }
            return res;
        }
        proof {
            lemma_leading_ws_stops(u);
        }
        let b = find_ws_from(s, a);
        proof {
            lemma_first_ws(t);
            assert(b > a);
        }
        let piece = copy_range(s, a, b);
        proof {
            lemma_deep_push(res@, piece);
            assert(piece@ =~= t.take(b - a));
            assert(t.skip(b - a) =~= s@.skip(b as int));
            assert(words(u) == seq![t.take(b - a)] + words(s@.skip(b as int)));
            assert(deep(res@.push(piece)) + words(s@.skip(b as int)) =~= deep(res@) + (seq![
                t.take(b - a),
            ] + words(s@.skip(b as int))));
        }
        res.push(piece);
        pos = b;
    }
}

/// Number of copies of `c` at the start of `s`.
pub open spec fn leading_char(s: Seq<char>, c: char) -> nat
    decreases s.len(),
{
    if s.len() > 0 && s[0] == c {
        1 + leading_char(s.drop_first(), c)
    } else {
        0
    }
}

/// Number of copies of `c` at the end of `s`.
pub open spec fn trailing_char(s: Seq<char>, c: char) -> nat
    decreases s.len(),
{
    if s.len() > 0 && s.last() == c {
        1 + trailing_char(s.drop_last(), c)
    } else {
        0
    }
}

/// `s` without the copies of `c` at its start and end, as `str::trim_matches(c)` gives it.
pub open spec fn trim_char(s: Seq<char>, c: char) -> Seq<char> {
    let t = s.skip(leading_char(s, c) as int);
    t.take(t.len() - trailing_char(t, c))
}

/// `s` with leading and trailing copies of `c` removed.
pub fn trim_char_chars(s: &[char], c: char) -> (res: Vec<char>)
    ensures
        res@ == trim_char(s@, c),
{
    let n = s.len();
    let mut a: usize = 0;
    assert(s@.skip(0) =~= s@);
    while a < n && s[a] == c
        invariant
            a <= n == s@.len(),
            leading_char(s@, c) == a + leading_char(s@.skip(a as int), c),
        decreases n - a,
    {
        proof {
            assert(s@.skip(a as int).drop_first() =~= s@.skip(a + 1));
        }
        a = a + 1;
    }
    proof {
        assert(leading_char(s@.skip(a as int), c) == 0);
    }
    let ghost t = s@.skip(a as int);
    assert(t =~= s@.subrange(a as int, n as int));
    let mut b: usize = n;
    while b > a && s[b - 1] == c
        invariant
            a <= b <= n == s@.len(),
            t == s@.skip(a as int),
            trailing_char(t, c) == (n - b) + trailing_char(s@.subrange(a as int, b as int), c),
        decreases b - a,
    {
        proof {
            assert(s@.subrange(a as int, b as int).drop_last() =~= s@.subrange(a as int, b - 1));
        }
        b = b - 1;
    }
    proof {
        assert(trailing_char(s@.subrange(a as int, b as int), c) == 0);
        assert(t.take(t.len() - trailing_char(t, c)) =~= s@.subrange(a as int, b as int));
    }
    copy_range(s, a, b)
}

/// `s` with every leading copy of the nonempty `p` removed, as `str::trim_start_matches`
/// gives it.
pub open spec fn strip_prefixes(s: Seq<char>, p: Seq<char>) -> Seq<char>
    decreases s.len(),
{
    if p.len() > 0 && starts_with(s, p) {
        strip_prefixes(s.skip(p.len() as int), p)
    } else {
        s
    }
}

/// `s` with every leading copy of `p` removed.
pub fn strip_prefixes_chars(s: &[char], p: &[char]) -> (res: Vec<char>)
    ensures
        res@ == strip_prefixes(s@, p@),
{
    let n = s.len();
    let mut a: usize = 0;
    assert(s@.skip(0) =~= s@);
    if p.len() == 0 {
        return copy_range(s, 0, n);
    }
    loop
        invariant
            a <= n == s@.len(),
            p@.len() > 0,
            strip_prefixes(s@, p@) == strip_prefixes(s@.skip(a as int), p@),
        decreases n - a,
    {
        let ghost t = s@.skip(a as int);
        if matches_here(s, p, a) {
            proof {
                assert(t.take(p@.len() as int) =~= s@.subrange(a as int, a + p@.len()));
                assert(t.skip(p@.len() as int) =~= s@.skip(a + p@.len()));
            }
            a = a + p.len();
        } else {
            proof {
                if starts_with(t, p@) {
                    assert(t.take(p@.len() as int) =~= s@.subrange(a as int, a + p@.len()));
                }
            }
            return copy_range(s, a, n);
        }
    }
}

/// An ASCII lowercase letter, as `char::is_ascii_lowercase` says.
pub open spec fn is_ascii_lower(c: char) -> bool {
    'a' <= c <= 'z'
}

/// The characters of `s`, in order.
pub(crate) fn chars_of(s: &str) -> (res: Vec<char>)
    ensures
        res@ == s@,
{
    broadcast use vstd::string::group_string_axioms;

    let mut res: Vec<char> = Vec::new();
    for c in it: s.chars()
        invariant
            it.seq() == s@,
            res@ == s@.take(it.index() as int),
    {
        res.push(c);
        proof {
            assert(s@.take(it.index() + 1) =~= s@.take(it.index() as int).push(c));
        }
    }
    res
}

/// The `String` made of the characters in `v`, as `FromIterator<char> for String` builds it.
#[verifier::external_body]
pub(crate) fn string_of(v: &[char]) -> (res: String)
    ensures
        res@ == v@,
{
    v.iter().collect()
}

/// `s` equals the text of `lit`.
pub fn is_text(s: &[char], lit: &str) -> (res: bool)
    ensures
        res == (s@ == lit@),
{
    let l = chars_of(lit);
    same_chars(s, l.as_slice())
}

/// `s` contains the text of `lit`.
pub fn contains_text(s: &[char], lit: &str) -> (res: bool)
    ensures
        res == contains(s@, lit@),
{
    let l = chars_of(lit);
    contains_pattern(s, l.as_slice())
}

/// `s` starts with the text of `lit`.
pub fn starts_with_text(s: &[char], lit: &str) -> (res: bool)
    ensures
        res == starts_with(s@, lit@),
{
    let l = chars_of(lit);
    has_prefix(s, l.as_slice())
}


proof fn lemma_first_index_append(s: Seq<char>, t: Seq<char>, c: char)
    ensures
        first_index(s, c) < s.len() ==> first_index(s + t, c) == first_index(s, c),
        first_index(s, c) == s.len() ==> first_index(s + t, c) == s.len() + first_index(t, c),
    decreases s.len(),
{
    lemma_first_index(s, c);
    if s.len() == 0 {
        assert(s + t =~= t);
    } else {
        assert((s + t).drop_first() =~= s.drop_first() + t);
        assert((s + t)[0] == s[0]);
        lemma_first_index_append(s.drop_first(), t, c);
    }
}

/// The lines of `s` followed by two newlines: those of `s`, the last one ended (and so
/// without a final `'\r'`), then one empty line more, or two where `s` already ended in a
/// newline.
pub open spec fn lines_then_blank(s: Seq<char>) -> Seq<Seq<char>> {
    let l = lines(s);
    if s.len() == 0 {
        seq![Seq::<char>::empty(), Seq::<char>::empty()]
    } else if s.last() == '\n' {
        l + seq![Seq::<char>::empty(), Seq::<char>::empty()]
    } else {
        l.drop_last().push(strip_cr(l.last())).push(Seq::<char>::empty())
    }
}

proof fn lemma_lines_nonempty(s: Seq<char>)
    requires
        s.len() > 0,
    ensures
        lines(s).len() > 0,
{
}

proof fn lemma_lines_of_newlines()
    ensures
        lines(seq!['\n']) == seq![Seq::<char>::empty()],
        lines(seq!['\n', '\n']) == seq![Seq::<char>::empty(), Seq::<char>::empty()],
{
    let one = seq!['\n'];
    let two = seq!['\n', '\n'];
    assert(first_index(one, '\n') == 0);
    assert(one.skip(1) =~= Seq::<char>::empty());
    assert(one.take(0) =~= Seq::<char>::empty());
    assert(strip_cr(Seq::<char>::empty()) == Seq::<char>::empty());
    assert(lines(Seq::<char>::empty()) == Seq::<Seq<char>>::empty());
    assert(lines(one) =~= seq![Seq::<char>::empty()]);
    assert(first_index(two, '\n') == 0);
    assert(two.skip(1) =~= one);
    assert(two.take(0) =~= Seq::<char>::empty());
    assert(lines(two) =~= seq![Seq::<char>::empty()] + lines(one));
}

/// Two newlines after a text add one or two empty lines to its lines, as described by
/// `lines_then_blank`.
pub proof fn lemma_lines_then_blank(s: Seq<char>)
    ensures
        lines(s + seq!['\n', '\n']) == lines_then_blank(s),
    decreases s.len(),
{
    let nn = seq!['\n', '\n'];
    lemma_lines_of_newlines();
    if s.len() == 0 {
        assert(s + nn =~= nn);
    } else {
        let u = s + nn;
        lemma_first_index(s, '\n');
        lemma_first_index_append(s, nn, '\n');
        let j = first_index(s, '\n');
        assert(u.len() > 0);
        if j < s.len() {
            let rest = s.skip(j + 1 as int);
            assert(u.take(j as int) =~= s.take(j as int));
            assert(u.skip(j + 1 as int) =~= rest + nn);
            assert(lines(u) == seq![strip_cr(s.take(j as int))] + lines(rest + nn));
            assert(lines(s) == seq![strip_cr(s.take(j as int))] + lines(rest));
            if rest.len() == 0 {
                assert(rest + nn =~= nn);
                assert(s.last() == '\n');
                assert(lines(s) =~= seq![strip_cr(s.take(j as int))]);
                assert(lines(u) =~= lines(s) + seq![Seq::<char>::empty(), Seq::<char>::empty()]);
            } else {
                lemma_lines_then_blank(rest);
                assert(rest.last() == s.last());
                lemma_lines_nonempty(rest);
                let a = strip_cr(s.take(j as int));
                if s.last() == '\n' {
                    assert(lines(u) =~= lines(s) + seq![Seq::<char>::empty(), Seq::<char>::empty()]);
                } else {
                    let lr = lines(rest);
                    assert(lines(s).drop_last() =~= seq![a] + lr.drop_last());
                    assert(lines(s).last() == lr.last());
                    assert(lines(u) =~= lines(s).drop_last().push(strip_cr(lines(s).last())).push(
                        Seq::<char>::empty(),
                    ));
                }
            }
        } else {
            assert(first_index(nn, '\n') == 0);
            assert(first_index(u, '\n') == s.len());
            assert(u.take(s.len() as int) =~= s);
            assert(u.skip(s.len() + 1 as int) =~= seq!['\n']);
            assert(lines(u) == seq![strip_cr(s)] + lines(seq!['\n']));
            assert(s.last() != '\n');
            assert(lines(s) == seq![s]);
            assert(lines(u) =~= lines(s).drop_last().push(strip_cr(lines(s).last())).push(
                Seq::<char>::empty(),
            ));
        }
    }
}

proof fn lemma_trailing_ws_bound(s: Seq<char>)
    ensures
        trailing_ws(s) <= s.len(),
    decreases s.len(),
{
    if s.len() > 0 && is_ws(s.last()) {
        lemma_trailing_ws_bound(s.drop_last());
    }
}

proof fn lemma_leading_ws_push(y: Seq<char>, c: char)
    ensures
        leading_ws(y) < y.len() ==> leading_ws(y.push(c)) == leading_ws(y),
        leading_ws(y) >= y.len() ==> leading_ws(y.push(c)) == y.len() + if is_ws(c) {
            1nat
        } else {
            0nat
        },
    decreases y.len(),
{
    if y.len() == 0 {
        assert(y.push(c).drop_first() =~= Seq::<char>::empty());
        assert(y.push(c)[0] == c);
        assert(leading_ws(Seq::<char>::empty()) == 0);
    } else {
        assert(y.push(c).drop_first() =~= y.drop_first().push(c));
        assert(y.push(c)[0] == y[0]);
        lemma_leading_ws_push(y.drop_first(), c);
    }
}

/// Removing a whitespace character from the end does not change what `trim` gives.
pub proof fn lemma_trim_drop_trailing_ws(x: Seq<char>)
    requires
        x.len() > 0,
        is_ws(x.last()),
    ensures
        trim(x) == trim(x.drop_last()),
{
    let y = x.drop_last();
    let c = x.last();
    assert(y.push(c) =~= x);
    lemma_leading_ws_push(y, c);
    lemma_leading_ws_stops(y);
    let a = leading_ws(y);
    if a < y.len() {
        let ty = y.skip(a as int);
        let tx = x.skip(a as int);
        assert(tx =~= ty.push(c));
        assert(tx.drop_last() =~= ty);
        assert(trailing_ws(tx) == 1 + trailing_ws(ty));
        lemma_trailing_ws_bound(ty);
        assert(tx.take(tx.len() - trailing_ws(tx)) =~= ty.take(ty.len() - trailing_ws(ty)));
    } else {
        assert(x.skip(leading_ws(x) as int) =~= Seq::<char>::empty());
        assert(y.skip(leading_ws(y) as int) =~= Seq::<char>::empty());
        assert(trim(x) =~= Seq::<char>::empty());
        assert(trim(y) =~= Seq::<char>::empty());
    }
}

/// A `"\r\n"` line ending makes no difference once the line is trimmed.
pub proof fn lemma_trim_strip_cr(x: Seq<char>)
    ensures
        trim(strip_cr(x)) == trim(x),
{
    if x.len() > 0 && x.last() == '\r' {
        lemma_trim_drop_trailing_ws(x);
    }
}


pub proof fn lemma_trailing_ws_stops(s: Seq<char>)
    ensures
        trailing_ws(s) <= s.len(),
        trailing_ws(s) < s.len() ==> !is_ws(s[s.len() - 1 - trailing_ws(s)]),
        forall|k: int| s.len() - trailing_ws(s) <= k < s.len() ==> is_ws(s[k]),
    decreases s.len(),
{
    if s.len() > 0 && is_ws(s.last()) {
        lemma_trailing_ws_stops(s.drop_last());
        assert forall|k: int| s.len() - trailing_ws(s) <= k < s.len() implies is_ws(s[k]) by {
            if k < s.len() - 1 {
                assert(s[k] == s.drop_last()[k]);
            }
        }
        if trailing_ws(s) < s.len() {
            assert(s[s.len() - 1 - trailing_ws(s)] == s.drop_last()[s.drop_last().len() - 1
                - trailing_ws(s.drop_last())]);
        }
    }
}

/// `t` is `s` with its leading and trailing whitespace cut off: a piece of `s` with only
/// whitespace before and after it, that neither begins nor ends with whitespace.
pub open spec fn is_trim_of(t: Seq<char>, s: Seq<char>) -> bool {
    exists|a: int, b: int|
        #![trigger s.subrange(a, b)]
        0 <= a <= b <= s.len() && t == s.subrange(a, b) && (forall|k: int|
            0 <= k < a ==> is_ws(#[trigger] s[k])) && (forall|k: int|
            b <= k < s.len() ==> is_ws(#[trigger] s[k])) && (t.len() > 0 ==> !is_ws(t[0])
            && !is_ws(t.last()))
}

/// `s` holds a character that is not whitespace.
pub open spec fn has_non_ws(s: Seq<char>) -> bool {
    exists|k: int| 0 <= k < s.len() && !is_ws(#[trigger] s[k])
}

/// What `trim` gives is `s` cut down to its part between leading and trailing whitespace,
/// and it is empty exactly when `s` holds only whitespace.
pub proof fn lemma_trim_law(s: Seq<char>)
    ensures
        is_trim_of(trim(s), s),
        trim(s).len() == 0 <==> !has_non_ws(s),
{
    lemma_leading_ws_stops(s);
    let a = leading_ws(s) as int;
    let u = s.skip(a);
    lemma_trailing_ws_stops(u);
    let tw = trailing_ws(u) as int;
    let b = s.len() - tw;
    let t = trim(s);
    assert(t =~= s.subrange(a, b));
    assert forall|k: int| b <= k < s.len() implies is_ws(#[trigger] s[k]) by {
        assert(s[k] == u[k - a]);
    }
    if t.len() > 0 {
        assert(t[0] == s[a]);
        assert(t.last() == u[u.len() - 1 - tw]);
    }
    assert(0 <= a <= b <= s.len() && t == s.subrange(a, b));
    if t.len() == 0 {
        if has_non_ws(s) {
            let k = choose|k: int| 0 <= k < s.len() && !is_ws(#[trigger] s[k]);
            if k >= a {
                assert(s[k] == u[k - a]);
            }
        }
    } else {
        assert(!is_ws(s[a]));
    }
}

/// `s` holds the character `c`.
pub open spec fn has_char(s: Seq<char>, c: char) -> bool {
    exists|k: int| 0 <= k < s.len() && #[trigger] s[k] == c
}

/// Where a nonempty `p` occurs in `s`, the first character of `p` is in `s`.
pub proof fn lemma_contains_first_char(s: Seq<char>, p: Seq<char>)
    requires
        p.len() > 0,
        contains(s, p),
    ensures
        has_char(s, p[0]),
{
    lemma_find_from(s, p, 0);
    let k = find(s, p)->0 as int;
    assert(s.subrange(k, k + p.len())[0] == s[k]);
}

/// Where `s` starts with the nonempty `p`, each character of `p` is in `s`.
pub proof fn lemma_starts_with_char(s: Seq<char>, p: Seq<char>, i: int)
    requires
        starts_with(s, p),
        0 <= i < p.len(),
    ensures
        has_char(s, p[i]),
{
    assert(s.take(p.len() as int)[i] == s[i]);
}


/// What occurs in a piece of `s` occurs in `s`.
pub proof fn lemma_contains_in_piece(s: Seq<char>, a: int, b: int, p: Seq<char>)
    requires
        0 <= a <= b <= s.len(),
        contains(s.subrange(a, b), p),
    ensures
        contains(s, p),
{
    let u = s.subrange(a, b);
    lemma_find_from(u, p, 0);
    let k = find(u, p)->0 as int;
    assert(s.subrange(a + k, a + k + p.len()) =~= u.subrange(k, k + p.len()));
    lemma_find_from(s, p, 0);
    assert(matches_at(s, p, a + k));
}

/// What occurs in the trimmed `s` occurs in `s`.
pub proof fn lemma_contains_in_trim(s: Seq<char>, p: Seq<char>)
    requires
        contains(trim(s), p),
    ensures
        contains(s, p),
{
    lemma_trim_law(s);
    let (a, b) = choose|a: int, b: int|
        #![trigger s.subrange(a, b)]
        0 <= a <= b <= s.len() && trim(s) == s.subrange(a, b) && (forall|k: int|
            0 <= k < a ==> is_ws(#[trigger] s[k])) && (forall|k: int|
            b <= k < s.len() ==> is_ws(#[trigger] s[k])) && (trim(s).len() > 0 ==> !is_ws(
            trim(s)[0],
        ) && !is_ws(trim(s).last()));
    lemma_contains_in_piece(s, a, b, p);
}

} // verus!
