//! Character-level text helpers: decimal rendering and conversion between
//! `String` and sequences of characters.
use vstd::prelude::*;

verus! {

/// The character for a decimal digit `d` (0..=9).
pub open spec fn digit_char(d: int) -> char {
    (48 + d) as char
}

/// Decimal digits of `n`, most significant first, without leading zeros
/// (`0` renders as a single `'0'`).
pub open spec fn decimal(n: nat) -> Seq<char>
    decreases n,
{
    if n < 10 {
        seq![digit_char(n as int)]
    } else {
        decimal(n / 10).push(digit_char((n % 10) as int))
    }
}

/// `s` left-padded with `'0'` up to `width` characters (unchanged when it is
/// already at least that long).
pub open spec fn zero_pad(s: Seq<char>, width: nat) -> Seq<char> {
    if s.len() >= width {
        s
    } else {
        Seq::new((width - s.len()) as nat, |i: int| '0') + s
    }
}

/// Decimal rendering of `n` with a minimum width of `width`, zero-padded on
/// the left (the behaviour of the `{:0w}` format specification).
pub open spec fn padded_decimal(n: nat, width: nat) -> Seq<char> {
    zero_pad(decimal(n), width)
}

pub proof fn lemma_decimal_nonempty(n: nat)
    ensures
        decimal(n).len() >= 1,
    decreases n,
{
    if n >= 10 {
        lemma_decimal_nonempty(n / 10);
    }
}

fn digit(d: u64) -> (c: char)
    requires
        d < 10,
    ensures
        c == digit_char(d as int),
{
    let b: u8 = (d as u8) + 48u8;
    b as char
}

/// Appends the decimal digits of `n` to `out`.
pub fn push_decimal(n: u64, out: &mut Vec<char>)
    ensures
        final(out)@ == old(out)@ + decimal(n as nat),
    decreases n,
{
    if n >= 10 {
        push_decimal(n / 10, out);
    }
    let c = digit(n % 10);
    out.push(c);
    proof {
        if n >= 10 {
            assert(old(out)@ + decimal(n as nat) =~= old(out)@ + decimal((n / 10) as nat) + seq![c]);
        } else {
            assert(old(out)@ + decimal(n as nat) =~= old(out)@ + seq![c]);
        }
    }
}

/// Appends `n` in decimal, zero-padded on the left to at least `width` digits.
pub fn push_padded_decimal(n: u64, width: usize, out: &mut Vec<char>)
    ensures
        final(out)@ == old(out)@ + padded_decimal(n as nat, width as nat),
{
    let mut digits: Vec<char> = Vec::new();
    push_decimal(n, &mut digits);
    assert(digits@ =~= decimal(n as nat));
    let mut i: usize = digits.len();
    let ghost start = out@;
    while i < width
        invariant
            digits@ == decimal(n as nat),
            digits.len() <= i <= width || (i == digits.len() && digits.len() >= width),
            out@ == start + Seq::new((i - digits.len()) as nat, |k: int| '0'),
        decreases width - i,
    {
        out.push('0');
        assert(out@ =~= start + Seq::new((i + 1 - digits.len()) as nat, |k: int| '0'));
        i = i + 1;
    }
    let mut j: usize = 0;
    let ghost mid = out@;
    while j < digits.len()
        invariant
            j <= digits.len(),
            out@ == mid + digits@.take(j as int),
        decreases digits.len() - j,
    {
        out.push(digits[j]);
        assert(out@ =~= mid + digits@.take((j + 1) as int));
        j = j + 1;
    }
    assert(digits@.take(digits.len() as int) =~= digits@);
    if digits.len() >= width {
        assert(mid =~= start);
        assert(out@ =~= old(out)@ + padded_decimal(n as nat, width as nat));
    } else {
        assert(out@ =~= old(out)@ + padded_decimal(n as nat, width as nat));
    }
}

/// Appends the characters of `s` to `out`.
pub fn push_str(out: &mut Vec<char>, s: &str)
    ensures
        final(out)@ == old(out)@ + s@,
{
    let cs = chars_of(s);
    let ghost start = out@;
    let mut i: usize = 0;
    while i < cs.len()
        invariant
            i <= cs@.len(),
            cs@ == s@,
            out@ == start + cs@.take(i as int),
        decreases cs@.len() - i,
    {
        out.push(cs[i]);
        assert(out@ =~= start + cs@.take(i + 1));
        i = i + 1;
    }
    assert(cs@.take(cs@.len() as int) =~= cs@);
}

/// Builds a `String` holding exactly the characters of `v`.
///
/// Trusted: calls `FromIterator<&char> for String` (`v.iter().collect()`),
/// which the standard library documents as concatenating the characters in
/// order.
#[verifier::external_body]
pub(crate) fn string_from_chars(v: &Vec<char>) -> (s: String)
    ensures
        s@ == v@,
{
    v.iter().collect()
}

/// The characters of `s`, in order.
pub fn chars_of(s: &str) -> (v: Vec<char>)
    ensures
        v@ == s@,
{
    let mut v: Vec<char> = Vec::new();
    for c in it: s.chars()
        invariant
            v@ == it.seq().take(it.index() as int),
    {
        v.push(c);
    }
    assert(v@ =~= s@);
    v
}

} // verus!

verus! {

/// Unicode `White_Space`, the property behind `char::is_whitespace`.
pub open spec fn is_ws(c: char) -> bool {
    ('\u{9}' <= c && c <= '\u{d}') || c == ' ' || c == '\u{85}' || c == '\u{a0}' || c == '\u{1680}'
        || ('\u{2000}' <= c && c <= '\u{200a}') || c == '\u{2028}' || c == '\u{2029}'
        || c == '\u{202f}' || c == '\u{205f}' || c == '\u{3000}'
}

pub fn is_whitespace(c: char) -> (r: bool)
    ensures
        r == is_ws(c),
{
    ('\u{9}' <= c && c <= '\u{d}') || c == ' ' || c == '\u{85}' || c == '\u{a0}' || c == '\u{1680}'
        || ('\u{2000}' <= c && c <= '\u{200a}') || c == '\u{2028}' || c == '\u{2029}'
        || c == '\u{202f}' || c == '\u{205f}' || c == '\u{3000}'
}

/// The maximal runs of non-whitespace characters of `s`, in order
/// (what `str::split_whitespace` yields).
pub open spec fn words(s: Seq<char>) -> Seq<Seq<char>>
    decreases s.len(),
{
    if s.len() == 0 {
        Seq::empty()
    } else if is_ws(s.last()) {
        words(s.drop_last())
    } else if s.len() >= 2 && !is_ws(s[s.len() - 2]) {
        let w = words(s.drop_last());
        w.update(w.len() - 1, w.last().push(s.last()))
    } else {
        words(s.drop_last()).push(seq![s.last()])
    }
}

/// The views of a sequence of character vectors.
pub open spec fn views(v: Seq<Vec<char>>) -> Seq<Seq<char>> {
    v.map_values(|x: Vec<char>| x@)
}

pub proof fn lemma_words_nonempty_last(s: Seq<char>)
    requires
        s.len() >= 1,
        !is_ws(s.last()),
    ensures
        words(s).len() >= 1,
    decreases s.len(),
{
    if s.len() >= 2 && !is_ws(s[s.len() - 2]) {
        assert(s.drop_last().last() == s[s.len() - 2]);
        lemma_words_nonempty_last(s.drop_last());
    }
}

/// Splits `s` at runs of whitespace.
pub fn split_whitespace(s: &Vec<char>) -> (r: Vec<Vec<char>>)
    ensures
        views(r@) == words(s@),
{
    let mut r: Vec<Vec<char>> = Vec::new();
    let mut k: usize = 0;
    while k < s.len()
        invariant
            k <= s@.len(),
            views(r@) == words(s@.take(k as int)),
        decreases s@.len() - k,
    {
        let c = s[k];
        let ghost t = s@.take(k + 1);
        assert(t.drop_last() =~= s@.take(k as int));
        if is_whitespace(c) {
        } else if k >= 1 && !is_whitespace(s[k - 1]) {
            assert(t[t.len() - 2] == s@[k - 1]);
            proof {
                lemma_words_nonempty_last(s@.take(k as int));
            }
            let last = r.len() - 1;
            let ghost before = r@;
            r[last].push(c);
            proof {
                assert(views(r@) =~= views(before).update(last as int, views(before)[last as int].push(c)));
            }
        } else {
            let mut w: Vec<char> = Vec::new();
            w.push(c);
            let ghost before = r@;
            r.push(w);
            proof {
                assert(w@ =~= seq![c]);
                assert(views(r@) =~= views(before).push(seq![c]));
            }
        }
        k = k + 1;
    }
    assert(s@.take(s@.len() as int) =~= s@);
    r
}

/// Line-splitting state after a prefix: the finished lines and the current
/// unfinished one.
pub open spec fn lines_state(s: Seq<char>) -> (Seq<Seq<char>>, Seq<char>)
    decreases s.len(),
{
    if s.len() == 0 {
        (Seq::empty(), Seq::empty())
    } else {
        let (done, cur) = lines_state(s.drop_last());
        if s.last() == '\n' {
            (done.push(strip_cr(cur)), Seq::empty())
        } else {
            (done, cur.push(s.last()))
        }
    }
}

/// `l` without one trailing carriage return.
pub open spec fn strip_cr(l: Seq<char>) -> Seq<char> {
    if l.len() > 0 && l.last() == '\r' {
        l.drop_last()
    } else {
        l
    }
}

/// The lines of `s` as `str::lines` yields them: split after each `'\n'`, a
/// final line without terminator kept when non-empty, and one `'\r'` removed
/// before each `'\n'`.
pub open spec fn lines(s: Seq<char>) -> Seq<Seq<char>> {
    let (done, cur) = lines_state(s);
    if cur.len() > 0 {
        done.push(cur)
    } else {
        done
    }
}

/// Splits `s` into lines.
pub fn split_lines(s: &Vec<char>) -> (r: Vec<Vec<char>>)
    ensures
        views(r@) == lines(s@),
{
    let mut done: Vec<Vec<char>> = Vec::new();
    let mut cur: Vec<char> = Vec::new();
    let mut k: usize = 0;
    while k < s.len()
        invariant
            k <= s@.len(),
            (views(done@), cur@) == lines_state(s@.take(k as int)),
        decreases s@.len() - k,
    {
        let c = s[k];
        assert(s@.take(k + 1).drop_last() =~= s@.take(k as int));
        if c == '\n' {
            let ghost before = done@;
            let ghost cv = cur@;
            if cur.len() > 0 && cur[cur.len() - 1] == '\r' {
                cur.pop();
                assert(cur@ =~= strip_cr(cv));
            }
            let mut line: Vec<char> = Vec::new();
            std::mem::swap(&mut line, &mut cur);
            done.push(line);
            proof {
                assert(views(done@) =~= views(before).push(strip_cr(cv)));
                assert(cur@ =~= Seq::<char>::empty());
            }
        } else {
            cur.push(c);
        }
        k = k + 1;
    }
    assert(s@.take(s@.len() as int) =~= s@);
    if cur.len() > 0 {
        let ghost before = done@;
        done.push(cur);
        assert(views(done@) =~= views(before).push(lines_state(s@).1));
    }
    done
}

/// `s` with leading and trailing whitespace removed (`str::trim`).
pub open spec fn trim(s: Seq<char>) -> Seq<char>
    decreases s.len(),
{
    if s.len() > 0 && is_ws(s[0]) {
        trim(s.drop_first())
    } else if s.len() > 0 && is_ws(s.last()) {
        trim(s.drop_last())
    } else {
        s
    }
}

pub fn trim_chars(s: &Vec<char>) -> (r: Vec<char>)
    ensures
        r@ == trim(s@),
{
    let mut a: usize = 0;
    let mut b: usize = s.len();
    assert(s@.subrange(0, s@.len() as int) =~= s@);
    while a < b && is_whitespace(s[a])
        invariant
            a <= b == s@.len(),
            trim(s@) == trim(s@.subrange(a as int, b as int)),
        decreases b - a,
    {
        assert(s@.subrange(a as int, b as int).drop_first() =~= s@.subrange(a + 1, b as int));
        a = a + 1;
    }
    while a < b && is_whitespace(s[b - 1])
        invariant
            a <= b <= s@.len(),
            trim(s@) == trim(s@.subrange(a as int, b as int)),
            a < b ==> !is_ws(s@[a as int]),
        decreases b - a,
    {
        assert(s@.subrange(a as int, b as int).drop_last() =~= s@.subrange(a as int, b - 1));
        b = b - 1;
    }
    let mut r: Vec<char> = Vec::new();
    let mut k: usize = a;
    while k < b
        invariant
            a <= k <= b <= s@.len(),
            r@ == s@.subrange(a as int, k as int),
        decreases b - k,
    {
        r.push(s[k]);
        assert(r@ =~= s@.subrange(a as int, k + 1));
        k = k + 1;
    }
    r
}

/// The value of a non-empty run of ASCII digits.
pub open spec fn digits_value(d: Seq<char>) -> nat
    decreases d.len(),
{
    if d.len() == 0 {
        0
    } else {
        digits_value(d.drop_last()) * 10 + ((d.last() as int) - 48) as nat
    }
}

pub open spec fn is_digit(c: char) -> bool {
    '0' <= c && c <= '9'
}

/// `s` without one leading `+`.
pub open spec fn strip_plus(s: Seq<char>) -> Seq<char> {
    if s.len() > 0 && s[0] == '+' {
        s.drop_first()
    } else {
        s
    }
}

/// Every character of `d` is an ASCII digit.
pub open spec fn all_digits(d: Seq<char>) -> bool {
    forall|i: int| 0 <= i < d.len() ==> is_digit(d[i])
}

/// What `<u64 as FromStr>::from_str` returns: an optional `+`, then at least
/// one ASCII digit and nothing else, with a value that fits.
pub open spec fn parse_u64_spec(s: Seq<char>) -> Option<u64> {
    let d = strip_plus(s);
    if d.len() > 0 && all_digits(d) && digits_value(d) <= u64::MAX {
        Some(digits_value(d) as u64)
    } else {
        None
    }
}

/// As `parse_u64_spec`, for `u32`.
pub open spec fn parse_u32_spec(s: Seq<char>) -> Option<u32> {
    let d = strip_plus(s);
    if d.len() > 0 && all_digits(d) && digits_value(d) <= u32::MAX {
        Some(digits_value(d) as u32)
    } else {
        None
    }
}

pub proof fn lemma_digits_value_mono(d: Seq<char>, k: int)
    requires
        0 <= k <= d.len(),
        all_digits(d),
    ensures
        digits_value(d.take(k)) <= digits_value(d),
    decreases d.len() - k,
{
    if k < d.len() {
        lemma_digits_value_mono(d, k + 1);
        let t = d.take(k + 1);
        assert(t.drop_last() =~= d.take(k));
        assert(t.last() == d[k]);
        assert(is_digit(d[k]));
    } else {
        assert(d.take(k) =~= d);
    }
}

/// Parses `s` as `u64` with the rules of `str::parse::<u64>`.
pub fn parse_u64(s: &Vec<char>) -> (r: Option<u64>)
    ensures
        r == parse_u64_spec(s@),
{
    let start: usize = if s.len() > 0 && s[0] == '+' { 1 } else { 0 };
    let ghost d = strip_plus(s@);
    assert(d =~= s@.subrange(start as int, s@.len() as int));
    if start >= s.len() {
        return None;
    }
    let mut v: u64 = 0;
    let mut k: usize = start;
    while k < s.len()
        invariant
            start <= k <= s@.len(),
            d == s@.subrange(start as int, s@.len() as int),
            d == strip_plus(s@),
            forall|i: int| 0 <= i < k - start ==> is_digit(d[i]),
            v == digits_value(d.take(k - start)),
            d.len() > 0,
        decreases s@.len() - k,
    {
        let c = s[k];
        if !('0' <= c && c <= '9') {
            assert(d[k - start] == c);
            assert(!all_digits(d));
            return None;
        }
        let dv: u64 = ((c as u32) - 48) as u64;
        let ghost t = d.take(k + 1 - start);
        assert(t.drop_last() =~= d.take(k - start));
        assert(t.last() == c);
        assert(digits_value(t) == digits_value(d.take(k - start)) * 10 + dv);
        match v.checked_mul(10) {
            None => {
                proof {
                    if all_digits(d) {
                        lemma_digits_value_mono(d, k + 1 - start);
                    }
                }
                return None;
            },
            Some(m) => match m.checked_add(dv) {
                None => {
                    proof {
                        if all_digits(d) {
                            lemma_digits_value_mono(d, k + 1 - start);
                        }
                    }
                    return None;
                },
                Some(nv) => {
                    v = nv;
                },
            },
        }
        k = k + 1;
    }
    assert(d.take(d.len() as int) =~= d);
    Some(v)
}

} // verus!

verus! {

/// Parses `s` as `u32` with the rules of `str::parse::<u32>`.
pub fn parse_u32(s: &Vec<char>) -> (r: Option<u32>)
    ensures
        r == parse_u32_spec(s@),
{
    match parse_u64(s) {
        Some(v) => {
            if v <= u32::MAX as u64 {
                Some(v as u32)
            } else {
                None
            }
        },
        None => None,
    }
}

/// `p` is a prefix of `s`.
pub open spec fn starts_with(s: Seq<char>, p: Seq<char>) -> bool {
    p.len() <= s.len() && s.subrange(0, p.len() as int) == p
}

/// `p` occurs in `s` as a contiguous run.
pub open spec fn contains_run(s: Seq<char>, p: Seq<char>) -> bool {
    exists|i: int| 0 <= i && i + p.len() <= s.len() && #[trigger] s.subrange(i, i + p.len()) == p
}

pub fn has_prefix(s: &Vec<char>, p: &Vec<char>) -> (r: bool)
    ensures
        r == starts_with(s@, p@),
{
    if p.len() > s.len() {
        return false;
    }
    let mut k: usize = 0;
    while k < p.len()
        invariant
            p@.len() <= s@.len(),
            k <= p@.len(),
            forall|t: int| 0 <= t < k ==> s@[t] == p@[t],
        decreases p@.len() - k,
    {
        if s[k] != p[k] {
            assert(s@.subrange(0, p@.len() as int)[k as int] != p@[k as int]);
            return false;
        }
        k = k + 1;
    }
    assert(s@.subrange(0, p@.len() as int) =~= p@);
    true
}

/// Whether `s` starts with the characters of the literal `p`.
pub fn str_prefix(s: &Vec<char>, p: &str) -> (r: bool)
    ensures
        r == starts_with(s@, p@),
{
    let pv = chars_of(p);
    has_prefix(s, &pv)
}

pub fn has_run(s: &Vec<char>, p: &Vec<char>) -> (r: bool)
    ensures
        r == contains_run(s@, p@),
{
    if p.len() > s.len() {
        return false;
    }
    let mut i: usize = 0;
    let last = s.len() - p.len();
    assert(s@.len() <= usize::MAX);
    while i <= last
        invariant
            s@.len() <= usize::MAX,
            p@.len() <= s@.len(),
            last == s@.len() - p@.len(),
            i <= last + 1,
            forall|t: int| 0 <= t < i ==> #[trigger] s@.subrange(t, t + p@.len()) != p@,
        decreases s@.len() - i,
    {
        let mut k: usize = 0;
        let mut same = true;
        while k < p.len()
            invariant
                s@.len() <= usize::MAX,
                i <= last,
                last == s@.len() - p@.len(),
                i + p@.len() <= s@.len(),
                k <= p@.len(),
                same == (forall|t: int| 0 <= t < k ==> s@[i + t] == p@[t]),
            decreases p@.len() - k,
        {
            if s[i + k] != p[k] {
                same = false;
            }
            k = k + 1;
        }
        if same {
            assert(s@.subrange(i as int, i + p@.len()) =~= p@);
            return true;
        }
        assert(s@.subrange(i as int, i + p@.len()) != p@) by {
            let t = choose|t: int| 0 <= t < p@.len() && s@[i + t] != p@[t];
            assert(s@.subrange(i as int, i + p@.len())[t] != p@[t]);
        }
        i = i + 1;
    }
    false
}

/// Whether `c` occurs in `s`.
pub fn has_char(s: &Vec<char>, c: char) -> (r: bool)
    ensures
        r == s@.contains(c),
{
    let mut i: usize = 0;
    while i < s.len()
        invariant
            i <= s@.len(),
            forall|t: int| 0 <= t < i ==> s@[t] != c,
        decreases s@.len() - i,
    {
        if s[i] == c {
            assert(s@[i as int] == c);
            return true;
        }
        i = i + 1;
    }
    false
}

/// The characters after the first occurrence of `c` in `s`, if `c` occurs.
pub open spec fn after_first(s: Seq<char>, c: char) -> Option<Seq<char>>
    decreases s.len(),
{
    if s.len() == 0 {
        None
    } else if s[0] == c {
        Some(s.drop_first())
    } else {
        after_first(s.drop_first(), c)
    }
}

pub proof fn lemma_after_first_skip(s: Seq<char>, c: char, k: int)
    requires
        0 <= k <= s.len(),
        forall|t: int| 0 <= t < k ==> s[t] != c,
    ensures
        after_first(s, c) == after_first(s.skip(k), c),
    decreases k,
{
    if k > 0 {
        assert(s.drop_first().skip(k - 1) =~= s.skip(k));
        lemma_after_first_skip(s.drop_first(), c, k - 1);
    } else {
        assert(s.skip(0) =~= s);
    }
}

pub fn split_after_first(s: &Vec<char>, c: char) -> (r: Option<Vec<char>>)
    ensures
        match r {
            Some(v) => after_first(s@, c) == Some(v@),
            None => after_first(s@, c) is None,
        },
{
    let mut i: usize = 0;
    while i < s.len()
        invariant
            i <= s@.len(),
            forall|t: int| 0 <= t < i ==> s@[t] != c,
        decreases s@.len() - i,
    {
        if s[i] == c {
            proof {
                lemma_after_first_skip(s@, c, i as int);
                assert(s@.skip(i as int).drop_first() =~= s@.skip(i + 1));
            }
            let mut out: Vec<char> = Vec::new();
            let mut k: usize = i + 1;
            while k < s.len()
                invariant
                    i + 1 <= k <= s@.len(),
                    out@ == s@.subrange(i + 1, k as int),
                decreases s@.len() - k,
            {
                out.push(s[k]);
                assert(out@ =~= s@.subrange(i + 1, k + 1));
                k = k + 1;
            }
            assert(out@ =~= s@.skip(i + 1));
            return Some(out);
        }
        i = i + 1;
    }
    proof {
        lemma_after_first_skip(s@, c, s@.len() as int);
    }
    None
}

} // verus!

verus! {

/// The characters of `s` before the first occurrence of `c` (all of `s` when
/// `c` does not occur): the first item that `str::split(c)` yields.
pub open spec fn until_first(s: Seq<char>, c: char) -> Seq<char>
    decreases s.len(),
{
    if s.len() == 0 {
        s
    } else if s[0] == c {
        Seq::empty()
    } else {
        seq![s[0]] + until_first(s.drop_first(), c)
    }
}

pub proof fn lemma_until_first_prefix(s: Seq<char>, c: char, k: int)
    requires
        0 <= k <= s.len(),
        forall|t: int| 0 <= t < k ==> s[t] != c,
    ensures
        until_first(s, c) == s.take(k) + until_first(s.skip(k), c),
    decreases k,
{
    if k > 0 {
        lemma_until_first_prefix(s.drop_first(), c, k - 1);
        assert(s.drop_first().skip(k - 1) =~= s.skip(k));
        assert(s.take(k) =~= seq![s[0]] + s.drop_first().take(k - 1));
    } else {
        assert(s.take(0) =~= Seq::<char>::empty());
        assert(s.skip(0) =~= s);
    }
}

pub fn take_until(s: &Vec<char>, c: char) -> (r: Vec<char>)
    ensures
        r@ == until_first(s@, c),
{
    let mut r: Vec<char> = Vec::new();
    let mut i: usize = 0;
    while i < s.len() && s[i] != c
        invariant
            i <= s@.len(),
            r@ == s@.take(i as int),
            forall|t: int| 0 <= t < i ==> s@[t] != c,
        decreases s@.len() - i,
    {
        r.push(s[i]);
        assert(r@ =~= s@.take(i + 1));
        i = i + 1;
    }
    proof {
        lemma_until_first_prefix(s@, c, i as int);
        if i < s@.len() {
            assert(s@.skip(i as int)[0] == c);
        } else {
            assert(s@.skip(i as int) =~= Seq::<char>::empty());
        }
        assert(s@.take(i as int) + Seq::<char>::empty() =~= s@.take(i as int));
    }
    r
}

/// `ls` written out, each line followed by `'\n'`.
pub open spec fn join_lines(ls: Seq<Seq<char>>) -> Seq<char>
    decreases ls.len(),
{
    if ls.len() == 0 {
        Seq::empty()
    } else {
        join_lines(ls.drop_last()) + ls.last() + seq!['\n']
    }
}

/// Writes out `ls`, each line followed by `'\n'`.
pub fn join_lines_exec(ls: &Vec<Vec<char>>) -> (r: Vec<char>)
    ensures
        r@ == join_lines(views(ls@)),
{
    let mut out: Vec<char> = Vec::new();
    let ghost all = views(ls@);
    let mut k: usize = 0;
    while k < ls.len()
        invariant
            all == views(ls@),
            k <= all.len(),
            out@ == join_lines(all.take(k as int)),
        decreases all.len() - k,
    {
        let line = &ls[k];
        let ghost start = out@;
        let mut i: usize = 0;
        while i < line.len()
            invariant
                i <= line@.len(),
                out@ == start + line@.take(i as int),
            decreases line@.len() - i,
        {
            out.push(line[i]);
            assert(out@ =~= start + line@.take(i + 1));
            i = i + 1;
        }
        out.push('\n');
        proof {
            assert(line@.take(line@.len() as int) =~= line@);
            assert(all.take(k + 1).drop_last() =~= all.take(k as int));
            assert(all.take(k + 1).last() == line@);
            assert(out@ =~= join_lines(all.take(k + 1)));
        }
        k = k + 1;
    }
    assert(all.take(all.len() as int) =~= all);
    out
}

/// Extending the unfinished line by characters other than `'\n'`.
pub proof fn lemma_lines_state_extend(a: Seq<char>, l: Seq<char>)
    requires
        !l.contains('\n'),
    ensures
        lines_state(a + l) == (lines_state(a).0, lines_state(a).1 + l),
    decreases l.len(),
{
    if l.len() == 0 {
        assert(a + l =~= a);
        assert(lines_state(a).1 + l =~= lines_state(a).1);
    } else {
        let d = l.drop_last();
        assert(!d.contains('\n')) by {
            if d.contains('\n') {
                let i = choose|i: int| 0 <= i < d.len() && d[i] == '\n';
                assert(l[i] == '\n');
            }
        }
        lemma_lines_state_extend(a, d);
        assert((a + l).drop_last() =~= a + d);
        assert(l.last() != '\n') by {
            assert(l[l.len() - 1] == l.last());
        }
        assert(lines_state(a).1 + d + seq![l.last()] =~= lines_state(a).1 + l);
        assert((lines_state(a).1 + d).push(l.last()) =~= lines_state(a).1 + l);
    }
}

/// Lines written out without inner `'\n'` split back into themselves (each
/// without one trailing `'\r'`).
pub proof fn lemma_lines_of_join(ls: Seq<Seq<char>>)
    requires
        forall|i: int| 0 <= i < ls.len() ==> !(#[trigger] ls[i]).contains('\n'),
    ensures
        lines_state(join_lines(ls)) == (ls.map_values(|l: Seq<char>| strip_cr(l)), Seq::<char>::empty()),
        lines(join_lines(ls)) == ls.map_values(|l: Seq<char>| strip_cr(l)),
    decreases ls.len(),
{
    if ls.len() == 0 {
        assert(ls.map_values(|l: Seq<char>| strip_cr(l)) =~= Seq::<Seq<char>>::empty());
    } else {
        let d = ls.drop_last();
        assert forall|i: int| 0 <= i < d.len() implies !(#[trigger] d[i]).contains('\n') by {
            assert(d[i] == ls[i]);
        }
        lemma_lines_of_join(d);
        let a = join_lines(d);
        let l = ls.last();
        assert(!l.contains('\n')) by {
            assert(ls[ls.len() - 1] == l);
        }
        lemma_lines_state_extend(a, l);
        assert(Seq::<char>::empty() + l =~= l);
        let full = a + l + seq!['\n'];
        assert(full.drop_last() =~= a + l);
        assert(full.last() == '\n');
        assert(ls.map_values(|x: Seq<char>| strip_cr(x)) =~= d.map_values(|x: Seq<char>| strip_cr(x)).push(strip_cr(l)));
    }
}

/// Every character of `decimal(n)` is a digit, there is at least one, and
/// they spell `n`.
pub proof fn lemma_decimal_digits(n: nat)
    ensures
        decimal(n).len() >= 1,
        all_digits(decimal(n)),
        digits_value(decimal(n)) == n,
    decreases n,
{
    if n < 10 {
        assert(decimal(n) =~= seq![digit_char(n as int)]);
        assert(decimal(n).drop_last() =~= Seq::<char>::empty());
        assert((digit_char(n as int) as int) == 48 + n);
        assert(decimal(n).last() == digit_char(n as int));
        assert(digits_value(decimal(n).drop_last()) == 0);
        assert(digits_value(decimal(n)) == digits_value(decimal(n).drop_last()) * 10 + ((decimal(n).last() as int) - 48) as nat);
    } else {
        assert((digit_char((n % 10) as int) as int) == 48 + n % 10);
        lemma_decimal_digits(n / 10);
        let d = decimal(n / 10);
        assert(decimal(n).drop_last() =~= d);
        assert(decimal(n).last() == digit_char((n % 10) as int));
        assert(digits_value(decimal(n)) == digits_value(d) * 10 + ((decimal(n).last() as int) - 48) as nat);
        assert(n == (n / 10) * 10 + n % 10);
    }
}

/// Parsing the decimal rendering of a number gives the number back.
pub proof fn lemma_parse_decimal(n: u64)
    ensures
        parse_u64_spec(decimal(n as nat)) == Some(n),
        n <= u32::MAX ==> parse_u32_spec(decimal(n as nat)) == Some(n as u32),
{
    lemma_decimal_digits(n as nat);
    let d = decimal(n as nat);
    assert(is_digit(d[0]));
    assert(strip_plus(d) == d);
}

/// A decimal rendering holds no character other than digits.
pub proof fn lemma_decimal_excludes(n: nat, c: char)
    requires
        !is_digit(c),
    ensures
        !decimal(n).contains(c),
{
    lemma_decimal_digits(n);
    if decimal(n).contains(c) {
        let i = choose|i: int| 0 <= i < decimal(n).len() && decimal(n)[i] == c;
        assert(is_digit(decimal(n)[i]));
    }
}

/// `after_first` skips a prefix that does not hold the character.
pub proof fn lemma_after_first_append(x: Seq<char>, y: Seq<char>, c: char)
    requires
        !x.contains(c),
    ensures
        after_first(x + y, c) == after_first(y, c),
    decreases x.len(),
{
    if x.len() > 0 {
        assert(x[0] != c);
        assert((x + y).drop_first() =~= x.drop_first() + y);
        assert(!x.drop_first().contains(c)) by {
            if x.drop_first().contains(c) {
                let i = choose|i: int| 0 <= i < x.drop_first().len() && x.drop_first()[i] == c;
                assert(x[i + 1] == c);
            }
        }
        lemma_after_first_append(x.drop_first(), y, c);
    } else {
        assert(x + y =~= y);
    }
}

/// `until_first` keeps a prefix that does not hold the character.
pub proof fn lemma_until_first_append(x: Seq<char>, y: Seq<char>, c: char)
    requires
        !x.contains(c),
    ensures
        until_first(x + y, c) == x + until_first(y, c),
    decreases x.len(),
{
    if x.len() > 0 {
        assert(x[0] != c);
        assert((x + y).drop_first() =~= x.drop_first() + y);
        assert(!x.drop_first().contains(c)) by {
            if x.drop_first().contains(c) {
                let i = choose|i: int| 0 <= i < x.drop_first().len() && x.drop_first()[i] == c;
                assert(x[i + 1] == c);
            }
        }
        lemma_until_first_append(x.drop_first(), y, c);
        assert(seq![x[0]] + (x.drop_first() + until_first(y, c)) =~= x + until_first(y, c));
    } else {
        assert(x + y =~= y);
        assert(x + until_first(y, c) =~= until_first(y, c));
    }
}

/// A line that does not start with `p` still does not once a trailing
/// carriage return is removed.
pub proof fn lemma_strip_cr_prefix(l: Seq<char>, p: Seq<char>)
    requires
        !starts_with(l, p),
    ensures
        !starts_with(strip_cr(l), p),
{
    if starts_with(strip_cr(l), p) {
        assert(l.subrange(0, p.len() as int) =~= strip_cr(l).subrange(0, p.len() as int));
    }
}

} // verus!
