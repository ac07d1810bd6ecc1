//! Character-level text utilities shared by the stores and widgets:
//! whitespace trimming, line splitting, decimal numbers, substring search
//! and string joining, each stated over `Seq<char>`.

use vstd::prelude::*;

verus! {

// ---------------------------------------------------------------------
// Conversions between strings and character vectors
// ---------------------------------------------------------------------

/// Copies the characters of a string slice into a vector.
pub fn chars_of(s: &str) -> (v: Vec<char>)
    ensures
        v@ == s@,
{
    let mut v: Vec<char> = Vec::new();
    for c in it: s.chars()
        invariant
            v@ == it.seq().take(it.index() as int),
            it.seq() == s@,
    {
        v.push(c);
    }
    v
}

/// `String: FromIterator<char>`: collects the characters, in order, into a
/// new string whose view is exactly the given sequence.
#[verifier::external_body]
pub fn string_of(v: &[char]) -> (s: String)
    ensures
        s@ == v@,
{
    v.iter().collect()
}

/// Copies `v[lo..hi]` into a fresh vector.
pub fn slice_of(v: &Vec<char>, lo: usize, hi: usize) -> (r: Vec<char>)
    requires
        lo <= hi <= v.len(),
    ensures
        r@ == v@.subrange(lo as int, hi as int),
{
    let mut r: Vec<char> = Vec::new();
    let mut i = lo;
    while i < hi
        invariant
            lo <= i <= hi <= v.len(),
            r@ == v@.subrange(lo as int, i as int),
        decreases hi - i,
    {
        r.push(v[i]);
        i = i + 1;
    }
    r
}

/// Appends all characters of `src` to `dst`.
pub fn extend(dst: &mut Vec<char>, src: &[char])
    ensures
        final(dst)@ == old(dst)@ + src@,
{
    let mut i: usize = 0;
    while i < src.len()
        invariant
            i <= src.len(),
            dst@ == old(dst)@ + src@.subrange(0, i as int),
        decreases src.len() - i,
    {
        dst.push(src[i]);
        i = i + 1;
    }
    assert(src@.subrange(0, src@.len() as int) =~= src@);
}

/// Appends the characters of a string slice to `dst`.
pub fn extend_str(dst: &mut Vec<char>, s: &str)
    ensures
        final(dst)@ == old(dst)@ + s@,
{
    let cs = chars_of(s);
    extend(dst, cs.as_slice());
}

/// Whether two character vectors hold the same characters.
pub fn chars_eq(a: &[char], b: &[char]) -> (r: bool)
    ensures
        r == (a@ == b@),
{
    if a.len() != b.len() {
        return false;
    }
    let mut i: usize = 0;
    while i < a.len()
        invariant
            a.len() == b.len(),
            i <= a.len(),
            forall|k: int| 0 <= k < i ==> a@[k] == b@[k],
        decreases a.len() - i,
    {
        if a[i] != b[i] {
            return false;
        }
        i = i + 1;
    }
    assert(a@ =~= b@);
    true
}

/// Whether the character `c` occurs in `s`.
pub open spec fn has_char(s: Seq<char>, c: char) -> bool {
    exists|i: int| 0 <= i < s.len() && s[i] == c
}

/// Whether the string `s` holds the character `c`.
pub fn str_has_char(s: &str, c: char) -> (r: bool)
    ensures
        r == has_char(s@, c),
{
    let v = chars_of(s);
    let mut i: usize = 0;
    while i < v.len()
        invariant
            v@ == s@,
            i <= v.len(),
            forall|k: int| 0 <= k < i ==> v@[k] != c,
        decreases v.len() - i,
    {
        if v[i] == c {
            return true;
        }
        i = i + 1;
    }
    false
}

// ---------------------------------------------------------------------
// Whitespace and trimming (`char::is_whitespace`, `str::trim`)
// ---------------------------------------------------------------------

/// The Unicode `White_Space` property, which `char::is_whitespace` tests.
pub open spec fn is_ws(c: char) -> bool {
    let u = c as u32;
    ||| 0x9 <= u <= 0xD
    ||| u == 0x20
    ||| u == 0x85
    ||| u == 0xA0
    ||| u == 0x1680
    ||| 0x2000 <= u <= 0x200A
    ||| u == 0x2028
    ||| u == 0x2029
    ||| u == 0x202F
    ||| u == 0x205F
    ||| u == 0x3000
}

/// Whether `c` is Unicode whitespace.
pub fn is_whitespace(c: char) -> (b: bool)
    ensures
        b == is_ws(c),
{
    let u = c as u32;
    (0x9 <= u && u <= 0xD) || u == 0x20 || u == 0x85 || u == 0xA0 || u == 0x1680 || (0x2000 <= u
        && u <= 0x200A) || u == 0x2028 || u == 0x2029 || u == 0x202F || u == 0x205F || u == 0x3000
}

/// `s` without its leading whitespace.
pub open spec fn trim_start(s: Seq<char>) -> Seq<char>
    decreases s.len(),
{
    if s.len() > 0 && is_ws(s[0]) {
        trim_start(s.drop_first())
    } else {
        s
    }
}

/// `s` without its trailing whitespace.
pub open spec fn trim_end(s: Seq<char>) -> Seq<char>
    decreases s.len(),
{
    if s.len() > 0 && is_ws(s.last()) {
        trim_end(s.drop_last())
    } else {
        s
    }
}

/// `s` without leading and trailing whitespace, as `str::trim` gives it.
pub open spec fn trim(s: Seq<char>) -> Seq<char> {
    trim_end(trim_start(s))
}

/// A sequence that neither starts nor ends with whitespace is its own trim.
pub proof fn lemma_trim_fixed(s: Seq<char>)
    requires
        s.len() > 0 ==> !is_ws(s[0]) && !is_ws(s.last()),
    ensures
        trim(s) == s,
{
}

/// Trimming the start keeps a non-whitespace character.
pub proof fn lemma_trim_start_keeps(s: Seq<char>, i: int) -> (k: int)
    requires
        0 <= i < s.len(),
        !is_ws(s[i]),
    ensures
        0 <= k < trim_start(s).len(),
        !is_ws(trim_start(s)[k]),
    decreases s.len(),
{
    if is_ws(s[0]) {
        assert(s.drop_first()[i - 1] == s[i]);
        lemma_trim_start_keeps(s.drop_first(), i - 1)
    } else {
        i
    }
}

/// Trimming the end keeps a non-whitespace character.
pub proof fn lemma_trim_end_keeps(s: Seq<char>, i: int) -> (k: int)
    requires
        0 <= i < s.len(),
        !is_ws(s[i]),
    ensures
        0 <= k < trim_end(s).len(),
        !is_ws(trim_end(s)[k]),
    decreases s.len(),
{
    if is_ws(s.last()) {
        assert(s.drop_last()[i] == s[i]);
        lemma_trim_end_keeps(s.drop_last(), i)
    } else {
        i
    }
}

/// Text with a non-whitespace character does not trim to nothing.
pub proof fn lemma_trim_nonempty(s: Seq<char>, i: int)
    requires
        0 <= i < s.len(),
        !is_ws(s[i]),
    ensures
        trim(s).len() > 0,
{
    let k = lemma_trim_start_keeps(s, i);
    lemma_trim_end_keeps(trim_start(s), k);
}

/// Trimming never lengthens a text.
pub proof fn lemma_trim_len(s: Seq<char>)
    ensures
        trim_start(s).len() <= s.len(),
        trim_end(s).len() <= s.len(),
    decreases s.len(),
{
    if s.len() > 0 {
        lemma_trim_len(s.drop_first());
        lemma_trim_len(s.drop_last());
    }
}

/// A nonempty text that is its own trim has no whitespace at either end.
pub proof fn lemma_trimmed_ends(s: Seq<char>)
    requires
        trim(s) == s,
        s.len() > 0,
    ensures
        !is_ws(s[0]),
        !is_ws(s.last()),
{
    lemma_trim_len(s);
    lemma_trim_len(trim_start(s));
    if is_ws(s[0]) {
        lemma_trim_len(s.drop_first());
        assert(trim_start(s).len() < s.len());
    }
    if is_ws(s.last()) {
        assert(trim_start(s) == s);
        lemma_trim_len(s.drop_last());
        assert(trim_end(s).len() < s.len());
    }
}

/// The trimmed text of `v`.
pub fn trim_vec(v: &Vec<char>) -> (r: Vec<char>)
    ensures
        r@ == trim(v@),
{
    let n = v.len();
    let mut lo: usize = 0;
    assert(v@.subrange(0, n as int) =~= v@);
    while lo < n && is_whitespace(v[lo])
        invariant
            n == v.len(),
            lo <= n,
            trim_start(v@) == trim_start(v@.subrange(lo as int, n as int)),
        decreases n - lo,
    {
        assert(v@.subrange(lo as int, n as int).drop_first() =~= v@.subrange(lo + 1, n as int));
        lo = lo + 1;
    }
    assert(trim_start(v@) == v@.subrange(lo as int, n as int));
    let mut hi: usize = n;
    while hi > lo && is_whitespace(v[hi - 1])
        invariant
            n == v.len(),
            lo <= hi <= n,
            trim_end(v@.subrange(lo as int, n as int)) == trim_end(v@.subrange(lo as int, hi as int)),
        decreases hi,
    {
        assert(v@.subrange(lo as int, hi as int).drop_last() =~= v@.subrange(lo as int, hi - 1));
        hi = hi - 1;
    }
    slice_of(v, lo, hi)
}

/// The trimmed text of a string slice, as a new string.
pub fn trim_str(s: &str) -> (r: String)
    ensures
        r@ == trim(s@),
{
    let v = chars_of(s);
    let t = trim_vec(&v);
    string_of(t.as_slice())
}

// ---------------------------------------------------------------------
// Lines (`str::lines`)
// ---------------------------------------------------------------------

/// Index of the first occurrence of `c` in `s`, or -1 when there is none.
pub open spec fn first_of(s: Seq<char>, c: char) -> int
    decreases s.len(),
{
    if s.len() == 0 {
        -1
    } else if s[0] == c {
        0
    } else {
        let r = first_of(s.drop_first(), c);
        if r < 0 {
            -1
        } else {
            r + 1
        }
    }
}

/// `first_of` is -1 or the index of the first `c` in `s`.
pub proof fn lemma_first_of_bounds(s: Seq<char>, c: char)
    ensures
        -1 <= first_of(s, c) < s.len(),
        first_of(s, c) >= 0 ==> s[first_of(s, c)] == c,
        first_of(s, c) < 0 ==> !has_char(s, c),
        first_of(s, c) >= 0 ==> forall|k: int| 0 <= k < first_of(s, c) ==> s[k] != c,
    decreases s.len(),
{
    if s.len() > 0 && s[0] != c {
        lemma_first_of_bounds(s.drop_first(), c);
        if first_of(s, c) < 0 {
            assert forall|i: int| 0 <= i < s.len() implies s[i] != c by {
                if i > 0 {
                    assert(s[i] == s.drop_first()[i - 1]);
                }
            }
        } else {
            assert forall|k: int| 0 <= k < first_of(s, c) implies s[k] != c by {
                if k > 0 {
                    assert(s[k] == s.drop_first()[k - 1]);
                }
            }
        }
    }
}

/// The first `c` sits after a `c`-free prefix.
pub proof fn lemma_first_of_at(s: Seq<char>, c: char, k: int)
    requires
        0 <= k < s.len(),
        s[k] == c,
        forall|j: int| 0 <= j < k ==> s[j] != c,
    ensures
        first_of(s, c) == k,
    decreases k,
{
    if k > 0 {
        lemma_first_of_at(s.drop_first(), c, k - 1);
    }
}

/// A sequence without `c` has no first `c`.
pub proof fn lemma_first_of_none(s: Seq<char>, c: char)
    requires
        !has_char(s, c),
    ensures
        first_of(s, c) == -1,
    decreases s.len(),
{
    if s.len() > 0 {
        assert(s[0] != c);
        assert forall|i: int| 0 <= i < s.drop_first().len() implies s.drop_first()[i] != c by {
            assert(s.drop_first()[i] == s[i + 1]);
        }
        lemma_first_of_none(s.drop_first(), c);
    }
}

/// Finds the first `c` in `v[from..]`, as an index of `v`.
pub fn find_char(v: &Vec<char>, from: usize, c: char) -> (r: Option<usize>)
    requires
        from <= v.len(),
    ensures
        first_of(v@.subrange(from as int, v@.len() as int), c) < 0 ==> r is None,
        first_of(v@.subrange(from as int, v@.len() as int), c) >= 0 ==> r == Some(
            (from + first_of(v@.subrange(from as int, v@.len() as int), c)) as usize,
        ),
        r matches Some(k) ==> from <= k < v.len() && v@[k as int] == c && forall|j: int|
            from <= j < k ==> v@[j] != c,
        r is None ==> forall|j: int| from <= j < v.len() ==> v@[j] != c,
{
    let ghost t = v@.subrange(from as int, v@.len() as int);
    let mut i = from;
    while i < v.len()
        invariant
            from <= i <= v.len(),
            t == v@.subrange(from as int, v@.len() as int),
            forall|j: int| from <= j < i ==> v@[j] != c,
        decreases v.len() - i,
    {
        if v[i] == c {
            proof {
                lemma_first_of_at(t, c, i - from);
            }
            return Some(i);
        }
        i = i + 1;
    }
    proof {
        assert forall|j: int| 0 <= j < t.len() implies t[j] != c by {}
        lemma_first_of_none(t, c);
    }
    None
}

/// `s` without one trailing carriage return.
pub open spec fn strip_cr(s: Seq<char>) -> Seq<char> {
    if s.len() > 0 && s.last() == '\r' {
        s.drop_last()
    } else {
        s
    }
}

/// The lines of `s` as `str::lines` yields them: split after each `'\n'`,
/// the `'\n'` and one `'\r'` before it removed, and no empty line after a
/// final `'\n'`.
pub open spec fn lines(s: Seq<char>) -> Seq<Seq<char>>
    decreases s.len(),
{
    if s.len() == 0 {
        seq![]
    } else {
        let k = first_of(s, '\n');
        proof {
            lemma_first_of_bounds(s, '\n');
        }
        if k < 0 {
            seq![s]
        } else {
            seq![strip_cr(s.subrange(0, k))] + lines(s.subrange(k + 1, s.len() as int))
        }
    }
}

/// Unfolds `lines` at a known first newline.
pub proof fn lemma_lines_step(s: Seq<char>, k: int)
    requires
        0 <= k < s.len(),
        s[k] == '\n',
        forall|j: int| 0 <= j < k ==> s[j] != '\n',
    ensures
        lines(s) == seq![strip_cr(s.subrange(0, k))] + lines(s.subrange(k + 1, s.len() as int)),
{
    lemma_first_of_at(s, '\n', k);
}

/// The views of a vector of character vectors.
pub open spec fn views(v: Seq<Vec<char>>) -> Seq<Seq<char>> {
    v.map_values(|x: Vec<char>| x@)
}

/// Splits text into lines as `str::lines` does.
pub fn split_lines(v: &Vec<char>) -> (out: Vec<Vec<char>>)
    ensures
        views(out@) == lines(v@),
{
    let n = v.len();
    let mut out: Vec<Vec<char>> = Vec::new();
    let mut start: usize = 0;
    let mut i: usize = 0;
    assert(v@.subrange(0, n as int) =~= v@);
    assert(views(out@) =~= Seq::<Seq<char>>::empty());
    while i < n
        invariant
            n == v.len(),
            start <= i <= n,
            views(out@) + lines(v@.subrange(start as int, n as int)) == lines(v@),
            forall|j: int| start <= j < i ==> v@[j] != '\n',
        decreases n - i,
    {
        if v[i] == '\n' {
            let ghost t = v@.subrange(start as int, n as int);
            proof {
                lemma_lines_step(t, i - start);
                assert(t.subrange(0, i - start) =~= v@.subrange(start as int, i as int));
                assert(t.subrange(i - start + 1, t.len() as int) =~= v@.subrange(i + 1, n as int));
            }
            let mut seg = slice_of(v, start, i);
            if seg.len() > 0 && seg[seg.len() - 1] == '\r' {
                seg.pop();
            }
            let ghost before = out@;
            out.push(seg);
            proof {
                assert(views(out@) =~= views(before) + seq![strip_cr(v@.subrange(start as int, i as int))]);
            }
            start = i + 1;
        }
        i = i + 1;
    }
    if start < n {
        let ghost t = v@.subrange(start as int, n as int);
        proof {
            assert forall|j: int| 0 <= j < t.len() implies t[j] != '\n' by {}
            lemma_first_of_none(t, '\n');
        }
        let seg = slice_of(v, start, n);
        let ghost before = out@;
        out.push(seg);
        proof {
            assert(views(out@) =~= views(before) + seq![t]);
        }
    } else {
        assert(views(out@) =~= views(out@) + lines(v@.subrange(start as int, n as int)));
    }
    out
}

// ---------------------------------------------------------------------
// Decimal numbers (`u64: Display`, `str::parse::<usize>`)
// ---------------------------------------------------------------------

/// The character of decimal digit `d`.
pub open spec fn digit_char(d: int) -> char {
    if d <= 0 {
        '0'
    } else if d == 1 {
        '1'
    } else if d == 2 {
        '2'
    } else if d == 3 {
        '3'
    } else if d == 4 {
        '4'
    } else if d == 5 {
        '5'
    } else if d == 6 {
        '6'
    } else if d == 7 {
        '7'
    } else if d == 8 {
        '8'
    } else {
        '9'
    }
}

/// Whether `c` is an ASCII decimal digit.
pub open spec fn is_digit(c: char) -> bool {
    '0' <= c && c <= '9'
}

/// The value of the decimal digit `c`.
pub open spec fn digit_value(c: char) -> nat {
    ((c as u32) - 48) as nat
}

/// The decimal representation of `n`, without sign or leading zeros.
pub open spec fn decimal(n: nat) -> Seq<char>
    decreases n,
{
    if n < 10 {
        seq![digit_char(n as int)]
    } else {
        decimal(n / 10).push(digit_char((n % 10) as int))
    }
}

/// Whether every character of `s` is a decimal digit.
pub open spec fn all_digits(s: Seq<char>) -> bool {
    forall|i: int| 0 <= i < s.len() ==> is_digit(#[trigger] s[i])
}

/// The number that the digit string `s` denotes (0 for the empty string).
pub open spec fn digits_value(s: Seq<char>) -> nat
    decreases s.len(),
{
    if s.len() == 0 {
        0
    } else {
        digits_value(s.drop_last()) * 10 + digit_value(s.last())
    }
}

/// The character of one decimal digit.
pub fn digit_to_char(d: u64) -> (c: char)
    requires
        d < 10,
    ensures
        c == digit_char(d as int),
        is_digit(c),
        digit_value(c) == d,
{
    if d == 0 {
        '0'
    } else if d == 1 {
        '1'
    } else if d == 2 {
        '2'
    } else if d == 3 {
        '3'
    } else if d == 4 {
        '4'
    } else if d == 5 {
        '5'
    } else if d == 6 {
        '6'
    } else if d == 7 {
        '7'
    } else if d == 8 {
        '8'
    } else {
        '9'
    }
}

/// Each digit character is a digit of the right value.
pub proof fn lemma_digit_char(d: int)
    requires
        0 <= d < 10,
    ensures
        is_digit(digit_char(d)),
        digit_value(digit_char(d)) == d,
{
}

/// The decimal representation is a nonempty digit string denoting `n`.
pub proof fn lemma_decimal(n: nat)
    ensures
        decimal(n).len() > 0,
        all_digits(decimal(n)),
        digits_value(decimal(n)) == n,
        n >= 10 ==> decimal(n).len() >= 2,
        n < 10 ==> decimal(n).len() == 1,
    decreases n,
{
    if n < 10 {
        lemma_digit_char(n as int);
        let d = decimal(n);
        assert(d.drop_last() =~= Seq::<char>::empty());
        assert(digits_value(d) == digits_value(d.drop_last()) * 10 + digit_value(d.last()));
    } else {
        lemma_decimal(n / 10);
        lemma_digit_char((n % 10) as int);
        assert(n == (n / 10) * 10 + n % 10);
        let d = decimal(n);
        assert(d.last() == digit_char((n % 10) as int));
        assert(digits_value(d) == digits_value(d.drop_last()) * 10 + digit_value(d.last()));
        assert(d.drop_last() =~= decimal(n / 10));
        assert forall|i: int| 0 <= i < d.len() implies is_digit(#[trigger] d[i]) by {
            if i < d.len() - 1 {
                assert(d[i] == decimal(n / 10)[i]);
            }
        }
    }
}

/// Appends the decimal representation of `n` to `out`.
pub fn push_decimal(out: &mut Vec<char>, n: u64)
    ensures
        final(out)@ == old(out)@ + decimal(n as nat),
    decreases n,
{
    if n < 10 {
        out.push(digit_to_char(n));
    } else {
        push_decimal(out, n / 10);
        out.push(digit_to_char(n % 10));
    }
    proof {
        if n >= 10 {
            assert(final(out)@ =~= old(out)@ + decimal(n as nat));
        } else {
            assert(final(out)@ =~= old(out)@ + decimal(n as nat));
        }
    }
}

/// `format!("{:02}", n)`: the decimal representation of `n`, padded with
/// zeros on the left to at least two characters.
pub open spec fn pad2(n: nat) -> Seq<char> {
    if n < 10 {
        seq!['0'] + decimal(n)
    } else {
        decimal(n)
    }
}

/// Appends `n` padded to two digits.
pub fn push_pad2(out: &mut Vec<char>, n: u64)
    ensures
        final(out)@ == old(out)@ + pad2(n as nat),
{
    if n < 10 {
        out.push('0');
    }
    push_decimal(out, n);
    assert(final(out)@ =~= old(out)@ + pad2(n as nat));
}

/// `n.to_string()` for an unsigned integer.
pub fn decimal_string(n: u64) -> (s: String)
    ensures
        s@ == decimal(n as nat),
{
    let mut v: Vec<char> = Vec::new();
    push_decimal(&mut v, n);
    assert(v@ =~= decimal(n as nat));
    string_of(v.as_slice())
}

/// The text with one leading `'+'` removed, as integer parsing skips it.
pub open spec fn unsigned_digits(s: Seq<char>) -> Seq<char> {
    if s.len() > 0 && s[0] == '+' {
        s.drop_first()
    } else {
        s
    }
}

/// What `str::parse::<usize>` gives: an optional `'+'` followed by at least
/// one decimal digit, denoting a value that fits in `usize`.
pub open spec fn parse_usize_spec(s: Seq<char>) -> Option<usize> {
    let d = unsigned_digits(s);
    if d.len() > 0 && all_digits(d) && digits_value(d) <= usize::MAX {
        Some(digits_value(d) as usize)
    } else {
        None
    }
}

/// Digit strings grow in value as digits are appended.
pub proof fn lemma_digits_value_prefix(s: Seq<char>, k: int)
    requires
        0 <= k <= s.len(),
    ensures
        digits_value(s.take(k)) <= digits_value(s),
    decreases s.len() - k,
{
    if k < s.len() {
        lemma_digits_value_prefix(s, k + 1);
        assert(s.take(k + 1).drop_last() =~= s.take(k));
    } else {
        assert(s.take(k) =~= s);
    }
}

/// Parses an unsigned integer as `str::parse::<usize>` does.
pub fn parse_usize(v: &Vec<char>) -> (r: Option<usize>)
    ensures
        r == parse_usize_spec(v@),
{
    let n = v.len();
    let mut i: usize = 0;
    if n > 0 && v[0] == '+' {
        i = 1;
    }
    let start = i;
    let ghost d = unsigned_digits(v@);
    assert(d =~= v@.subrange(start as int, n as int));
    if start == n {
        return None;
    }
    let mut acc: usize = 0;
    while i < n
        invariant
            n == v.len(),
            start <= i <= n,
            start < n,
            d == v@.subrange(start as int, n as int),
            d == unsigned_digits(v@),
            forall|k: int| start <= k < i ==> is_digit(v@[k]),
            acc == digits_value(d.take(i - start)),
        decreases n - i,
    {
        let c = v[i];
        if !('0' <= c && c <= '9') {
            proof {
                assert(d[i - start] == v@[i as int]);
                assert(!is_digit(d[i - start]));
                assert(!all_digits(d));
            }
            return None;
        }
        let dv = (c as u32 - 48) as usize;
        assert(d.take(i - start + 1).drop_last() =~= d.take(i - start));
        if acc > (usize::MAX - dv) / 10 {
            proof {
                assert(digits_value(d.take(i - start + 1)) == acc * 10 + dv);
                assert(acc * 10 + dv > usize::MAX) by (nonlinear_arith)
                    requires
                        acc > (usize::MAX - dv) / 10,
                        dv <= 9,
                ;
                lemma_digits_value_prefix(d, i - start + 1);
                assert(digits_value(d) > usize::MAX);
            }
            return None;
        }
        assert(acc * 10 + dv <= usize::MAX) by (nonlinear_arith)
            requires
                acc <= (usize::MAX - dv) / 10,
                dv <= 9,
        ;
        acc = acc * 10 + dv;
        i = i + 1;
    }
    assert(d.take(n - start) =~= d);
    Some(acc)
}

// ---------------------------------------------------------------------
// Substring search (`str::contains` with a string pattern)
// ---------------------------------------------------------------------

/// Whether `p` occurs in `s` starting at index `i`.
pub open spec fn occurs_at(s: Seq<char>, p: Seq<char>, i: int) -> bool {
    0 <= i && i + p.len() <= s.len() && s.subrange(i, i + p.len()) == p
}

/// Whether `p` occurs somewhere in `s` (the empty pattern occurs in every text).
pub open spec fn has_substring(s: Seq<char>, p: Seq<char>) -> bool {
    exists|i: int| occurs_at(s, p, i)
}

/// Whether `p` occurs in `s`.
pub fn contains_chars(s: &Vec<char>, p: &Vec<char>) -> (r: bool)
    ensures
        r == has_substring(s@, p@),
{
    let n = s.len();
    let m = p.len();
    if m > n {
        assert forall|i: int| !occurs_at(s@, p@, i) by {}
        return false;
    }
    let mut i: usize = 0;
    while i <= n - m
        invariant
            n == s.len(),
            m == p.len(),
            m <= n,
            i <= n - m + 1,
            forall|k: int| 0 <= k < i ==> !occurs_at(s@, p@, k),
        decreases n - m + 1 - i,
    {
        let mut j: usize = 0;
        while j < m && s[i + j] == p[j]
            invariant
                n == s.len(),
                m == p.len(),
                i + m <= n,
                j <= m,
                forall|k: int| 0 <= k < j ==> s@[i + k] == p@[k],
            decreases m - j,
        {
            j = j + 1;
        }
        if j == m {
            assert(s@.subrange(i as int, i + m) =~= p@);
            assert(occurs_at(s@, p@, i as int));
            return true;
        }
        assert(s@.subrange(i as int, i + m)[j as int] != p@[j as int]);
        i = i + 1;
    }
    assert forall|k: int| !occurs_at(s@, p@, k) by {
        if 0 <= k && k + m <= n {
            assert(k < i);
        }
    }
    false
}

// ---------------------------------------------------------------------
// Lower-casing (`str::to_lowercase`)
// ---------------------------------------------------------------------

/// The text that `str::to_lowercase` returns for `s`.
pub uninterp spec fn spec_lowercase(s: Seq<char>) -> Seq<char>;

/// `str::to_lowercase`: the Unicode lower-case mapping of `s`; this contract
/// names the result and says nothing more of it.
#[verifier::external_body]
pub fn to_lowercase(s: &str) -> (r: String)
    ensures
        r@ == spec_lowercase(s@),
{
    s.to_lowercase()
}

// ---------------------------------------------------------------------
// Joining (`[String]::join`)
// ---------------------------------------------------------------------

/// The parts joined with `sep` between neighbours.
pub open spec fn join(parts: Seq<Seq<char>>, sep: Seq<char>) -> Seq<char>
    decreases parts.len(),
{
    if parts.len() == 0 {
        seq![]
    } else if parts.len() == 1 {
        parts[0]
    } else {
        join(parts.drop_last(), sep) + sep + parts.last()
    }
}

/// The views of a sequence of strings.
pub open spec fn string_views(v: Seq<String>) -> Seq<Seq<char>> {
    v.map_values(|x: String| x@)
}

/// `args[from..].join(" ")`.
pub fn join_words(args: &Vec<String>, from: usize) -> (r: String)
    requires
        from <= args.len(),
    ensures
        r@ == join(string_views(args@.subrange(from as int, args@.len() as int)), seq![' ']),
{
    let n = args.len();
    let ghost parts = string_views(args@.subrange(from as int, n as int));
    let mut out: Vec<char> = Vec::new();
    let mut i = from;
    while i < n
        invariant
            n == args.len(),
            from <= i <= n,
            parts == string_views(args@.subrange(from as int, n as int)),
            out@ == join(parts.take(i - from), seq![' ']),
        decreases n - i,
    {
        let ghost before = out@;
        if i > from {
            out.push(' ');
        }
        extend_str(&mut out, args[i].as_str());
        proof {
            let t = parts.take(i - from + 1);
            assert(t.drop_last() =~= parts.take(i - from));
            assert(t.last() == args@[i as int]@);
            if i > from {
                assert(out@ =~= join(t, seq![' ']));
            } else {
                assert(out@ =~= join(t, seq![' ']));
            }
        }
        i = i + 1;
    }
    assert(parts.take(n - from) =~= parts);
    string_of(out.as_slice())
}

/// The lines, each followed by a `'\n'`.
pub open spec fn terminated(ls: Seq<Seq<char>>) -> Seq<char>
    decreases ls.len(),
{
    if ls.len() == 0 {
        seq![]
    } else {
        ls[0] + seq!['\n'] + terminated(ls.drop_first())
    }
}

/// Terminating one more line appends it and a newline.
pub proof fn lemma_terminated_push(ls: Seq<Seq<char>>, x: Seq<char>)
    ensures
        terminated(ls.push(x)) == terminated(ls) + x + seq!['\n'],
    decreases ls.len(),
{
    if ls.len() == 0 {
        assert(ls.push(x).drop_first() =~= Seq::<Seq<char>>::empty());
        assert(ls.push(x)[0] == x);
        assert(terminated(ls.push(x).drop_first()) =~= Seq::<char>::empty());
        assert(terminated(ls) =~= Seq::<char>::empty());
        assert(terminated(ls.push(x)) =~= x + seq!['\n']);
    } else {
        assert(ls.push(x).drop_first() =~= ls.drop_first().push(x));
        lemma_terminated_push(ls.drop_first(), x);
        assert(terminated(ls.push(x)) =~= terminated(ls) + x + seq!['\n']);
    }
}

/// Joining nonempty lines with newlines and adding a final newline
/// terminates each line.
pub proof fn lemma_join_terminated(ls: Seq<Seq<char>>)
    requires
        ls.len() > 0,
    ensures
        join(ls, seq!['\n']) + seq!['\n'] == terminated(ls),
    decreases ls.len(),
{
    let init = ls.drop_last();
    assert(ls =~= init.push(ls.last()));
    lemma_terminated_push(init, ls.last());
    if init.len() == 0 {
        assert(terminated(init) =~= Seq::<char>::empty());
        assert(join(ls, seq!['\n']) + seq!['\n'] =~= terminated(ls));
    } else {
        lemma_join_terminated(init);
        assert(join(ls, seq!['\n']) + seq!['\n'] =~= terminated(ls));
    }
}

/// Splitting terminated lines gives back the lines, when none holds a
/// newline or ends with a carriage return.
pub proof fn lemma_lines_terminated(ls: Seq<Seq<char>>)
    requires
        forall|i: int| 0 <= i < ls.len() ==> !has_char(#[trigger] ls[i], '\n'),
        forall|i: int| 0 <= i < ls.len() ==> strip_cr(#[trigger] ls[i]) == ls[i],
    ensures
        lines(terminated(ls)) == ls,
    decreases ls.len(),
{
    if ls.len() > 0 {
        let t = terminated(ls);
        let l0 = ls[0];
        assert(!has_char(ls[0], '\n'));
        assert(strip_cr(ls[0]) == ls[0]);
        assert forall|j: int| 0 <= j < l0.len() implies t[j] != '\n' by {
            assert(t[j] == l0[j]);
        }
        lemma_lines_step(t, l0.len() as int);
        assert(t.subrange(0, l0.len() as int) =~= l0);
        assert(t.subrange(l0.len() as int + 1, t.len() as int) =~= terminated(ls.drop_first()));
        assert forall|i: int| 0 <= i < ls.drop_first().len() implies !has_char(
            #[trigger] ls.drop_first()[i],
            '\n',
        ) by {
            assert(ls.drop_first()[i] == ls[i + 1]);
        }
        assert forall|i: int| 0 <= i < ls.drop_first().len() implies strip_cr(
            #[trigger] ls.drop_first()[i],
        ) == ls.drop_first()[i] by {
            assert(ls.drop_first()[i] == ls[i + 1]);
        }
        lemma_lines_terminated(ls.drop_first());
        assert(lines(t) =~= ls);
    } else {
        assert(terminated(ls) =~= Seq::<char>::empty());
    }
}

/// A lone newline is one empty line.
pub proof fn lemma_lines_newline()
    ensures
        lines(seq!['\n']) == seq![Seq::<char>::empty()],
{
    let t = seq!['\n'];
    lemma_lines_step(t, 0);
    assert(t.subrange(0, 0) =~= Seq::<char>::empty());
    assert(t.subrange(1, 1) =~= Seq::<char>::empty());
    assert(lines(t) =~= seq![Seq::<char>::empty()]);
}

/// A decimal digit is not whitespace.
pub proof fn lemma_digit_not_ws(c: char)
    requires
        is_digit(c),
    ensures
        !is_ws(c),
{
}

/// Whether the lower-cased text of `item` holds `f`.
pub fn lower_contains(item: &str, f: &Vec<char>) -> (r: bool)
    ensures
        r == has_substring(spec_lowercase(item@), f@),
{
    let low = to_lowercase(item);
    let lv = chars_of(low.as_str());
    contains_chars(&lv, f)
}

/// `s` with the character `c` appended (`String::push`).
pub fn pushed(s: &String, c: char) -> (r: String)
    ensures
        r@ == s@.push(c),
{
    let mut v = chars_of(s.as_str());
    v.push(c);
    string_of(v.as_slice())
}

/// `s` without its last character, if any (`String::pop`).
pub fn popped(s: &String) -> (r: String)
    ensures
        r@ == (if s@.len() > 0 { s@.drop_last() } else { s@ }),
{
    let mut v = chars_of(s.as_str());
    if v.len() > 0 {
        v.pop();
    }
    string_of(v.as_slice())
}

/// An owned copy of a string slice.
pub fn owned(s: &str) -> (r: String)
    ensures
        r@ == s@,
{
    let v = chars_of(s);
    string_of(v.as_slice())
}

} // verus!
