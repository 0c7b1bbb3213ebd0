//! Small verified text builders: decimal numbers, zero padding and
//! left-aligned label columns.

use vstd::prelude::*;

verus! {

/// The character for a decimal digit `d` (0..=9).
pub open spec fn digit_char(d: int) -> char {
    if d == 0 {
        '0'
    } else if d == 1 {
        '1'
    } else if d == 2 {
        '2'
    } else if d == 3 {
        '3'
    } else if d == 4 {
        '4'
    } else if d == 5 {
        '5'
    } else if d == 6 {
        '6'
    } else if d == 7 {
        '7'
    } else if d == 8 {
        '8'
    } else {
        '9'
    }
}

/// Shortest decimal spelling of `n` (`"0"` for zero, no leading zeros).
pub open spec fn decimal(n: nat) -> Seq<char>
    decreases n,
{
    if n < 10 {
        seq![digit_char(n as int)]
    } else {
        decimal(n / 10).push(digit_char((n % 10) as int))
    }
}

/// `count` copies of `c`.
pub open spec fn repeat_char(c: char, count: int) -> Seq<char>
    decreases count,
{
    if count <= 0 {
        Seq::empty()
    } else {
        repeat_char(c, count - 1).push(c)
    }
}

/// `n` in decimal, left-padded with `'0'` to at least `width` characters.
pub open spec fn zero_padded(n: nat, width: int) -> Seq<char> {
    repeat_char('0', width - decimal(n).len()) + decimal(n)
}

/// `s` followed by spaces up to at least `width` characters (a
/// left-aligned column).
pub open spec fn pad_right(s: Seq<char>, width: int) -> Seq<char> {
    s + repeat_char(' ', width - s.len())
}

/// Is `c` one of the ASCII digits `'0'..='9'`?
pub open spec fn is_digit(c: char) -> bool {
    '0' <= c && c <= '9'
}

/// Numeric value of an ASCII digit.
pub open spec fn digit_value(c: char) -> int {
    c as int - '0' as int
}

/// Numeric value of a run of ASCII digits (empty run is 0).
pub open spec fn digits_value(s: Seq<char>) -> int
    decreases s.len(),
{
    if s.len() == 0 {
        0
    } else {
        digits_value(s.drop_last()) * 10 + digit_value(s.last())
    }
}

/// Every character of `s` is an ASCII digit.
pub open spec fn all_digits(s: Seq<char>) -> bool {
    forall|i: int| 0 <= i < s.len() ==> is_digit(#[trigger] s[i])
}

/// `String::push`: appends one character.
#[verifier::external_body]
pub(crate) fn push_char(s: &mut String, c: char)
    ensures
        final(s)@ == old(s)@.push(c),
{
    s.push(c);
}

/// Appends a string slice.
pub fn push_str(s: &mut String, t: &str)
    ensures
        final(s)@ == old(s)@ + t@,
{
    s.append(t);
}

/// The digit character for `d`.
pub fn digit_to_char(d: u64) -> (c: char)
    requires
        d < 10,
    ensures
        c == digit_char(d as int),
{
    if d == 0 {
        '0'
    } else if d == 1 {
        '1'
    } else if d == 2 {
        '2'
    } else if d == 3 {
        '3'
    } else if d == 4 {
        '4'
    } else if d == 5 {
        '5'
    } else if d == 6 {
        '6'
    } else if d == 7 {
        '7'
    } else if d == 8 {
        '8'
    } else {
        '9'
    }
}

/// `10^k`.
pub open spec fn pow10(k: nat) -> nat
    decreases k,
{
    if k == 0 {
        1
    } else {
        10 * pow10((k - 1) as nat)
    }
}

/// A number below `10^k` (k >= 1) has at most `k` decimal digits.
pub proof fn lemma_decimal_len_bound(n: nat, k: nat)
    requires
        k >= 1,
        n < pow10(k),
    ensures
        1 <= decimal(n).len() <= k,
    decreases n,
{
    if n >= 10 {
        assert(k >= 2) by {
            if k == 1 {
                assert(pow10(1) == 10) by {
                    reveal_with_fuel(pow10, 2);
                }
            }
        };
        assert(n / 10 < pow10((k - 1) as nat));
        lemma_decimal_len_bound(n / 10, (k - 1) as nat);
    }
}

proof fn lemma_digit_char(d: int)
    requires
        0 <= d <= 9,
    ensures
        is_digit(digit_char(d)),
        digit_value(digit_char(d)) == d,
{
}

/// The decimal spelling of `n` is all digits and reads back as `n`.
pub proof fn lemma_decimal_reads_back(n: nat)
    ensures
        all_digits(decimal(n)),
        digits_value(decimal(n)) == n,
    decreases n,
{
    if n < 10 {
        lemma_digit_char(n as int);
        assert(seq![digit_char(n as int)].drop_last() =~= Seq::<char>::empty());
        assert(digits_value(Seq::<char>::empty()) == 0);
        assert(digits_value(seq![digit_char(n as int)]) == n);
    } else {
        lemma_decimal_reads_back(n / 10);
        lemma_digit_char((n % 10) as int);
        let d = decimal(n / 10);
        let e = d.push(digit_char((n % 10) as int));
        assert(e.drop_last() =~= d);
        assert(digits_value(e) == digits_value(d) * 10 + (n % 10));
        assert((n / 10) * 10 + n % 10 == n);
        assert forall|i: int| 0 <= i < e.len() implies is_digit(#[trigger] e[i]) by {
            if i < d.len() {
                assert(e[i] == d[i]);
            }
        };
    }
}

pub(crate) proof fn lemma_zeros(k: int)
    ensures
        repeat_char('0', k).len() == (if k > 0 {
            k
        } else {
            0
        }),
        all_digits(repeat_char('0', k)),
        digits_value(repeat_char('0', k)) == 0,
    decreases k,
{
    if k > 0 {
        lemma_zeros(k - 1);
        let r = repeat_char('0', k);
        assert(r.drop_last() =~= repeat_char('0', k - 1));
        assert forall|i: int| 0 <= i < r.len() implies is_digit(#[trigger] r[i]) by {
            if i < k - 1 {
                assert(r[i] == repeat_char('0', k - 1)[i]);
            }
        };
    }
}

proof fn lemma_leading_zeros(z: Seq<char>, b: Seq<char>)
    requires
        digits_value(z) == 0,
    ensures
        digits_value(z + b) == digits_value(b),
    decreases b.len(),
{
    if b.len() == 0 {
        assert(z + b =~= z);
    } else {
        assert((z + b).drop_last() =~= z + b.drop_last());
        lemma_leading_zeros(z, b.drop_last());
    }
}

/// A number of at most `width` digits, zero-padded to `width`, is exactly
/// `width` digits that read back as the number.
pub proof fn lemma_zero_padded_reads_back(n: nat, width: nat)
    requires
        width >= 1,
        n < pow10(width),
    ensures
        zero_padded(n, width as int).len() == width,
        all_digits(zero_padded(n, width as int)),
        digits_value(zero_padded(n, width as int)) == n,
{
    lemma_decimal_len_bound(n, width);
    lemma_decimal_reads_back(n);
    let z = repeat_char('0', width - decimal(n).len());
    lemma_zeros(width - decimal(n).len());
    lemma_leading_zeros(z, decimal(n));
    let p = zero_padded(n, width as int);
    assert forall|i: int| 0 <= i < p.len() implies is_digit(#[trigger] p[i]) by {
        if i < z.len() {
            assert(p[i] == z[i]);
        } else {
            assert(p[i] == decimal(n)[i - z.len()]);
        }
    };
}

/// Any number, zero-padded to any width, is a non-empty digit run that
/// reads back as the number.
pub proof fn lemma_zero_padded_value(n: nat, width: int)
    ensures
        zero_padded(n, width).len() > 0,
        all_digits(zero_padded(n, width)),
        digits_value(zero_padded(n, width)) == n,
{
    lemma_decimal_reads_back(n);
    let z = repeat_char('0', width - decimal(n).len());
    lemma_zeros(width - decimal(n).len());
    lemma_leading_zeros(z, decimal(n));
    let p = zero_padded(n, width);
    assert(decimal(n).len() > 0);
    assert forall|i: int| 0 <= i < p.len() implies is_digit(#[trigger] p[i]) by {
        if i < z.len() {
            assert(p[i] == z[i]);
        } else {
            assert(p[i] == decimal(n)[i - z.len()]);
        }
    };
}

/// Number of characters in the decimal spelling of `n`.
pub fn decimal_len(n: u64) -> (r: usize)
    ensures
        r as int == decimal(n as nat).len(),
        1 <= r <= 20,
    decreases n,
{
    proof {
        assert(pow10(20) == 100000000000000000000nat) by {
            reveal_with_fuel(pow10, 21);
        }
        lemma_decimal_len_bound(n as nat, 20);
    }
    if n < 10 {
        1
    } else {
        let k = decimal_len(n / 10);
        k + 1
    }
}

/// Appends `n` in decimal.
pub fn push_decimal(s: &mut String, n: u64)
    ensures
        final(s)@ == old(s)@ + decimal(n as nat),
    decreases n,
{
    if n >= 10 {
        push_decimal(s, n / 10);
    }
    push_char(s, digit_to_char(n % 10));
    assert(s@ =~= old(s)@ + decimal(n as nat));
}

/// Appends `count` copies of `c`.
pub fn push_repeat(s: &mut String, c: char, count: usize)
    ensures
        final(s)@ == old(s)@ + repeat_char(c, count as int),
{
    let mut i: usize = 0;
    while i < count
        invariant
            i <= count,
            s@ == old(s)@ + repeat_char(c, i as int),
        decreases count - i,
    {
        push_char(s, c);
        i = i + 1;
        assert(s@ =~= old(s)@ + repeat_char(c, i as int));
    }
}

/// Appends `n` in decimal, zero-padded to at least `width` characters.
pub fn push_zero_padded(s: &mut String, n: u64, width: usize)
    ensures
        final(s)@ == old(s)@ + zero_padded(n as nat, width as int),
{
    let len = decimal_len(n);
    let fill: usize = if width > len {
        width - len
    } else {
        0
    };
    push_repeat(s, '0', fill);
    push_decimal(s, n);
    assert(repeat_char('0', fill as int) =~= repeat_char('0', width - decimal(n as nat).len()))
        by {
        if width <= len {
            assert(repeat_char('0', 0) =~= Seq::<char>::empty());
        }
    };
    assert(s@ =~= old(s)@ + zero_padded(n as nat, width as int));
}

/// Appends `t` left-aligned in a column of `width` characters.
pub fn push_padded_right(s: &mut String, t: &str, width: usize)
    ensures
        final(s)@ == old(s)@ + pad_right(t@, width as int),
{
    let len = t.unicode_len();
    let fill: usize = if width > len {
        width - len
    } else {
        0
    };
    push_str(s, t);
    push_repeat(s, ' ', fill);
    assert(repeat_char(' ', fill as int) =~= repeat_char(' ', width - t@.len())) by {
        if width <= len {
            assert(repeat_char(' ', 0) =~= Seq::<char>::empty());
        }
    };
    assert(s@ =~= old(s)@ + pad_right(t@, width as int));
}

} // verus!

verus! {

/// What `{:?}` writes for a string: the text in double quotes with
/// quotes, backslashes and non-printable characters escaped.
pub uninterp spec fn debug_quoted(s: Seq<char>) -> Seq<char>;

/// `format!("{s:?}")` on a `&str`. Claims only that the result is a
/// function of the text (named `debug_quoted`); the escaping rules are
/// std's `str::escape_debug` and are not restated here.
#[verifier::external_body]
pub(crate) fn debug_quote(s: &str) -> (r: String)
    ensures
        r@ == debug_quoted(s@),
{
    format!("{s:?}")
}

/// `c` occurs at index `i` of `s` and nowhere before it.
pub open spec fn is_first(s: Seq<char>, c: char, i: int) -> bool {
    &&& 0 <= i < s.len()
    &&& s[i] == c
    &&& forall|j: int| 0 <= j < i ==> s[j] != c
}

/// Index of the first `c` in `s`, if any (what `split_once` splits at).
pub open spec fn first_index(s: Seq<char>, c: char) -> Option<int> {
    if exists|i: int| #[trigger] is_first(s, c, i) {
        Some(choose|i: int| #[trigger] is_first(s, c, i))
    } else {
        None
    }
}

/// Finds the first `c` in `s`.
pub fn find_char(s: &str, c: char) -> (r: Option<usize>)
    ensures
        r matches Some(i) ==> first_index(s@, c) == Some(i as int),
        r is None ==> first_index(s@, c) is None,
        r is None ==> forall|j: int| 0 <= j < s@.len() ==> s@[j] != c,
{
    let n = s.unicode_len();
    let mut i: usize = 0;
    while i < n
        invariant
            n == s@.len(),
            i <= n,
            forall|j: int| 0 <= j < i ==> s@[j] != c,
        decreases n - i,
    {
        if s.get_char(i) == c {
            proof {
                assert(is_first(s@, c, i as int));
                let k = choose|k: int| #[trigger] is_first(s@, c, k);
                assert(k == i as int) by {
                    if k < i {
                        assert(s@[k] != c);
                    } else if k > i {
                        assert(s@[i as int] != c);
                    }
                };
            }
            return Some(i);
        }
        i = i + 1;
    }
    proof {
        assert forall|k: int| !#[trigger] is_first(s@, c, k) by {
            if 0 <= k < s@.len() {
                assert(s@[k] != c);
            }
        };
    }
    None
}

/// Numeric value of a prefix grows with the prefix (all digits).
pub proof fn lemma_digits_value_prefix(s: Seq<char>, k: int, j: int)
    requires
        0 <= k <= j <= s.len(),
        all_digits(s.take(j)),
    ensures
        digits_value(s.take(k)) <= digits_value(s.take(j)),
    decreases j - k,
{
    if k < j {
        lemma_digits_value_prefix(s, k, j - 1);
        assert(s.take(j).drop_last() =~= s.take(j - 1));
        assert(is_digit(s.take(j)[j - 1]));
        assert(digits_value(s.take(j - 1)) >= 0) by {
            lemma_digits_value_nonneg(s.take(j - 1));
        };
    }
}

pub proof fn lemma_digits_value_nonneg(s: Seq<char>)
    requires
        all_digits(s),
    ensures
        digits_value(s) >= 0,
    decreases s.len(),
{
    if s.len() > 0 {
        assert(all_digits(s.drop_last()));
        lemma_digits_value_nonneg(s.drop_last());
        assert(is_digit(s[s.len() - 1]));
    }
}

/// A non-empty run of ASCII digits that fits in an `i64`.
pub open spec fn digits_i64(s: Seq<char>) -> Option<int> {
    if s.len() > 0 && all_digits(s) && digits_value(s) <= i64::MAX {
        Some(digits_value(s))
    } else {
        None
    }
}

/// `str::parse::<i64>` restricted to plain digit runs: `None` for an
/// empty run, any non-digit (signs included) or overflow.
pub fn parse_digits(s: &str) -> (r: Option<i64>)
    ensures
        r matches Some(v) ==> digits_i64(s@) == Some(v as int) && v >= 0,
        r is None ==> digits_i64(s@) is None,
{
    let n = s.unicode_len();
    if n == 0 {
        return None;
    }
    let mut v: i64 = 0;
    let mut i: usize = 0;
    while i < n
        invariant
            n == s@.len(),
            0 < n,
            i <= n,
            all_digits(s@.take(i as int)),
            v as int == digits_value(s@.take(i as int)),
            0 <= v,
        decreases n - i,
    {
        let c = s.get_char(i);
        if !('0' <= c && c <= '9') {
            proof {
                assert(s@[i as int] == c);
                assert(!all_digits(s@));
            }
            return None;
        }
        let d = (c as u32 - '0' as u32) as i64;
        proof {
            assert(s@.take(i + 1).drop_last() =~= s@.take(i as int));
            assert(all_digits(s@.take(i + 1)));
        }
        if v > (i64::MAX - d) / 10 {
            proof {
                assert(digits_value(s@.take(i + 1)) > i64::MAX);
                if all_digits(s@) {
                    assert(s@.take(n as int) =~= s@);
                    lemma_digits_value_prefix(s@, i + 1, n as int);
                }
            }
            return None;
        }
        v = v * 10 + d;
        i = i + 1;
    }
    assert(s@.take(n as int) =~= s@);
    Some(v)
}

/// A non-empty run of ASCII digits that fits in a `u64`.
pub open spec fn digits_u64(s: Seq<char>) -> Option<int> {
    if s.len() > 0 && all_digits(s) && digits_value(s) <= u64::MAX {
        Some(digits_value(s))
    } else {
        None
    }
}

/// `str::parse::<u64>` restricted to plain digit runs.
pub fn parse_digits_u64(s: &str) -> (r: Option<u64>)
    ensures
        r matches Some(v) ==> digits_u64(s@) == Some(v as int),
        r is None ==> digits_u64(s@) is None,
{
    let n = s.unicode_len();
    if n == 0 {
        return None;
    }
    let mut v: u64 = 0;
    let mut i: usize = 0;
    while i < n
        invariant
            n == s@.len(),
            0 < n,
            i <= n,
            all_digits(s@.take(i as int)),
            v as int == digits_value(s@.take(i as int)),
        decreases n - i,
    {
        let c = s.get_char(i);
        if !('0' <= c && c <= '9') {
            proof {
                assert(s@[i as int] == c);
                assert(!all_digits(s@));
            }
            return None;
        }
        let d = (c as u32 - '0' as u32) as u64;
        proof {
            assert(s@.take(i + 1).drop_last() =~= s@.take(i as int));
            assert(all_digits(s@.take(i + 1)));
        }
        if v > (u64::MAX - d) / 10 {
            proof {
                assert(digits_value(s@.take(i + 1)) > u64::MAX);
                if all_digits(s@) {
                    assert(s@.take(n as int) =~= s@);
                    lemma_digits_value_prefix(s@, i + 1, n as int);
                }
            }
            return None;
        }
        v = v * 10 + d;
        i = i + 1;
    }
    assert(s@.take(n as int) =~= s@);
    Some(v)
}

/// Lexicographic order of texts by character, a proper prefix first (the
/// order `str`'s `<` uses on these ASCII texts).
pub open spec fn text_lt(a: Seq<char>, b: Seq<char>) -> bool
    decreases a.len(),
{
    if a.len() == 0 {
        b.len() > 0
    } else if b.len() == 0 {
        false
    } else if a[0] != b[0] {
        a[0] < b[0]
    } else {
        text_lt(a.drop_first(), b.drop_first())
    }
}

/// Comparing two texts whose first parts have the same length: the first
/// parts decide unless they are equal.
pub proof fn lemma_text_lt_concat(p: Seq<char>, q: Seq<char>, r: Seq<char>, t: Seq<char>)
    requires
        p.len() == r.len(),
    ensures
        text_lt(p + q, r + t) == (text_lt(p, r) || (p == r && text_lt(q, t))),
    decreases p.len(),
{
    if p.len() == 0 {
        assert(p + q =~= q);
        assert(r + t =~= t);
        assert(p =~= r);
    } else {
        assert((p + q)[0] == p[0]);
        assert((r + t)[0] == r[0]);
        assert((p + q).drop_first() =~= p.drop_first() + q);
        assert((r + t).drop_first() =~= r.drop_first() + t);
        lemma_text_lt_concat(p.drop_first(), q, r.drop_first(), t);
        if p[0] == r[0] {
            if p.drop_first() == r.drop_first() {
                assert forall|i: int| 0 <= i < p.len() implies p[i] == r[i] by {
                    if i > 0 {
                        assert(p[i] == p.drop_first()[i - 1]);
                        assert(r[i] == r.drop_first()[i - 1]);
                    }
                };
                assert(p =~= r);
            }
            if p == r {
                assert(p.drop_first() =~= r.drop_first());
            }
        }
    }
}

/// Two digit runs of the same length: the text order is the numeric order,
/// and equal values mean equal texts.
pub proof fn lemma_digits_text_order(x: Seq<char>, y: Seq<char>)
    requires
        x.len() == y.len(),
        all_digits(x),
        all_digits(y),
    ensures
        text_lt(x, y) <==> digits_value(x) < digits_value(y),
        x == y <==> digits_value(x) == digits_value(y),
    decreases x.len(),
{
    if x.len() == 0 {
        assert(x =~= y);
    } else {
        let xd = x.drop_last();
        let yd = y.drop_last();
        assert(all_digits(xd));
        assert(all_digits(yd));
        lemma_digits_text_order(xd, yd);
        assert(x =~= xd + seq![x.last()]);
        assert(y =~= yd + seq![y.last()]);
        lemma_text_lt_concat(xd, seq![x.last()], yd, seq![y.last()]);
        assert(text_lt(seq![x.last()], seq![y.last()]) == (x.last() < y.last())) by {
            let e = Seq::<char>::empty();
            assert(seq![x.last()].drop_first() =~= e);
            assert(seq![y.last()].drop_first() =~= e);
            assert(!text_lt(e, e));
        };
        assert(is_digit(x[x.len() - 1]));
        assert(is_digit(y[y.len() - 1]));
        if x == y {
            assert(xd == yd);
        }
        if xd == yd && x.last() == y.last() {
            assert(x =~= y);
        }
    }
}

} // verus!
