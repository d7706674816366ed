use vstd::prelude::*;

verus! {

/// The ASCII digit for `d` (0 through 9).
pub open spec fn digit_char(d: int) -> char {
    if d == 0 { '0' }
    else if d == 1 { '1' }
    else if d == 2 { '2' }
    else if d == 3 { '3' }
    else if d == 4 { '4' }
    else if d == 5 { '5' }
    else if d == 6 { '6' }
    else if d == 7 { '7' }
    else if d == 8 { '8' }
    else { '9' }
}

/// Decimal digits of `n`, most significant first, without leading zeros
/// ("0" for zero).
pub open spec fn decimal_digits(n: nat) -> Seq<char>
    decreases n,
{
    if n < 10 {
        seq![digit_char(n as int)]
    } else {
        decimal_digits(n / 10) + seq![digit_char((n % 10) as int)]
    }
}

/// `s`, with '0' characters put in front until it is at least `width` long.
pub open spec fn zero_padded(s: Seq<char>, width: int) -> Seq<char> {
    if s.len() >= width {
        s
    } else {
        Seq::new((width - s.len()) as nat, |i: int| '0') + s
    }
}

/// Decimal text of `n` padded with zeros to `width` characters, the sign
/// counted in the width: what `format!("{:0width$}", n)` gives.
pub open spec fn padded_decimal(n: int, width: int) -> Seq<char> {
    if n < 0 {
        seq!['-'] + zero_padded(decimal_digits((-n) as nat), width - 1)
    } else {
        zero_padded(decimal_digits(n as nat), width)
    }
}

fn digit_str(d: u64) -> (s: &'static str)
    requires
        d < 10,
    ensures
        s@ == seq![digit_char(d as int)],
{
    if d == 0 { proof { reveal_strlit("0"); } "0" }
    else if d == 1 { proof { reveal_strlit("1"); } "1" }
    else if d == 2 { proof { reveal_strlit("2"); } "2" }
    else if d == 3 { proof { reveal_strlit("3"); } "3" }
    else if d == 4 { proof { reveal_strlit("4"); } "4" }
    else if d == 5 { proof { reveal_strlit("5"); } "5" }
    else if d == 6 { proof { reveal_strlit("6"); } "6" }
    else if d == 7 { proof { reveal_strlit("7"); } "7" }
    else if d == 8 { proof { reveal_strlit("8"); } "8" }
    else { proof { reveal_strlit("9"); } "9" }
}

/// Decimal text of `n`, as `n.to_string()` writes it.
pub fn decimal_string(n: u64) -> (s: String)
    ensures
        s@ == decimal_digits(n as nat),
{
    let mut s = String::from_str(digit_str(n % 10));
    let mut v: u64 = n / 10;
    while v > 0
        invariant
            decimal_digits(n as nat) == (if v == 0 { Seq::<char>::empty() } else { decimal_digits(v as nat) }) + s@,
        decreases v,
    {
        let head = String::from_str(digit_str(v % 10));
        s = head.concat(s.as_str());
        v = v / 10;
    }
    s
}

/// Decimal text of `n` padded with zeros to `width` characters, the sign
/// included in the width.
pub fn padded_decimal_string(n: i64, width: usize) -> (s: String)
    ensures
        s@ == padded_decimal(n as int, width as int),
{
    let negative = n < 0;
    let magnitude: u64 = if negative { ((-(n + 1)) as u64) + 1 } else { n as u64 };
    let digits = decimal_string(magnitude);
    let target: usize = if negative { if width > 0 { width - 1 } else { 0 } } else { width };
    let mut len: usize = digits.unicode_len();
    let mut body = digits;
    let ghost digits_view = body@;
    while len < target
        invariant
            len == body@.len(),
            digits_view.len() <= len,
            len <= target || digits_view.len() == len,
            body@ == Seq::new((len - digits_view.len()) as nat, |i: int| '0') + digits_view,
        decreases target - len,
    {
        proof { reveal_strlit("0"); }
        let zero = String::from_str("0");
        body = zero.concat(body.as_str());
        len = len + 1;
        assert(body@ =~= Seq::new((len - digits_view.len()) as nat, |i: int| '0') + digits_view);
    }
    proof {
        if digits_view.len() >= target {
            assert(body@ =~= digits_view);
        }
    }
    if negative {
        proof { reveal_strlit("-"); }
        let sign = String::from_str("-");
        let r = sign.concat(body.as_str());
        r
    } else {
        body
    }
}

pub open spec fn is_ascii_digit(c: char) -> bool {
    48 <= (c as u32) <= 57
}

/// Value of a sequence of ASCII digits read in base ten.
pub open spec fn digits_value(s: Seq<char>) -> int
    decreases s.len(),
{
    if s.len() == 0 {
        0
    } else {
        10 * digits_value(s.drop_last()) + ((s.last() as u32) - 48)
    }
}

/// Number of ASCII digits that `s` starts with.
pub open spec fn leading_digit_count(s: Seq<char>) -> nat
    decreases s.len(),
{
    if s.len() == 0 || !is_ascii_digit(s[0]) {
        0
    } else {
        1 + leading_digit_count(s.drop_first())
    }
}

/// The number that the text `s` starts with: the value of its leading run of
/// ASCII digits. `None` where `s` does not start with a digit, or where that
/// value does not fit in an `i64`. What follows the digits is not read.
pub open spec fn leading_number(s: Seq<char>) -> Option<i64> {
    let k = leading_digit_count(s);
    if k == 0 {
        None
    } else if digits_value(s.take(k as int)) <= i64::MAX {
        Some(digits_value(s.take(k as int)) as i64)
    } else {
        None
    }
}

proof fn lemma_digits_value_nonneg(s: Seq<char>)
    requires
        forall|i: int| 0 <= i < s.len() ==> is_ascii_digit(#[trigger] s[i]),
    ensures
        digits_value(s) >= 0,
    decreases s.len(),
{
    if s.len() > 0 {
        lemma_digits_value_nonneg(s.drop_last());
    }
}

/// A run of `i` digits at the front of `s`, ended by the end of `s` or by a
/// character that is not a digit, is the leading run.
proof fn lemma_leading_digit_count(s: Seq<char>, i: int)
    requires
        0 <= i <= s.len(),
        forall|k: int| 0 <= k < i ==> is_ascii_digit(#[trigger] s[k]),
        i == s.len() || !is_ascii_digit(s[i]),
    ensures
        leading_digit_count(s) == i,
    decreases i,
{
    if i > 0 {
        let t = s.drop_first();
        assert forall|k: int| 0 <= k < i - 1 implies is_ascii_digit(#[trigger] t[k]) by {
            assert(t[k] == s[k + 1]);
        }
        if i < s.len() {
            assert(t[i - 1] == s[i]);
        }
        lemma_leading_digit_count(t, i - 1);
    }
}

proof fn lemma_decimal_digits_value(n: nat)
    ensures
        digits_value(decimal_digits(n)) == n,
        forall|i: int| 0 <= i < decimal_digits(n).len() ==> is_ascii_digit(#[trigger] decimal_digits(n)[i]),
    decreases n,
{
    let d = decimal_digits(n);
    if n < 10 {
        assert(d.drop_last() =~= Seq::<char>::empty());
        assert(('0' as u32) == 48 && ('1' as u32) == 49 && ('2' as u32) == 50 && ('3' as u32) == 51
            && ('4' as u32) == 52 && ('5' as u32) == 53 && ('6' as u32) == 54 && ('7' as u32) == 55
            && ('8' as u32) == 56 && ('9' as u32) == 57);
        assert(digits_value(Seq::<char>::empty()) == 0);
        assert(d.last() == digit_char(n as int));
        assert(((digit_char(n as int) as u32) - 48) == n);
    } else {
        lemma_decimal_digits_value(n / 10);
        let m = (n % 10) as int;
        assert(d.drop_last() =~= decimal_digits(n / 10));
        assert(('0' as u32) == 48 && ('1' as u32) == 49 && ('2' as u32) == 50 && ('3' as u32) == 51
            && ('4' as u32) == 52 && ('5' as u32) == 53 && ('6' as u32) == 54 && ('7' as u32) == 55
            && ('8' as u32) == 56 && ('9' as u32) == 57);
        assert(((digit_char(m) as u32) - 48) == m);
        assert(d.last() == digit_char(m));
        assert forall|i: int| 0 <= i < d.len() implies is_ascii_digit(#[trigger] d[i]) by {
            if i < d.len() - 1 {
                assert(d[i] == decimal_digits(n / 10)[i]);
            }
        }
    }
}

proof fn lemma_zeros_in_front(k: nat, s: Seq<char>)
    ensures
        digits_value(Seq::new(k, |i: int| '0') + s) == digits_value(s),
    decreases s.len(), k,
{
    let z = Seq::new(k, |i: int| '0');
    if s.len() == 0 {
        assert(z + s =~= z);
        if k > 0 {
            assert(z.drop_last() =~= Seq::new((k - 1) as nat, |i: int| '0'));
            lemma_zeros_in_front((k - 1) as nat, s);
            assert(Seq::new((k - 1) as nat, |i: int| '0') + s =~= Seq::new((k - 1) as nat, |i: int| '0'));
            assert(('0' as u32) == 48);
        }
    } else {
        assert((z + s).drop_last() =~= z + s.drop_last());
        lemma_zeros_in_front(k, s.drop_last());
    }
}

/// A number written with zeros in front up to `width` and followed by `-`
/// reads back as that number.
pub proof fn lemma_padded_number_reads_back(n: nat, width: int, rest: Seq<char>)
    requires
        n <= i64::MAX,
    ensures
        leading_number(zero_padded(decimal_digits(n), width) + (seq!['-'] + rest)) == Some(n as i64),
{
    let digits = decimal_digits(n);
    let z = zero_padded(digits, width);
    let text = z + (seq!['-'] + rest);
    lemma_decimal_digits_value(n);
    let k: nat = if digits.len() >= width { 0 } else { (width - digits.len()) as nat };
    assert(z =~= Seq::new(k, |i: int| '0') + digits);
    lemma_zeros_in_front(k, digits);
    assert(('0' as u32) == 48 && ('-' as u32) == 45);
    assert forall|i: int| 0 <= i < z.len() implies is_ascii_digit(#[trigger] text[i]) by {
        assert(text[i] == z[i]);
        if i >= k {
            assert(z[i] == digits[i - k]);
        }
    }
    assert(text[z.len() as int] == '-');
    lemma_leading_digit_count(text, z.len() as int);
    assert(text.take(z.len() as int) =~= z);
}

/// `x` comes before `y` in lexicographic order of character codes (the
/// order in which Rust compares texts of ASCII characters); both have the
/// same length.
pub open spec fn lex_less(x: Seq<char>, y: Seq<char>) -> bool
    decreases x.len(),
{
    if x.len() == 0 || y.len() == 0 {
        false
    } else {
        lex_less(x.drop_last(), y.drop_last())
            || (x.drop_last() == y.drop_last() && (x.last() as u32) < (y.last() as u32))
    }
}

proof fn lemma_concat_eq(a1: Seq<char>, b1: Seq<char>, a2: Seq<char>, b2: Seq<char>)
    requires
        a1.len() == a2.len(),
        b1.len() == b2.len(),
    ensures
        (a1 + b1 == a2 + b2) == (a1 == a2 && b1 == b2),
{
    if a1 + b1 == a2 + b2 {
        assert forall|i: int| 0 <= i < a1.len() implies a1[i] == a2[i] by {
            assert((a1 + b1)[i] == (a2 + b2)[i]);
        }
        assert(a1 =~= a2);
        assert forall|i: int| 0 <= i < b1.len() implies b1[i] == b2[i] by {
            assert((a1 + b1)[i + a1.len()] == (a2 + b2)[i + a1.len()]);
        }
        assert(b1 =~= b2);
    }
}

/// Comparing two texts made of equal-length parts compares the first
/// parts, then, where they are equal, the second.
pub proof fn lemma_lex_concat(a1: Seq<char>, b1: Seq<char>, a2: Seq<char>, b2: Seq<char>)
    requires
        a1.len() == a2.len(),
        b1.len() == b2.len(),
    ensures
        lex_less(a1 + b1, a2 + b2) == (lex_less(a1, a2) || (a1 == a2 && lex_less(b1, b2))),
        (a1 + b1 == a2 + b2) == (a1 == a2 && b1 == b2),
    decreases b1.len(),
{
    lemma_concat_eq(a1, b1, a2, b2);
    if b1.len() == 0 {
        assert(a1 + b1 =~= a1);
        assert(a2 + b2 =~= a2);
    } else {
        lemma_lex_concat(a1, b1.drop_last(), a2, b2.drop_last());
        assert((a1 + b1).drop_last() =~= a1 + b1.drop_last());
        assert((a2 + b2).drop_last() =~= a2 + b2.drop_last());
        assert((a1 + b1).last() == b1.last());
        assert((a2 + b2).last() == b2.last());
        if a1.len() == 0 {
            assert(!lex_less(a1, a2));
        }
    }
}

/// Two digits of a number below 100, written with a zero in front where
/// needed.
proof fn lemma_two_digits(n: nat)
    requires
        n < 100,
    ensures
        padded_decimal(n as int, 2) == seq![digit_char((n / 10) as int), digit_char((n % 10) as int)],
{
    reveal_with_fuel(decimal_digits, 2);
    if n < 10 {
        assert(zero_padded(decimal_digits(n), 2) =~= seq![digit_char(0), digit_char(n as int)]);
    } else {
        assert(decimal_digits(n / 10) == seq![digit_char((n / 10) as int)]);
        assert(zero_padded(decimal_digits(n), 2) =~= seq![digit_char((n / 10) as int), digit_char((n % 10) as int)]);
    }
}

proof fn lemma_small_decimal_digits(n: nat)
    requires
        n < 10000,
    ensures
        n < 10 ==> decimal_digits(n) == seq![digit_char(n as int)],
        10 <= n < 100 ==> decimal_digits(n) == seq![digit_char((n / 10) as int), digit_char((n % 10) as int)],
        100 <= n < 1000 ==> decimal_digits(n) == seq![
            digit_char((n / 100) as int), digit_char((n / 10 % 10) as int), digit_char((n % 10) as int)],
        1000 <= n ==> decimal_digits(n) == seq![
            digit_char((n / 1000) as int), digit_char((n / 100 % 10) as int),
            digit_char((n / 10 % 10) as int), digit_char((n % 10) as int)],
    decreases n,
{
    if n >= 10 {
        lemma_small_decimal_digits(n / 10);
        if n < 100 {
            assert(decimal_digits(n) =~= seq![digit_char((n / 10) as int), digit_char((n % 10) as int)]);
        } else if n < 1000 {
            assert(decimal_digits(n) =~= seq![
                digit_char((n / 100) as int), digit_char((n / 10 % 10) as int), digit_char((n % 10) as int)]);
        } else {
            assert(decimal_digits(n) =~= seq![
                digit_char((n / 1000) as int), digit_char((n / 100 % 10) as int),
                digit_char((n / 10 % 10) as int), digit_char((n % 10) as int)]);
        }
    }
}

/// A number below 10000 written in four digits is its hundreds and its
/// rest, each in two digits.
#[verifier::spinoff_prover]
proof fn lemma_four_digits(n: nat)
    requires
        n < 10000,
    ensures
        padded_decimal(n as int, 4) == padded_decimal((n / 100) as int, 2) + padded_decimal((n % 100) as int, 2),
{
    lemma_small_decimal_digits(n);
    lemma_two_digits(n / 100);
    lemma_two_digits(n % 100);
    let hi = n / 100;
    let lo = n % 100;
    assert(hi / 10 == n / 1000 && hi % 10 == n / 100 % 10 && lo / 10 == n / 10 % 10 && lo % 10 == n % 10);
    assert(padded_decimal(n as int, 4) =~= seq![
        digit_char((n / 1000) as int), digit_char((n / 100 % 10) as int),
        digit_char((n / 10 % 10) as int), digit_char((n % 10) as int)]);
    assert(padded_decimal((n / 100) as int, 2) + padded_decimal((n % 100) as int, 2) =~= seq![
        digit_char((n / 1000) as int), digit_char((n / 100 % 10) as int),
        digit_char((n / 10 % 10) as int), digit_char((n % 10) as int)]);
}

proof fn lemma_digit_code(d: int)
    requires
        0 <= d < 10,
    ensures
        (digit_char(d) as u32) == 48 + d,
{
    assert(('0' as u32) == 48 && ('1' as u32) == 49 && ('2' as u32) == 50 && ('3' as u32) == 51
        && ('4' as u32) == 52 && ('5' as u32) == 53 && ('6' as u32) == 54 && ('7' as u32) == 55
        && ('8' as u32) == 56 && ('9' as u32) == 57);
}

/// Two-digit texts of numbers below 100 compare as the numbers do.
pub proof fn lemma_two_digit_order(a: nat, b: nat)
    requires
        a < 100,
        b < 100,
    ensures
        padded_decimal(a as int, 2).len() == 2,
        padded_decimal(b as int, 2).len() == 2,
        lex_less(padded_decimal(a as int, 2), padded_decimal(b as int, 2)) == (a < b),
        (padded_decimal(a as int, 2) == padded_decimal(b as int, 2)) == (a == b),
{
    lemma_two_digits(a);
    lemma_two_digits(b);
    lemma_digit_code((a / 10) as int);
    lemma_digit_code((a % 10) as int);
    lemma_digit_code((b / 10) as int);
    lemma_digit_code((b % 10) as int);
    reveal_with_fuel(lex_less, 3);
    let x = padded_decimal(a as int, 2);
    let y = padded_decimal(b as int, 2);
    assert(x.drop_last() =~= seq![digit_char((a / 10) as int)]);
    assert(y.drop_last() =~= seq![digit_char((b / 10) as int)]);
    assert(x.drop_last().drop_last() =~= Seq::<char>::empty());
    assert(y.drop_last().drop_last() =~= Seq::<char>::empty());
    assert(!lex_less(x.drop_last().drop_last(), y.drop_last().drop_last()));
    if x == y {
        assert(x[0] == y[0] && x[1] == y[1]);
    }
    if a == b {
        assert(x =~= y);
    }
}

/// Four-digit texts of numbers below 10000 compare as the numbers do.
pub proof fn lemma_four_digit_order(a: nat, b: nat)
    requires
        a < 10000,
        b < 10000,
    ensures
        padded_decimal(a as int, 4).len() == 4,
        padded_decimal(b as int, 4).len() == 4,
        lex_less(padded_decimal(a as int, 4), padded_decimal(b as int, 4)) == (a < b),
        (padded_decimal(a as int, 4) == padded_decimal(b as int, 4)) == (a == b),
{
    lemma_four_digits(a);
    lemma_four_digits(b);
    lemma_two_digit_order(a / 100, b / 100);
    lemma_two_digit_order(a % 100, b % 100);
    lemma_lex_concat(
        padded_decimal((a / 100) as int, 2), padded_decimal((a % 100) as int, 2),
        padded_decimal((b / 100) as int, 2), padded_decimal((b % 100) as int, 2),
    );
}

/// Reads the number that `s` starts with (see `leading_number`).
pub fn parse_leading_number(s: &str) -> (r: Option<i64>)
    ensures
        r == leading_number(s@),
{
    let n = s.unicode_len();
    let limit: u64 = 9223372036854775807;
    let mut acc: u64 = 0;
    let mut overflow = false;
    let mut i: usize = 0;
    while i < n
        invariant_except_break
            i <= n,
            n == s@.len(),
            limit == 9223372036854775807u64,
            forall|k: int| 0 <= k < i ==> is_ascii_digit(#[trigger] s@[k]),
            !overflow ==> acc == digits_value(s@.take(i as int)),
            !overflow ==> acc <= limit,
            overflow ==> digits_value(s@.take(i as int)) > limit,
        ensures
            i <= n,
            n == s@.len(),
            forall|k: int| 0 <= k < i ==> is_ascii_digit(#[trigger] s@[k]),
            i == n || !is_ascii_digit(s@[i as int]),
            !overflow ==> acc == digits_value(s@.take(i as int)),
            !overflow ==> acc <= 9223372036854775807u64,
            overflow ==> digits_value(s@.take(i as int)) > 9223372036854775807u64,
        decreases n - i,
    {
        let c = s.get_char(i);
        let code = c as u32;
        if !(48 <= code && code <= 57) {
            break;
        }
        let d: u64 = (code - 48) as u64;
        let ghost prefix = s@.take(i as int);
        assert(s@.take(i + 1).drop_last() =~= prefix);
        proof {
            assert forall|k: int| 0 <= k < prefix.len() implies is_ascii_digit(#[trigger] prefix[k]) by {
                assert(prefix[k] == s@[k]);
            }
            lemma_digits_value_nonneg(prefix);
        }
        if !overflow {
            if acc > (limit - d) / 10 {
                overflow = true;
            } else {
                acc = acc * 10 + d;
            }
        }
        i = i + 1;
    }
    proof {
        lemma_leading_digit_count(s@, i as int);
    }
    if i == 0 || overflow {
        None
    } else {
        Some(acc as i64)
    }
}

/// Whether two texts are equal, character by character.
pub fn str_eq(a: &str, b: &str) -> (r: bool)
    ensures
        r == (a@ == b@),
{
    let n = a.unicode_len();
    if n != b.unicode_len() {
        return false;
    }
    let mut i: usize = 0;
    while i < n
        invariant
            n == a@.len(),
            n == b@.len(),
            i <= n,
            forall|k: int| 0 <= k < i ==> a@[k] == b@[k],
        decreases n - i,
    {
        if a.get_char(i) != b.get_char(i) {
            return false;
        }
        i = i + 1;
    }
    assert(a@ =~= b@);
    true
}

/// `head` followed by `tail`, as a new text.
pub fn joined(head: &str, tail: &str) -> (r: String)
    ensures
        r@ == head@ + tail@,
{
    String::from_str(head).concat(tail)
}


} // verus!
