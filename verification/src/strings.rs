//! Character-level string utilities: converting between `String` / `&str`
//! and `Vec<char>`, decimal rendering of integers, and decimal parsing.
use vstd::prelude::*;
use vstd::string::StrSliceExecFns;
use vstd::string::StringExecFns;

verus! {

/// Relies on `String::push` of std: appends the given character to the
/// end of the string.
pub assume_specification[ String::push ](s: &mut String, c: char)
    ensures
        final(s)@ == old(s)@.push(c),
;

/// The characters of `s`, in order, as a vector.
pub fn chars_of(s: &str) -> (r: Vec<char>)
    ensures
        r@ == s@,
{
    let n = s.unicode_len();
    let mut r: Vec<char> = Vec::new();
    let mut i: usize = 0;
    while i < n
        invariant
            i <= n,
            n == s@.len(),
            r@ == s@.subrange(0, i as int),
        decreases n - i,
    {
        r.push(s.get_char(i));
        i = i + 1;
    }
    assert(r@ =~= s@);
    r
}

/// A `String` holding exactly the characters of `v`, in order.
pub fn string_from_chars(v: &Vec<char>) -> (r: String)
    ensures
        r@ == v@,
{
    let mut r = String::new();
    let mut i: usize = 0;
    while i < v.len()
        invariant
            i <= v@.len(),
            r@ == v@.subrange(0, i as int),
        decreases v@.len() - i,
    {
        r.push(v[i]);
        assert(r@ =~= v@.subrange(0, i + 1 as int));
        i = i + 1;
    }
    assert(r@ =~= v@);
    r
}

/// Whether two string slices hold the same sequence of characters.
pub fn str_eq(a: &str, b: &str) -> (r: bool)
    ensures
        r == (a@ == b@),
{
    let na = a.unicode_len();
    let nb = b.unicode_len();
    if na != nb {
        return false;
    }
    let mut i: usize = 0;
    while i < na
        invariant
            i <= na,
            na == a@.len(),
            na == b@.len(),
            forall|j: int| 0 <= j < i ==> a@[j] == b@[j],
        decreases na - i,
    {
        if a.get_char(i) != b.get_char(i) {
            return false;
        }
        i = i + 1;
    }
    assert(a@ =~= b@);
    true
}

/// The decimal digit character for `d`, for `0 <= d < 10`; `'0'` otherwise.
pub open spec fn digit_char(d: int) -> char {
    if d == 0 {
        '0'
    } else if d == 1 {
        '1'
    } else if d == 2 {
        '2'
    } else if d == 3 {
        '3'
    } else if d == 4 {
        '4'
    } else if d == 5 {
        '5'
    } else if d == 6 {
        '6'
    } else if d == 7 {
        '7'
    } else if d == 8 {
        '8'
    } else if d == 9 {
        '9'
    } else {
        '0'
    }
}

/// The numeric value of a decimal digit character, or `-1` when `c` is no
/// digit.
pub open spec fn digit_val(c: char) -> int {
    if c == '0' {
        0
    } else if c == '1' {
        1
    } else if c == '2' {
        2
    } else if c == '3' {
        3
    } else if c == '4' {
        4
    } else if c == '5' {
        5
    } else if c == '6' {
        6
    } else if c == '7' {
        7
    } else if c == '8' {
        8
    } else if c == '9' {
        9
    } else {
        -1
    }
}

pub open spec fn is_digit(c: char) -> bool {
    digit_val(c) >= 0
}

/// The usual decimal rendering of a nonnegative integer, most significant
/// digit first and without leading zeroes (except for zero itself).
pub open spec fn dec_of_nat(n: nat) -> Seq<char>
    decreases n,
{
    if n < 10 {
        seq![digit_char(n as int)]
    } else {
        dec_of_nat(n / 10) + seq![digit_char((n % 10) as int)]
    }
}

/// The decimal rendering of any integer: a minus sign before the digits of
/// the magnitude when `n` is negative.
pub open spec fn dec_of_int(n: int) -> Seq<char> {
    if n < 0 {
        seq!['-'] + dec_of_nat((-n) as nat)
    } else {
        dec_of_nat(n as nat)
    }
}

fn exec_digit_char(d: u128) -> (r: char)
    requires
        d < 10,
    ensures
        r == digit_char(d as int),
{
    if d == 0 {
        '0'
    } else if d == 1 {
        '1'
    } else if d == 2 {
        '2'
    } else if d == 3 {
        '3'
    } else if d == 4 {
        '4'
    } else if d == 5 {
        '5'
    } else if d == 6 {
        '6'
    } else if d == 7 {
        '7'
    } else if d == 8 {
        '8'
    } else {
        '9'
    }
}

/// Renders `n` in decimal.
pub fn u128_to_dec(n: u128) -> (r: String)
    ensures
        r@ == dec_of_nat(n as nat),
    decreases n,
{
    if n < 10 {
        let mut s = String::new();
        s.push(exec_digit_char(n));
        assert(s@ =~= dec_of_nat(n as nat));
        s
    } else {
        let mut s = u128_to_dec(n / 10);
        s.push(exec_digit_char(n % 10));
        assert(s@ =~= dec_of_nat(n as nat));
        s
    }
}

/// Renders `n` in decimal, with a leading `-` when negative.
pub fn i128_to_dec(n: i128) -> (r: String)
    ensures
        r@ == dec_of_int(n as int),
{
    if n >= 0 {
        u128_to_dec(n as u128)
    } else {
        let mag: u128 = if n == i128::MIN {
            170141183460469231731687303715884105728u128
        } else {
            (-n) as u128
        };
        assert(mag as nat == (-(n as int)) as nat);
        let digits = u128_to_dec(mag);
        let mut s = String::from_str("-");
        s.append(digits.as_str());
        proof {
            reveal_strlit("-");
            assert(s@ =~= dec_of_int(n as int));
        }
        s
    }
}

/// The first index at or after `i` holding `c`, or the end of `s`.
pub open spec fn find_char(s: Seq<char>, i: int, c: char) -> int
    decreases s.len() - i,
{
    if 0 <= i < s.len() && s[i] != c {
        find_char(s, i + 1, c)
    } else {
        i
    }
}

/// ASCII whitespace, the only kind the `wg` tool's output carries.
pub open spec fn is_ws_char(c: char) -> bool {
    c == ' ' || c == '\t' || c == '\r' || c == '\n'
}

pub open spec fn trim_front(s: Seq<char>) -> Seq<char>
    decreases s.len(),
{
    if s.len() > 0 && is_ws_char(s.first()) {
        trim_front(s.drop_first())
    } else {
        s
    }
}

pub open spec fn trim_back(s: Seq<char>) -> Seq<char>
    decreases s.len(),
{
    if s.len() > 0 && is_ws_char(s.last()) {
        trim_back(s.drop_last())
    } else {
        s
    }
}

/// `s` with leading and trailing ASCII whitespace removed.
pub open spec fn trim_spec(s: Seq<char>) -> Seq<char> {
    trim_back(trim_front(s))
}

proof fn lemma_trim_front_at(s: Seq<char>, i: int)
    requires
        0 <= i <= s.len(),
        forall|j: int| 0 <= j < i ==> is_ws_char(#[trigger] s[j]),
        i < s.len() ==> !is_ws_char(s[i]),
    ensures
        trim_front(s) == s.subrange(i, s.len() as int),
    decreases i,
{
    if i == 0 {
        assert(s.subrange(0, s.len() as int) =~= s);
    } else {
        let t = s.drop_first();
        lemma_trim_front_at(t, i - 1);
        assert(t.subrange(i - 1, t.len() as int) =~= s.subrange(i, s.len() as int));
    }
}

proof fn lemma_trim_back_at(s: Seq<char>, e: int)
    requires
        0 <= e <= s.len(),
        forall|j: int| e <= j < s.len() ==> is_ws_char(#[trigger] s[j]),
        e > 0 ==> !is_ws_char(s[e - 1]),
    ensures
        trim_back(s) == s.subrange(0, e),
    decreases s.len() - e,
{
    if e == s.len() {
        if s.len() > 0 && is_ws_char(s.last()) {
            lemma_trim_back_at(s.drop_last(), e - 1);
            assert(s.drop_last().subrange(0, e - 1) =~= s.subrange(0, e - 1));
            assert(false);
        }
        assert(s.subrange(0, e) =~= s);
    } else {
        let t = s.drop_last();
        lemma_trim_back_at(t, e);
        assert(t.subrange(0, e) =~= s.subrange(0, e));
    }
}

pub(crate) fn exec_is_ws(c: char) -> (r: bool)
    ensures
        r == is_ws_char(c),
{
    c == ' ' || c == '\t' || c == '\r' || c == '\n'
}

/// `s` with leading and trailing ASCII whitespace removed.
pub fn trim_ws(s: &str) -> (r: String)
    ensures
        r@ == trim_spec(s@),
{
    let chars = chars_of(s);
    let n = chars.len();
    let mut start: usize = 0;
    while start < n && exec_is_ws(chars[start])
        invariant
            0 <= start <= n,
            n == s@.len(),
            chars@ == s@,
            forall|j: int| 0 <= j < start ==> is_ws_char(#[trigger] s@[j]),
        decreases n - start,
    {
        start = start + 1;
    }
    let mut end: usize = n;
    while end > start && exec_is_ws(chars[end - 1])
        invariant
            start <= end <= n,
            n == s@.len(),
            chars@ == s@,
            forall|j: int| end <= j < n ==> is_ws_char(#[trigger] s@[j]),
        decreases end,
    {
        end = end - 1;
    }
    let mut out: Vec<char> = Vec::new();
    let mut i: usize = start;
    while i < end
        invariant
            start <= i <= end <= n,
            chars@ == s@,
            n == s@.len(),
            out@ == s@.subrange(start as int, i as int),
        decreases end - i,
    {
        out.push(chars[i]);
        assert(out@ =~= s@.subrange(start as int, i + 1 as int));
        i = i + 1;
    }
    let r = string_from_chars(&out);
    proof {
        lemma_trim_front_at(s@, start as int);
        let m = s@.subrange(start as int, n as int);
        lemma_trim_back_at(m, end - start as int);
        assert(m.subrange(0, end - start as int) =~= s@.subrange(start as int, end as int));
    }
    r
}

pub open spec fn all_digits(s: Seq<char>) -> bool {
    forall|i: int| 0 <= i < s.len() ==> is_digit(#[trigger] s[i])
}

/// The integer denoted by a sequence of decimal digits, most significant
/// first.
pub open spec fn dec_val(s: Seq<char>) -> int
    decreases s.len(),
{
    if s.len() == 0 {
        0
    } else {
        dec_val(s.drop_last()) * 10 + digit_val(s.last())
    }
}

/// The integer denoted by an optional `+` or `-` sign followed by one or
/// more decimal digits; `None` for any other shape.
pub open spec fn int_of_dec(s: Seq<char>) -> Option<int> {
    if s.len() >= 1 && (s[0] == '+' || s[0] == '-') {
        let body = s.subrange(1, s.len() as int);
        if body.len() > 0 && all_digits(body) {
            if s[0] == '-' {
                Some(-dec_val(body))
            } else {
                Some(dec_val(body))
            }
        } else {
            None
        }
    } else {
        if s.len() > 0 && all_digits(s) {
            Some(dec_val(s))
        } else {
            None
        }
    }
}

pub proof fn lemma_dec_val_nonneg(s: Seq<char>)
    requires
        all_digits(s),
    ensures
        dec_val(s) >= 0,
    decreases s.len(),
{
    if s.len() > 0 {
        assert(all_digits(s.drop_last()));
        lemma_dec_val_nonneg(s.drop_last());
    }
}

/// Extending a digit string to the right can only enlarge its value.
pub proof fn lemma_dec_val_prefix_le(s: Seq<char>, k: int)
    requires
        all_digits(s),
        0 <= k <= s.len(),
    ensures
        dec_val(s.subrange(0, k)) <= dec_val(s),
    decreases s.len() - k,
{
    if k == s.len() {
        assert(s.subrange(0, k) =~= s);
    } else {
        let p = s.subrange(0, k);
        let p1 = s.subrange(0, k + 1);
        assert(p1.drop_last() =~= p);
        assert(all_digits(p));
        lemma_dec_val_nonneg(p);
        assert(dec_val(p1) == dec_val(p) * 10 + digit_val(s[k]));
        lemma_dec_val_prefix_le(s, k + 1);
    }
}

fn exec_digit_val(c: char) -> (r: Option<u128>)
    ensures
        match r {
            Some(d) => d == digit_val(c) && d < 10,
            None => !is_digit(c),
        },
{
    if c == '0' {
        Some(0)
    } else if c == '1' {
        Some(1)
    } else if c == '2' {
        Some(2)
    } else if c == '3' {
        Some(3)
    } else if c == '4' {
        Some(4)
    } else if c == '5' {
        Some(5)
    } else if c == '6' {
        Some(6)
    } else if c == '7' {
        Some(7)
    } else if c == '8' {
        Some(8)
    } else if c == '9' {
        Some(9)
    } else {
        None
    }
}

/// Parses an optionally signed decimal integer, as `str::parse::<i128>`
/// accepts it: `Some` exactly when the text is well-formed and its value
/// fits in an `i128`.
pub fn parse_i128(s: &str) -> (r: Option<i128>)
    ensures
        match int_of_dec(s@) {
            Some(v) => {
                if i128::MIN <= v <= i128::MAX {
                    r == Some(v as i128)
                } else {
                    r is None
                }
            },
            None => r is None,
        },
{
    let chars = chars_of(s);
    parse_i128_chars(&chars)
}

/// `parse_i128`, over the characters directly.
pub fn parse_i128_chars(chars: &Vec<char>) -> (r: Option<i128>)
    ensures
        match int_of_dec(chars@) {
            Some(v) => {
                if i128::MIN <= v <= i128::MAX {
                    r == Some(v as i128)
                } else {
                    r is None
                }
            },
            None => r is None,
        },
{
    let ghost s: Seq<char> = chars@;
    let n = chars.len();
    if n == 0 {
        return None;
    }
    let negative: bool = chars[0] == '-';
    let start: usize = if chars[0] == '-' || chars[0] == '+' {
        1
    } else {
        0
    };
    let ghost body: Seq<char> = s.subrange(start as int, n as int);
    proof {
        if start == 0 {
            assert(body =~= s);
        }
    }
    if n == start {
        return None;
    }
    // The magnitude may reach 2^127 for a negative number, one less for a
    // nonnegative one.
    let limit: u128 = if negative {
        170141183460469231731687303715884105728u128
    } else {
        170141183460469231731687303715884105727u128
    };
    let mut acc: u128 = 0;
    let mut i: usize = start;
    while i < n
        invariant
            start <= i <= n,
            n == s.len(),
            chars@ == s,
            start == 0 || start == 1,
            start == 1 ==> (s[0] == '-' || s[0] == '+'),
            start == 0 ==> !(s[0] == '-' || s[0] == '+'),
            negative == (s[0] == '-'),
            body == s.subrange(start as int, n as int),
            n > start,
            limit == if negative {
                170141183460469231731687303715884105728u128
            } else {
                170141183460469231731687303715884105727u128
            },
            all_digits(body.subrange(0, i - start)),
            acc as int == dec_val(body.subrange(0, i - start)),
            acc <= limit,
        decreases n - i,
    {
        let ghost prefix = body.subrange(0, i - start);
        let ghost prefix1 = body.subrange(0, i + 1 - start);
        proof {
            assert(prefix1.drop_last() =~= prefix);
            assert(prefix1.last() == body[i - start]);
            assert(body[i - start] == s[i as int]);
        }
        let d = match exec_digit_val(chars[i]) {
            Some(d) => d,
            None => {
                // A non-digit inside the body: no well-formed reading exists.
                assert(!all_digits(body));
                return None;
            },
        };
        assert(dec_val(prefix1) == acc as int * 10 + d as int);
        if acc > (limit - d) / 10 {
            // The running magnitude already exceeds what an `i128` can
            // hold, and appending further digits cannot shrink it.
            proof {
                assert(acc as int * 10 + d as int > limit as int) by (nonlinear_arith)
                    requires
                        acc as int > (limit as int - d as int) / 10,
                        0 <= d < 10,
                        d as int <= limit as int,
                ;
                if start == 0 {
                    assert(body =~= s);
                }
                if all_digits(body) {
                    lemma_dec_val_prefix_le(body, i + 1 - start);
                    assert(dec_val(body) >= dec_val(prefix1));
                }
            }
            return None;
        }
        proof {
            assert(acc as int * 10 + d as int <= limit as int) by (nonlinear_arith)
                requires
                    acc as int <= (limit as int - d as int) / 10,
                    0 <= d < 10,
                    d as int <= limit as int,
            ;
        }
        acc = acc * 10 + d;
        i = i + 1;
    }
    proof {
        assert(body.subrange(0, n - start) =~= body);
    }
    if negative {
        if acc == 170141183460469231731687303715884105728u128 {
            Some(i128::MIN)
        } else {
            Some(-(acc as i128))
        }
    } else {
        Some(acc as i128)
    }
}

/// Renders `n` in decimal.
pub fn u8_to_dec(n: u8) -> (r: String)
    ensures
        r@ == dec_of_nat(n as nat),
{
    u128_to_dec(n as u128)
}

/// Renders `n` in decimal.
pub fn usize_to_dec(n: usize) -> (r: String)
    ensures
        r@ == dec_of_nat(n as nat),
{
    u128_to_dec(n as u128)
}

} // verus!
