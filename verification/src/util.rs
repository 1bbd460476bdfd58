use vstd::prelude::*;

verus! {

/// A character in `'0'..='9'`.
pub open spec fn is_decimal_digit(c: char) -> bool {
    '0' <= c && c <= '9'
}

/// Every character of `s` is a decimal digit.
pub open spec fn all_decimal_digits(s: Seq<char>) -> bool {
    forall|i: int| 0 <= i < s.len() ==> is_decimal_digit(#[trigger] s[i])
}

/// The number that a string of decimal digits denotes.
pub open spec fn decimal_value(s: Seq<char>) -> nat
    decreases s.len(),
{
    if s.len() == 0 {
        0
    } else {
        decimal_value(s.drop_last()) * 10 + ((s.last() as int) - ('0' as int)) as nat
    }
}

/// What `str::parse` gives for an unsigned integer type: an optional `+`
/// followed by at least one decimal digit, and nothing else.
pub open spec fn parse_unsigned(s: Seq<char>) -> Option<nat> {
    let digits = if s.len() > 0 && s[0] == '+' { s.drop_first() } else { s };
    if digits.len() > 0 && all_decimal_digits(digits) {
        Some(decimal_value(digits))
    } else {
        None
    }
}

/// What `str::parse` gives for a signed integer type: an optional `+` or
/// `-` followed by at least one decimal digit, and nothing else.
pub open spec fn parse_signed(s: Seq<char>) -> Option<int> {
    if s.len() > 0 && s[0] == '-' {
        let digits = s.drop_first();
        if digits.len() > 0 && all_decimal_digits(digits) {
            Some(-(decimal_value(digits) as int))
        } else {
            None
        }
    } else {
        match parse_unsigned(s) {
            Some(n) => Some(n as int),
            None => None,
        }
    }
}

/// The value that a query string gives for `key`: the last pair with that
/// key wins, as when the pairs are inserted into a map one after another.
pub open spec fn query_lookup(params: Seq<(String, String)>, key: Seq<char>) -> Option<Seq<char>>
    decreases params.len(),
{
    if params.len() == 0 {
        None
    } else if params.last().0@ == key {
        Some(params.last().1@)
    } else {
        query_lookup(params.drop_last(), key)
    }
}

/// A pair added after the others decides the value of its key and leaves
/// the other keys as they were.
pub proof fn law_query_last_pair_wins(
    params: Seq<(String, String)>,
    name: String,
    value: String,
    key: Seq<char>,
)
    ensures
        query_lookup(params.push((name, value)), key) == if name@ == key {
            Some(value@)
        } else {
            query_lookup(params, key)
        },
{
    assert(params.push((name, value)).drop_last() =~= params);
}

/// The value `get_param_default` yields.
pub open spec fn param_or_default<T: QueryValue>(
    params: Seq<(String, String)>,
    key: Seq<char>,
    default: T,
) -> T {
    match query_lookup(params, key) {
        None => default,
        Some(text) => match T::parses_to(text) {
            Some(v) => v,
            None => default,
        },
    }
}

/// A value that a query parameter can be parsed into.
pub trait QueryValue: Sized {
    /// The value `text` parses to, if any.
    spec fn parses_to(text: Seq<char>) -> Option<Self>;

    fn parse_query(text: &str) -> (r: Option<Self>)
        ensures
            r == Self::parses_to(text@),
    ;
}

/// A longer string of digits never denotes a smaller number.
pub proof fn lemma_decimal_value_prefix(s: Seq<char>, i: int)
    requires
        0 <= i <= s.len(),
        all_decimal_digits(s),
    ensures
        decimal_value(s.take(i)) <= decimal_value(s),
    decreases s.len() - i,
{
    if i == s.len() {
        assert(s.take(i) =~= s);
    } else {
        lemma_decimal_value_prefix(s, i + 1);
        assert(s.take(i + 1).drop_last() =~= s.take(i));
        assert(is_decimal_digit(s[i]));
    }
}

/// Reads the digits `s[start..]`; `None` when one is not a digit or the
/// number exceeds `u64::MAX`.
fn read_decimal_digits(s: &str, start: usize) -> (r: Option<u64>)
    requires
        start <= s@.len(),
    ensures
        match r {
            Some(n) => all_decimal_digits(s@.skip(start as int)) && n == decimal_value(
                s@.skip(start as int),
            ),
            None => !all_decimal_digits(s@.skip(start as int)) || decimal_value(
                s@.skip(start as int),
            ) > u64::MAX,
        },
{
    let n = s.unicode_len();
    let ghost digits = s@.skip(start as int);
    let mut value: u64 = 0;
    let mut i: usize = start;
    while i < n
        invariant
            start <= i <= n,
            n == s@.len(),
            digits == s@.skip(start as int),
            all_decimal_digits(digits.take(i - start)),
            value == decimal_value(digits.take(i - start)),
        decreases n - i,
    {
        let c = s.get_char(i);
        if !('0' <= c && c <= '9') {
            assert(digits[i - start] == c);
            return None;
        }
        let d = (c as u32 - '0' as u32) as u64;
        let next: u128 = value as u128 * 10 + d as u128;
        assert(digits.take(i - start + 1).drop_last() =~= digits.take(i - start));
        assert(digits.take(i - start + 1).last() == c);
        if next > u64::MAX as u128 {
            proof {
                if all_decimal_digits(digits) {
                    lemma_decimal_value_prefix(digits, i - start + 1);
                }
            }
            return None;
        }
        value = next as u64;
        i = i + 1;
    }
    assert(digits.take(n - start) =~= digits);
    Some(value)
}

/// Parses an unsigned decimal number the way `str::parse::<u64>` does.
pub fn parse_u64(s: &str) -> (r: Option<u64>)
    ensures
        r == (match parse_unsigned(s@) {
            Some(n) => if n <= u64::MAX {
                Some(n as u64)
            } else {
                None
            },
            None => None,
        }),
{
    let n = s.unicode_len();
    let start: usize = if n > 0 && s.get_char(0) == '+' {
        1
    } else {
        0
    };
    if start == n {
        return None;
    }
    assert(s@.skip(start as int) =~= (if s@.len() > 0 && s@[0] == '+' {
        s@.drop_first()
    } else {
        s@
    }));
    read_decimal_digits(s, start)
}

impl QueryValue for u64 {
    open spec fn parses_to(text: Seq<char>) -> Option<u64> {
        match parse_unsigned(text) {
            Some(n) => if n <= u64::MAX {
                Some(n as u64)
            } else {
                None
            },
            None => None,
        }
    }

    fn parse_query(text: &str) -> (r: Option<u64>) {
        parse_u64(text)
    }
}

impl QueryValue for usize {
    open spec fn parses_to(text: Seq<char>) -> Option<usize> {
        match parse_unsigned(text) {
            Some(n) => if n <= usize::MAX {
                Some(n as usize)
            } else {
                None
            },
            None => None,
        }
    }

    fn parse_query(text: &str) -> (r: Option<usize>) {
        match parse_u64(text) {
            Some(n) => if n <= usize::MAX as u64 {
                Some(n as usize)
            } else {
                None
            },
            None => None,
        }
    }
}

/// Parses a signed decimal number the way `str::parse` does for a signed
/// type; `None` also when its magnitude exceeds `u64::MAX`.
fn parse_signed_wide(text: &str) -> (r: Option<i128>)
    ensures
        match parse_signed(text@) {
            Some(n) => if -(u64::MAX as int) <= n <= u64::MAX {
                r == Some(n as i128)
            } else {
                r is None
            },
            None => r is None,
        },
{
    let n = text.unicode_len();
    if n > 0 && text.get_char(0) == '-' {
        if n == 1 {
            return None;
        }
        assert(text@.skip(1) =~= text@.drop_first());
        match read_decimal_digits(text, 1) {
            Some(v) => Some(0i128 - v as i128),
            None => None,
        }
    } else {
        match parse_u64(text) {
            Some(v) => Some(v as i128),
            None => None,
        }
    }
}

impl QueryValue for u8 {
    open spec fn parses_to(text: Seq<char>) -> Option<u8> {
        match parse_unsigned(text) {
            Some(n) => if n <= u8::MAX {
                Some(n as u8)
            } else {
                None
            },
            None => None,
        }
    }

    fn parse_query(text: &str) -> (r: Option<u8>) {
        match parse_u64(text) {
            Some(n) => if n <= u8::MAX as u64 {
                Some(n as u8)
            } else {
                None
            },
            None => None,
        }
    }
}

impl QueryValue for u16 {
    open spec fn parses_to(text: Seq<char>) -> Option<u16> {
        match parse_unsigned(text) {
            Some(n) => if n <= u16::MAX {
                Some(n as u16)
            } else {
                None
            },
            None => None,
        }
    }

    fn parse_query(text: &str) -> (r: Option<u16>) {
        match parse_u64(text) {
            Some(n) => if n <= u16::MAX as u64 {
                Some(n as u16)
            } else {
                None
            },
            None => None,
        }
    }
}

impl QueryValue for u32 {
    open spec fn parses_to(text: Seq<char>) -> Option<u32> {
        match parse_unsigned(text) {
            Some(n) => if n <= u32::MAX {
                Some(n as u32)
            } else {
                None
            },
            None => None,
        }
    }

    fn parse_query(text: &str) -> (r: Option<u32>) {
        match parse_u64(text) {
            Some(n) => if n <= u32::MAX as u64 {
                Some(n as u32)
            } else {
                None
            },
            None => None,
        }
    }
}

impl QueryValue for i8 {
    open spec fn parses_to(text: Seq<char>) -> Option<i8> {
        match parse_signed(text) {
            Some(n) => if i8::MIN <= n <= i8::MAX {
                Some(n as i8)
            } else {
                None
            },
            None => None,
        }
    }

    fn parse_query(text: &str) -> (r: Option<i8>) {
        match parse_signed_wide(text) {
            Some(v) => if i8::MIN as i128 <= v && v <= i8::MAX as i128 {
                Some(v as i8)
            } else {
                None
            },
            None => None,
        }
    }
}

impl QueryValue for i16 {
    open spec fn parses_to(text: Seq<char>) -> Option<i16> {
        match parse_signed(text) {
            Some(n) => if i16::MIN <= n <= i16::MAX {
                Some(n as i16)
            } else {
                None
            },
            None => None,
        }
    }

    fn parse_query(text: &str) -> (r: Option<i16>) {
        match parse_signed_wide(text) {
            Some(v) => if i16::MIN as i128 <= v && v <= i16::MAX as i128 {
                Some(v as i16)
            } else {
                None
            },
            None => None,
        }
    }
}

impl QueryValue for i32 {
    open spec fn parses_to(text: Seq<char>) -> Option<i32> {
        match parse_signed(text) {
            Some(n) => if i32::MIN <= n <= i32::MAX {
                Some(n as i32)
            } else {
                None
            },
            None => None,
        }
    }

    fn parse_query(text: &str) -> (r: Option<i32>) {
        match parse_signed_wide(text) {
            Some(v) => if i32::MIN as i128 <= v && v <= i32::MAX as i128 {
                Some(v as i32)
            } else {
                None
            },
            None => None,
        }
    }
}

impl QueryValue for i64 {
    open spec fn parses_to(text: Seq<char>) -> Option<i64> {
        match parse_signed(text) {
            Some(n) => if i64::MIN <= n <= i64::MAX {
                Some(n as i64)
            } else {
                None
            },
            None => None,
        }
    }

    fn parse_query(text: &str) -> (r: Option<i64>) {
        match parse_signed_wide(text) {
            Some(v) => if i64::MIN as i128 <= v && v <= i64::MAX as i128 {
                Some(v as i64)
            } else {
                None
            },
            None => None,
        }
    }
}

impl QueryValue for isize {
    open spec fn parses_to(text: Seq<char>) -> Option<isize> {
        match parse_signed(text) {
            Some(n) => if isize::MIN <= n <= isize::MAX {
                Some(n as isize)
            } else {
                None
            },
            None => None,
        }
    }

    fn parse_query(text: &str) -> (r: Option<isize>) {
        match parse_signed_wide(text) {
            Some(v) => if isize::MIN as i128 <= v && v <= isize::MAX as i128 {
                Some(v as isize)
            } else {
                None
            },
            None => None,
        }
    }
}

/// The value of query parameter `key` parsed as `T`, or `default` when the
/// parameter is absent or does not parse.
pub fn get_param_default<T: QueryValue>(params: &Vec<(String, String)>, key: &str, default: T) -> (r: T)
    ensures
        r == param_or_default(params@, key@, default),
{
    let wanted: String = key.to_owned();
    let mut i = params.len();
    assert(params@.take(i as int) =~= params@);
    while i > 0
        invariant
            i <= params@.len(),
            wanted@ == key@,
            query_lookup(params@, key@) == query_lookup(params@.take(i as int), key@),
        decreases i,
    {
        let ghost prefix = params@.take(i as int);
        assert(prefix.drop_last() =~= params@.take(i - 1));
        let entry = &params[i - 1];
        assert(prefix.last() == params@[i - 1]);
        if entry.0 == wanted {
            return match T::parse_query(entry.1.as_str()) {
                Some(v) => v,
                None => default,
            };
        }
        i = i - 1;
    }
    default
}

/// The decimal digit character of `d`, which is below 10.
pub open spec fn digit_char(d: int) -> char {
    (d + 48) as char
}

/// The decimal representation of `n`, without sign or leading zeros.
pub open spec fn decimal_text(n: nat) -> Seq<char>
    decreases n,
{
    if n < 10 {
        seq![digit_char(n as int)]
    } else {
        decimal_text(n / 10).push(digit_char((n % 10) as int))
    }
}

/// Calls `String::push`.
#[verifier::external_body]
pub fn push_char(s: &mut String, c: char)
    ensures
        final(s)@ == old(s)@.push(c),
{
    s.push(c)
}

/// The decimal representation of `n`, as `n.to_string()` writes it.
pub fn to_decimal(n: u64) -> (r: String)
    ensures
        r@ == decimal_text(n as nat),
    decreases n,
{
    let digit = (48u8 + (n % 10) as u8) as char;
    if n < 10 {
        let mut s = String::new();
        push_char(&mut s, digit);
        assert(s@ =~= seq![digit_char(n as int)]);
        s
    } else {
        let mut s = to_decimal(n / 10);
        push_char(&mut s, digit);
        s
    }
}

/// Reading back the decimal representation of a number gives the number.
pub proof fn law_decimal_round_trip(n: nat)
    ensures
        parse_unsigned(decimal_text(n)) == Some(n),
        all_decimal_digits(decimal_text(n)),
        decimal_text(n).len() > 0,
    decreases n,
{
    let t = decimal_text(n);
    if n < 10 {
        assert(t.drop_last() =~= Seq::<char>::empty());
        assert(decimal_value(t.drop_last()) == 0);
        assert(t.last() == digit_char(n as int));
        assert(decimal_value(t) == n);
    } else {
        law_decimal_round_trip(n / 10);
        assert(t.drop_last() =~= decimal_text(n / 10));
        assert(decimal_value(t) == decimal_value(decimal_text(n / 10)) * 10 + n % 10);
        assert(all_decimal_digits(t)) by {
            assert forall|i: int| 0 <= i < t.len() implies is_decimal_digit(#[trigger] t[i]) by {
                if i < t.len() - 1 {
                    assert(t[i] == decimal_text(n / 10)[i]);
                }
            }
        }
    }
    assert(t[0] != '+');
}

/// The elements of `v`, last first.
pub fn reversed<T>(v: Vec<T>) -> (r: Vec<T>)
    ensures
        r@.len() == v@.len(),
        forall|i: int| 0 <= i < v@.len() ==> #[trigger] r@[i] == v@[v@.len() - 1 - i],
{
    let mut v = v;
    let ghost input = v@;
    let mut r: Vec<T> = Vec::new();
    while v.len() > 0
        invariant
            r@.len() + v@.len() == input.len(),
            v@ == input.take(v@.len() as int),
            forall|i: int| 0 <= i < r@.len() ==> #[trigger] r@[i] == input[input.len() - 1 - i],
        decreases v.len(),
    {
        let x = v.pop().unwrap();
        r.push(x);
    }
    r
}

} // verus!
