//! Text keys of ids as they are stored in memory: a one-letter prefix
//! followed by the decimal number, zero-padded to a minimum width
//! (`T0007` for a task, `S012` for a spawn).
use vstd::prelude::*;

verus! {

/// The character of a decimal digit.
pub open spec fn digit_char(d: nat) -> char {
    ((d + 48) as u32) as char
}

/// Whether `c` is one of `0`..`9`.
pub open spec fn is_digit(c: char) -> bool {
    '0' <= c && c <= '9'
}

/// The value of a decimal digit character.
pub open spec fn digit_value(c: char) -> nat {
    ((c as int) - 48) as nat
}

/// Decimal rendering of `n`, without leading zeros.
pub open spec fn decimal(n: nat) -> Seq<char>
    decreases n,
{
    if n < 10 {
        seq![digit_char(n)]
    } else {
        decimal(n / 10).push(digit_char(n % 10))
    }
}

/// `s` padded on the left with `0` up to `width` characters.
pub open spec fn zero_pad(s: Seq<char>, width: nat) -> Seq<char> {
    if s.len() >= width {
        s
    } else {
        Seq::new((width - s.len()) as nat, |i: int| '0') + s
    }
}

/// The key of id `n`: `prefix`, then `n` in decimal padded to `width` digits.
pub open spec fn key_text(prefix: char, width: nat, n: nat) -> Seq<char> {
    seq![prefix] + zero_pad(decimal(n), width)
}

/// Whether no key occurs twice among `entries`, as in a map keyed by them.
pub open spec fn keys_distinct<V>(entries: Seq<(String, V)>) -> bool {
    forall|i: int, j: int| 0 <= i < j < entries.len() ==> (#[trigger] entries[i]).0@ != (#[trigger] entries[j]).0@
}

/// Whether every character of `s` is a decimal digit.
pub open spec fn all_digits(s: Seq<char>) -> bool {
    forall|i: int| 0 <= i < s.len() ==> is_digit(#[trigger] s[i])
}

/// The number that the digit string `s` denotes.
pub open spec fn digits_value(s: Seq<char>) -> nat
    decreases s.len(),
{
    if s.len() == 0 {
        0
    } else {
        digits_value(s.drop_last()) * 10 + digit_value(s.last())
    }
}

/// What `str::parse::<usize>` accepts: an optional `+`, then one or more
/// digits, whose value fits in a `usize`.
pub open spec fn parse_usize_text(s: Seq<char>) -> Option<usize> {
    let body = if s.len() > 0 && s[0] == '+' { s.drop_first() } else { s };
    if body.len() > 0 && all_digits(body) && digits_value(body) <= usize::MAX {
        Some(digits_value(body) as usize)
    } else {
        None
    }
}

/// The id that a key denotes: the key must start with `prefix`, and the rest
/// must parse as a `usize`.
pub open spec fn key_id(prefix: char, s: Seq<char>) -> Option<usize> {
    if s.len() > 0 && s[0] == prefix {
        parse_usize_text(s.drop_first())
    } else {
        None
    }
}

proof fn lemma_digit_char(d: nat)
    requires
        d < 10,
    ensures
        is_digit(digit_char(d)),
        digit_value(digit_char(d)) == d,
        digit_char(d) != '+',
{
}

pub proof fn lemma_decimal_digits(n: nat)
    ensures
        all_digits(decimal(n)),
        decimal(n).len() > 0,
        digits_value(decimal(n)) == n,
    decreases n,
{
    if n < 10 {
        lemma_digit_char(n);
        assert(decimal(n).drop_last() =~= Seq::<char>::empty());
        assert(digits_value(Seq::<char>::empty()) == 0);
    } else {
        lemma_decimal_digits(n / 10);
        lemma_digit_char(n % 10);
        let s = decimal(n);
        assert(s.drop_last() =~= decimal(n / 10));
        assert(s.last() == digit_char(n % 10));
        assert(digits_value(s) == digits_value(decimal(n / 10)) * 10 + digit_value(digit_char(n % 10)));
        assert(n == (n / 10) * 10 + n % 10);
        assert forall|i: int| 0 <= i < s.len() implies is_digit(#[trigger] s[i]) by {
            if i < s.len() - 1 {
                assert(s[i] == decimal(n / 10)[i]);
            }
        }
    }
}

proof fn lemma_leading_zero(s: Seq<char>)
    ensures
        digits_value(seq!['0'] + s) == digits_value(s),
    decreases s.len(),
{
    let t = seq!['0'] + s;
    assert(digit_value('0') == 0);
    if s.len() == 0 {
        assert(t.drop_last() =~= Seq::<char>::empty());
        assert(digits_value(Seq::<char>::empty()) == 0);
    } else {
        assert(t.drop_last() =~= seq!['0'] + s.drop_last());
        assert(t.last() == s.last());
        lemma_leading_zero(s.drop_last());
    }
}

proof fn lemma_zeros_prefix(k: nat, s: Seq<char>)
    ensures
        digits_value(Seq::new(k, |i: int| '0') + s) == digits_value(s),
        all_digits(s) ==> all_digits(Seq::new(k, |i: int| '0') + s),
    decreases k,
{
    let z = Seq::new(k, |i: int| '0');
    if k == 0 {
        assert(z + s =~= s);
    } else {
        let z1 = Seq::new((k - 1) as nat, |i: int| '0');
        assert(z + s =~= seq!['0'] + (z1 + s));
        lemma_zeros_prefix((k - 1) as nat, s);
        lemma_leading_zero(z1 + s);
        if all_digits(s) {
            assert forall|i: int| 0 <= i < (z + s).len() implies is_digit(#[trigger] (z + s)[i]) by {
                if i >= k {
                    assert((z + s)[i] == s[i - k]);
                }
            }
        }
    }
}

/// Reading back the key of an id gives the id: keys round-trip.
pub proof fn lemma_id_key_roundtrip(prefix: char, width: nat, n: usize)
    requires
        !is_digit(prefix),
        prefix != '+',
    ensures
        key_id(prefix, key_text(prefix, width, n as nat)) == Some(n),
{
    let d = decimal(n as nat);
    lemma_decimal_digits(n as nat);
    let p = zero_pad(d, width);
    if d.len() < width {
        lemma_zeros_prefix((width - d.len()) as nat, d);
    }
    let key = key_text(prefix, width, n as nat);
    assert(key.drop_first() =~= p);
    assert(is_digit(p[0]));
}


proof fn lemma_decimal_len_bound(n: nat)
    ensures
        decimal(n).len() <= n + 1,
    decreases n,
{
    if n >= 10 {
        lemma_decimal_len_bound(n / 10);
    }
}

proof fn lemma_prefix_value_grows(s: Seq<char>, i: int, j: int)
    requires
        0 <= i <= j <= s.len(),
    ensures
        digits_value(s.take(i)) <= digits_value(s.take(j)),
    decreases j - i,
{
    if i < j {
        lemma_prefix_value_grows(s, i, j - 1);
        assert(s.take(j).drop_last() =~= s.take(j - 1));
    }
}

/// `String::push` of std: appends the character at the end of the string.
#[verifier::external_body]
fn string_push(s: &mut String, c: char)
    ensures
        final(s)@ == old(s)@.push(c),
{
    s.push(c);
}

fn digit_to_char(d: usize) -> (c: char)
    requires
        d < 10,
    ensures
        c == digit_char(d as nat),
{
    match d {
        0 => '0',
        1 => '1',
        2 => '2',
        3 => '3',
        4 => '4',
        5 => '5',
        6 => '6',
        7 => '7',
        8 => '8',
        _ => '9',
    }
}

fn decimal_len(n: usize) -> (len: usize)
    ensures
        len == decimal(n as nat).len(),
    decreases n,
{
    if n < 10 {
        1
    } else {
        let l = decimal_len(n / 10);
        proof {
            lemma_decimal_len_bound((n / 10) as nat);
        }
        l + 1
    }
}

fn push_decimal(s: &mut String, n: usize)
    ensures
        final(s)@ == old(s)@ + decimal(n as nat),
    decreases n,
{
    if n >= 10 {
        push_decimal(s, n / 10);
    }
    let c = digit_to_char(n % 10);
    string_push(s, c);
    proof {
        if n < 10 {
            assert(decimal(n as nat) =~= seq![digit_char(n as nat)]);
        }
    }
    assert(final(s)@ =~= old(s)@ + decimal(n as nat));
}

/// `n` in decimal, as `Display` prints it.
pub fn format_decimal(n: usize) -> (text: String)
    ensures
        text@ == decimal(n as nat),
{
    let mut text = String::new();
    push_decimal(&mut text, n);
    assert(text@ =~= decimal(n as nat));
    text
}

/// The key of id `n`: `prefix` followed by the decimal digits of `n`,
/// zero-padded to at least `width` digits (what `format!("{prefix}{n:0width$}")` prints).
pub fn format_key(prefix: char, width: usize, n: usize) -> (key: String)
    ensures
        key@ == key_text(prefix, width as nat, n as nat),
{
    let mut key = String::new();
    string_push(&mut key, prefix);
    let len = decimal_len(n);
    let mut i: usize = len;
    while i < width
        invariant
            len == decimal(n as nat).len(),
            len <= i,
            i <= width || i == len,
            key@ == seq![prefix] + Seq::new((i - len) as nat, |k: int| '0'),
        decreases width - i,
    {
        string_push(&mut key, '0');
        i = i + 1;
        assert(key@ =~= seq![prefix] + Seq::new((i - len) as nat, |k: int| '0'));
    }
    push_decimal(&mut key, n);
    proof {
        let d = decimal(n as nat);
        if len >= width {
            assert(Seq::new((i - len) as nat, |k: int| '0') =~= Seq::<char>::empty());
        }
        assert(key@ =~= key_text(prefix, width as nat, n as nat));
    }
    key
}

fn char_to_digit(c: char) -> (d: Option<usize>)
    ensures
        match d {
            Some(v) => is_digit(c) && v == digit_value(c) && v < 10,
            None => !is_digit(c),
        },
{
    if '0' <= c && c <= '9' {
        let v = (c as u32) - 48;
        Some(v as usize)
    } else {
        None
    }
}

/// The value of the decimal digits of `text` from `start` to `end`, if they
/// are all digits and the value fits in a `usize`.
pub(crate) fn parse_digits(text: &str, start: usize, end: usize) -> (value: Option<usize>)
    requires
        start <= end <= text@.len(),
    ensures
        ({
            let body = text@.subrange(start as int, end as int);
            value == if all_digits(body) && digits_value(body) <= usize::MAX {
                Some(digits_value(body) as usize)
            } else {
                None
            }
        }),
{
    let ghost body = text@.subrange(start as int, end as int);
    let mut value: usize = 0;
    let mut i: usize = start;
    while i < end
        invariant
            start <= i <= end,
            end <= text@.len(),
            body == text@.subrange(start as int, end as int),
            all_digits(body.take(i - start)),
            value as nat == digits_value(body.take(i - start)),
        decreases end - i,
    {
        let c = text.get_char(i);
        assert(c == body[i - start]);
        let d = match char_to_digit(c) {
            None => {
                assert(!is_digit(body[i - start]));
                return None;
            },
            Some(d) => d,
        };
        let ghost next_prefix = body.take(i + 1 - start);
        assert(next_prefix.drop_last() =~= body.take(i - start));
        assert(digits_value(next_prefix) == value * 10 + d);
        let next = match value.checked_mul(10) {
            Some(m) => m.checked_add(d),
            None => None,
        };
        match next {
            Some(v) => {
                value = v;
            },
            None => {
                proof {
                    lemma_prefix_value_grows(body, i + 1 - start, body.len() as int);
                    assert(body.take(body.len() as int) =~= body);
                }
                return None;
            },
        }
        assert forall|k: int| 0 <= k < i + 1 - start implies is_digit(#[trigger] next_prefix[k]) by {
            if k < i - start {
                assert(next_prefix[k] == body.take(i - start)[k]);
            }
        }
        i = i + 1;
    }
    assert(body.take(i - start) =~= body);
    Some(value)
}

/// Reads an id back from its key: `prefix`, then what `str::parse::<usize>`
/// accepts. `None` when the key has another form or its number overflows.
pub fn parse_key(prefix: char, key: &str) -> (id: Option<usize>)
    ensures
        id == key_id(prefix, key@),
{
    let len = key.unicode_len();
    if len == 0 {
        return None;
    }
    if key.get_char(0) != prefix {
        return None;
    }
    let ghost t = key@.drop_first();
    let mut start: usize = 1;
    if len > 1 && key.get_char(1) == '+' {
        start = 2;
    }
    let ghost body = if t.len() > 0 && t[0] == '+' { t.drop_first() } else { t };
    assert(body =~= key@.subrange(start as int, len as int));
    if start == len {
        return None;
    }
    parse_digits(key, start, len)
}

} // verus!
