//! Small verified string builders used by the text renderers: decimal
//! numbers, repetition, padding and joining.

use vstd::prelude::*;
use vstd::string::*;

verus! {

broadcast use vstd::seq_lib::group_seq_properties;

/// The character of a decimal digit.
pub open spec fn digit_char(d: nat) -> char {
    if d == 0 { '0' }
    else if d == 1 { '1' }
    else if d == 2 { '2' }
    else if d == 3 { '3' }
    else if d == 4 { '4' }
    else if d == 5 { '5' }
    else if d == 6 { '6' }
    else if d == 7 { '7' }
    else if d == 8 { '8' }
    else { '9' }
}

/// Decimal digits of a natural number, most significant first, no leading zeros.
pub open spec fn digits(n: nat) -> Seq<char>
    decreases n,
{
    if n < 10 {
        seq![digit_char(n)]
    } else {
        digits(n / 10).push(digit_char(n % 10))
    }
}

/// What `{}` prints for an integer: an optional minus sign, then its digits.
pub open spec fn decimal(n: int) -> Seq<char> {
    if n < 0 {
        seq!['-'] + digits((-n) as nat)
    } else {
        digits(n as nat)
    }
}

/// `n` copies of `s`, one after another.
pub open spec fn repeat_seq(s: Seq<char>, n: nat) -> Seq<char>
    decreases n,
{
    if n == 0 {
        Seq::empty()
    } else {
        repeat_seq(s, (n - 1) as nat) + s
    }
}

/// `n` spaces.
pub open spec fn spaces(n: nat) -> Seq<char> {
    Seq::new(n, |i: int| ' ')
}

/// What `{:<width$}` prints for `s`: `s`, then spaces up to `width` characters.
pub open spec fn pad_right_seq(s: Seq<char>, width: nat) -> Seq<char> {
    if s.len() < width {
        s + spaces((width - s.len()) as nat)
    } else {
        s
    }
}

/// What `{:>width$}` prints for `s`: spaces up to `width` characters, then `s`.
pub open spec fn pad_left_seq(s: Seq<char>, width: nat) -> Seq<char> {
    if s.len() < width {
        spaces((width - s.len()) as nat) + s
    } else {
        s
    }
}

/// The parts joined by the separator, as `[..].join(sep)` does.
pub open spec fn join_seq(parts: Seq<Seq<char>>, sep: Seq<char>) -> Seq<char>
    decreases parts.len(),
{
    if parts.len() == 0 {
        Seq::empty()
    } else if parts.len() == 1 {
        parts[0]
    } else {
        join_seq(parts.drop_last(), sep) + sep + parts.last()
    }
}

/// The views of a vector of strings.
pub open spec fn views(v: Seq<String>) -> Seq<Seq<char>> {
    v.map_values(|s: String| s@)
}

fn digit_str(d: u128) -> (s: &'static str)
    requires
        d < 10,
    ensures
        s@ == seq![digit_char(d as nat)],
{
    proof {
        reveal_strlit("0");
        reveal_strlit("1");
        reveal_strlit("2");
        reveal_strlit("3");
        reveal_strlit("4");
        reveal_strlit("5");
        reveal_strlit("6");
        reveal_strlit("7");
        reveal_strlit("8");
        reveal_strlit("9");
    }
    if d == 0 { "0" }
    else if d == 1 { "1" }
    else if d == 2 { "2" }
    else if d == 3 { "3" }
    else if d == 4 { "4" }
    else if d == 5 { "5" }
    else if d == 6 { "6" }
    else if d == 7 { "7" }
    else if d == 8 { "8" }
    else { "9" }
}

/// Appends the decimal digits of `n`.
pub fn append_digits(s: &mut String, n: u128)
    ensures
        final(s)@ == old(s)@ + digits(n as nat),
    decreases n,
{
    if n >= 10 {
        append_digits(s, n / 10);
    }
    s.append(digit_str(n % 10));
}

/// Appends what `{}` prints for `n`.
pub fn append_i64(s: &mut String, n: i64)
    ensures
        final(s)@ == old(s)@ + decimal(n as int),
{
    if n < 0 {
        proof {
            reveal_strlit("-");
        }
        let mag: u64 = ((-(n + 1)) as u64) + 1;
        s.append("-");
        append_digits(s, mag as u128);
    } else {
        append_digits(s, n as u128);
    }
}

/// Appends what `{}` prints for `n`.
pub fn append_usize(s: &mut String, n: usize)
    ensures
        final(s)@ == old(s)@ + decimal(n as int),
{
    append_digits(s, n as u128);
}

/// Appends `n` copies of `piece`.
pub fn append_repeat(s: &mut String, piece: &str, n: usize)
    ensures
        final(s)@ == old(s)@ + repeat_seq(piece@, n as nat),
{
    let ghost start = s@;
    let mut i: usize = 0;
    while i < n
        invariant
            i <= n,
            s@ == start + repeat_seq(piece@, i as nat),
        decreases n - i,
    {
        s.append(piece);
        i = i + 1;
        assert(repeat_seq(piece@, i as nat) == repeat_seq(piece@, (i - 1) as nat) + piece@);
    }
}

/// Appends `n` spaces.
pub fn append_spaces(s: &mut String, n: usize)
    ensures
        final(s)@ == old(s)@ + spaces(n as nat),
{
    let ghost start = s@;
    let mut i: usize = 0;
    while i < n
        invariant
            i <= n,
            s@ == start + spaces(i as nat),
        decreases n - i,
    {
        proof {
            reveal_strlit(" ");
        }
        s.append(" ");
        i = i + 1;
        assert(s@ =~= start + spaces(i as nat));
    }
}

/// Appends `t` left-aligned in a field of `width` characters.
pub fn append_pad_right(s: &mut String, t: &str, width: usize)
    ensures
        final(s)@ == old(s)@ + pad_right_seq(t@, width as nat),
{
    let len = t.unicode_len();
    s.append(t);
    if len < width {
        append_spaces(s, width - len);
    }
}

/// Appends `t` right-aligned in a field of `width` characters.
pub fn append_pad_left(s: &mut String, t: &str, width: usize)
    ensures
        final(s)@ == old(s)@ + pad_left_seq(t@, width as nat),
{
    let len = t.unicode_len();
    if len < width {
        append_spaces(s, width - len);
    }
    s.append(t);
}

/// Joins the strings with the separator.
pub fn join(parts: &Vec<String>, sep: &str) -> (r: String)
    ensures
        r@ == join_seq(views(parts@), sep@),
{
    let mut r = String::new();
    let ghost vs = views(parts@);
    let mut i: usize = 0;
    while i < parts.len()
        invariant
            i <= parts.len(),
            vs == views(parts@),
            r@ == join_seq(vs.take(i as int), sep@),
        decreases parts.len() - i,
    {
        if i > 0 {
            r.append(sep);
        }
        r.append(parts[i].as_str());
        assert(vs.take(i + 1).drop_last() =~= vs.take(i as int));
        i = i + 1;
    }
    assert(vs.take(parts.len() as int) =~= vs);
    r
}

/// Copies the strings of a slice into a vector.
pub fn copy_strings(apps: &[String]) -> (v: Vec<String>)
    ensures
        views(v@) == views(apps@),
{
    let mut v: Vec<String> = Vec::new();
    let mut i: usize = 0;
    while i < apps.len()
        invariant
            i <= apps.len(),
            v@.len() == i,
            views(v@) == views(apps@).take(i as int),
        decreases apps.len() - i,
    {
        let ghost prev = v@;
        let c = apps[i].clone();
        assert(c@ == apps@[i as int]@);
        v.push(c);
        assert(v@ == prev.push(c));
        assert forall|k: int| 0 <= k < i + 1 implies #[trigger] views(v@)[k] == views(apps@)[k] by {
            if k < i {
                assert(views(prev)[k] == views(apps@).take(i as int)[k]);
            }
        }
        assert(views(v@) =~= views(apps@).take((i + 1) as int));
        i = i + 1;
    }
    assert(views(apps@).take(apps.len() as int) =~= views(apps@));
    v
}

/// Whether a character is a decimal digit.
pub open spec fn is_digit(c: char) -> bool {
    '0' <= c && c <= '9'
}

/// The number a text of decimal digits reads as, most significant first.
pub open spec fn digits_value(s: Seq<char>) -> int
    decreases s.len(),
{
    if s.len() == 0 {
        0
    } else {
        digits_value(s.drop_last()) * 10 + (s.last() as int - '0' as int)
    }
}

/// A digit character stands for its digit.
proof fn lemma_digit_char(d: nat)
    requires
        d < 10,
    ensures
        digit_char(d) as int == '0' as int + d,
        is_digit(digit_char(d)),
        d > 0 ==> digit_char(d) != '0',
{
    assert('0' as int == 48 && '1' as int == 49 && '2' as int == 50 && '3' as int == 51 && '4' as int == 52);
    assert('5' as int == 53 && '6' as int == 54 && '7' as int == 55 && '8' as int == 56 && '9' as int == 57);
}

/// The digits of a number are decimal digits that read back as the number,
/// without a leading zero (only zero itself is written `0`).
pub proof fn law_digits_read_back(n: nat)
    ensures
        forall|i: int| 0 <= i < digits(n).len() ==> is_digit(#[trigger] digits(n)[i]),
        digits_value(digits(n)) == n,
        digits(n).len() >= 1,
        n > 0 ==> digits(n)[0] != '0',
    decreases n,
{
    if n < 10 {
        lemma_digit_char(n);
        assert(digits(n).drop_last() =~= Seq::<char>::empty());
        assert(digits(n).last() == digit_char(n));
        assert(digits_value(digits(n)) == digits_value(Seq::<char>::empty()) * 10 + (digit_char(n) as int - '0' as int));
    } else {
        law_digits_read_back(n / 10);
        lemma_digit_char(n % 10);
        let d = digits(n / 10);
        assert(digits(n) == d.push(digit_char(n % 10)));
        assert(digits(n).drop_last() =~= d);
        assert(digits(n)[0] == d[0]);
        assert(digits(n).last() == digit_char(n % 10));
        assert(digits_value(digits(n)) == digits_value(d) * 10 + (digit_char(n % 10) as int - '0' as int));
        assert(n == (n / 10) * 10 + n % 10);
        assert(forall|i: int| 0 <= i < digits(n).len() ==> #[trigger] digits(n)[i] == if i < d.len() {
            d[i]
        } else {
            digit_char(n % 10)
        });
    }
}

/// A negative number is written as a minus sign and the digits of its
/// magnitude; any other as its digits.
pub proof fn law_decimal_sign(n: int)
    ensures
        n < 0 ==> decimal(n)[0] == '-' && decimal(n).drop_first() == digits((-n) as nat),
        n >= 0 ==> decimal(n) == digits(n as nat) && digits_value(decimal(n)) == n,
{
    if n < 0 {
        assert((seq!['-'] + digits((-n) as nat)).drop_first() =~= digits((-n) as nat));
    } else {
        law_digits_read_back(n as nat);
    }
}

/// Left-aligned padding keeps the text at the start and fills with spaces
/// up to the width; right-aligned padding keeps it at the end. A text at
/// least as wide as the width is kept as it is.
pub proof fn law_padding(s: Seq<char>, width: nat)
    ensures
        pad_right_seq(s, width).len() == if s.len() < width { width } else { s.len() },
        pad_right_seq(s, width).take(s.len() as int) == s,
        forall|i: int| s.len() <= i < pad_right_seq(s, width).len() ==> #[trigger] pad_right_seq(s, width)[i] == ' ',
        pad_left_seq(s, width).len() == if s.len() < width { width } else { s.len() },
        pad_left_seq(s, width).skip(pad_left_seq(s, width).len() - s.len()) == s,
        forall|i: int|
            0 <= i < pad_left_seq(s, width).len() - s.len() ==> #[trigger] pad_left_seq(s, width)[i] == ' ',
{
    assert(pad_right_seq(s, width).take(s.len() as int) =~= s);
    assert(pad_left_seq(s, width).skip(pad_left_seq(s, width).len() - s.len()) =~= s);
}

/// `n` copies of a text are `n` times as long, and `n` copies of one
/// character are that character throughout.
pub proof fn law_repeat(s: Seq<char>, n: nat)
    ensures
        repeat_seq(s, n).len() == n * s.len(),
        s.len() == 1 ==> forall|i: int| 0 <= i < repeat_seq(s, n).len() ==> #[trigger] repeat_seq(s, n)[i] == s[0],
    decreases n,
{
    if n > 0 {
        law_repeat(s, (n - 1) as nat);
        assert(repeat_seq(s, n).len() == (n - 1) * s.len() + s.len());
        assert((n - 1) * s.len() + s.len() == n * s.len()) by (nonlinear_arith);
    }
}

} // verus!
