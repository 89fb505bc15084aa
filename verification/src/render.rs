//! The text layout shared by the reports: a numbered, aligned table of
//! labels with counts and bars, the separator rule, and durations.

use vstd::prelude::*;
use vstd::string::*;
use vstd::utf8::{encode_utf8, encode_scalar};
use vstd::arithmetic::div_mod::lemma_fundamental_div_mod_converse;
use crate::text::{
    law_digits_read_back, digit_char, digits, decimal, repeat_seq, pad_left_seq, pad_right_seq, views, append_i64, append_usize,
    append_repeat, append_pad_left, append_pad_right, join, join_seq,
};

verus! {

/// Width of the bars: a count equal to the largest gets this many blocks.
pub const BAR_WIDTH: i64 = 20;

/// The largest count the bar arithmetic (`count * 20`) takes without overflow.
pub const MAX_COUNT: i64 = 461168601842738790;

/// Width of the count column of the bigram table.
pub const BIGRAM_COUNT_WIDTH: usize = 5;

/// Width of the count column of the key and trigram tables.
pub const COUNT_WIDTH: usize = 6;

/// Counts a table can show: when there are any, the first (the one the bars
/// are scaled to) is positive, none is negative, `count * 20` fits an
/// `i64`, and each bar's length fits a `usize`.
pub open spec fn counts_ok(counts: Seq<i64>) -> bool {
    counts.len() > 0 ==> {
        &&& 0 < counts[0]
        &&& forall|i: int|
            0 <= i < counts.len() ==> 0 <= #[trigger] counts[i] <= MAX_COUNT && bar_len(
                counts[i] as int,
                counts[0] as int,
            ) <= usize::MAX
    }
}

/// Length in bytes (UTF-8) of a text, as `str::len` gives it (a `usize`).
pub open spec fn byte_len(s: Seq<char>) -> nat {
    (encode_utf8(s).len() as usize) as nat
}

/// The widest label in bytes; 1 when there is none.
pub open spec fn max_byte_len(labels: Seq<Seq<char>>) -> nat
    decreases labels.len(),
{
    if labels.len() == 0 {
        1
    } else if labels.len() == 1 {
        byte_len(labels[0])
    } else {
        let rest = max_byte_len(labels.drop_last());
        let last = byte_len(labels.last());
        if last > rest { last } else { rest }
    }
}

/// Number of blocks in the bar of `count` when the largest count is `max`:
/// proportional, rounded down, so that the largest count gets 20 blocks
/// (45 of 45 gets 20, 32 of 45 gets 14).
pub open spec fn bar_len(count: int, max: int) -> int {
    (count * 20) / max
}

/// One table line: `{:>2}.  {:<width$}  {:>count_width$}  ` then the bar,
/// and with an application column `{:<20}  {app}` in place of the bare bar.
pub open spec fn table_line(
    index: nat,
    label: Seq<char>,
    width: nat,
    count_width: nat,
    count: int,
    max: int,
    app: Option<Seq<char>>,
) -> Seq<char> {
    let bar = repeat_seq("█"@, bar_len(count, max) as nat);
    pad_left_seq(decimal((index + 1) as int), 2) + ".  "@ + pad_right_seq(label, width) + "  "@ + pad_left_seq(
        decimal(count),
        count_width,
    ) + "  "@ + match app {
        Some(a) => pad_right_seq(bar, 20) + "  "@ + a,
        None => bar,
    } + "\n"@
}

/// The lines of a table, one per label, numbered from 1, the bars scaled to
/// the first count, the application column present when `apps` is given.
pub open spec fn table_text(
    labels: Seq<Seq<char>>,
    counts: Seq<i64>,
    apps: Option<Seq<Seq<char>>>,
    width: nat,
    count_width: nat,
    n: nat,
) -> Seq<char>
    decreases n,
{
    if n == 0 {
        Seq::empty()
    } else {
        let i = (n - 1) as nat;
        table_text(labels, counts, apps, width, count_width, i) + table_line(
            i,
            labels[i as int],
            width,
            count_width,
            counts[i as int] as int,
            counts[0] as int,
            match apps {
                Some(a) => Some(a[i as int]),
                None => None,
            },
        )
    }
}

/// The rule under a report's heading: 42 box-drawing dashes and a newline.
pub open spec fn rule_text() -> Seq<char> {
    repeat_seq("─"@, 42) + "\n"@
}

/// Appends the rule under a heading.
pub fn append_rule(s: &mut String)
    ensures
        final(s)@ == old(s)@ + rule_text(),
{
    append_repeat(s, "─", 42);
    s.append("\n");
}

/// The widest label in bytes; 1 when there is none.
pub fn widest(labels: &Vec<String>) -> (w: usize)
    ensures
        w == max_byte_len(views(labels@)),
{
    let ghost vs = views(labels@);
    if labels.len() == 0 {
        return 1;
    }
    let mut w = labels[0].as_str().len();
    assert(vs.take(1)[0] == vs[0]);
    let mut i: usize = 1;
    while i < labels.len()
        invariant
            1 <= i <= labels.len(),
            vs == views(labels@),
            w == max_byte_len(vs.take(i as int)),
        decreases labels.len() - i,
    {
        let l = labels[i].as_str().len();
        assert(l == byte_len(vs[i as int]));
        assert(vs.take(i + 1).drop_last() =~= vs.take(i as int));
        if l > w {
            w = l;
        }
        i = i + 1;
    }
    assert(vs.take(labels.len() as int) =~= vs);
    w
}

/// Appends one table line (see `table_line`).
#[verifier::rlimit(30)]
pub fn append_table_line(
    s: &mut String,
    index: usize,
    label: &str,
    width: usize,
    count_width: usize,
    count: i64,
    max: i64,
    app: Option<&str>,
)
    requires
        index < usize::MAX,
        0 <= count <= MAX_COUNT,
        0 < max,
        bar_len(count as int, max as int) <= usize::MAX,
    ensures
        final(s)@ == old(s)@ + table_line(
            index as nat,
            label@,
            width as nat,
            count_width as nat,
            count as int,
            max as int,
            match app {
                Some(a) => Some(a@),
                None => None,
            },
        ),
{
    let ghost before = s@;
    let mut num = String::new();
    append_usize(&mut num, index + 1);
    append_pad_left(s, num.as_str(), 2);
    s.append(".  ");
    append_pad_right(s, label, width);
    s.append("  ");
    let mut cnt = String::new();
    append_i64(&mut cnt, count);
    append_pad_left(s, cnt.as_str(), count_width);
    s.append("  ");
    assert(0 <= count * 20 <= MAX_COUNT * 20) by (nonlinear_arith)
        requires
            0 <= count <= MAX_COUNT,
    ;
    let blocks = (count * 20) / max;
    assert(0 <= blocks) by (nonlinear_arith)
        requires
            0 <= count,
            0 < max,
            blocks as int == (count * 20) as int / (max as int),
    ;
    let mut bar = String::new();
    append_repeat(&mut bar, "█", blocks as usize);
    match app {
        Some(a) => {
            append_pad_right(s, bar.as_str(), 20);
            s.append("  ");
            s.append(a);
        },
        None => {
            s.append(bar.as_str());
        },
    }
    s.append("\n");
    assert(s@ =~= before + table_line(
        index as nat,
        label@,
        width as nat,
        count_width as nat,
        count as int,
        max as int,
        match app {
            Some(a) => Some(a@),
            None => None,
        },
    ));
}

/// Appends the lines of a table (see `table_text`).
pub fn append_table(
    s: &mut String,
    labels: &Vec<String>,
    counts: &Vec<i64>,
    apps: Option<&Vec<String>>,
    width: usize,
    count_width: usize,
)
    requires
        labels.len() == counts.len(),
        apps matches Some(a) ==> a.len() == labels.len(),
        counts_ok(counts@),
    ensures
        final(s)@ == old(s)@ + table_text(
            views(labels@),
            counts@,
            match apps {
                Some(a) => Some(views(a@)),
                None => None,
            },
            width as nat,
            count_width as nat,
            labels.len() as nat,
        ),
{
    let ghost start = s@;
    let ghost app_views = match apps {
        Some(a) => Some(views(a@)),
        None => None,
    };
    let mut i: usize = 0;
    while i < labels.len()
        invariant
            i <= labels.len(),
            labels.len() == counts.len(),
            apps matches Some(a) ==> a.len() == labels.len(),
            counts_ok(counts@),
            app_views == match apps {
                Some(a) => Some(views(a@)),
                None => None,
            },
            s@ == start + table_text(views(labels@), counts@, app_views, width as nat, count_width as nat, i as nat),
        decreases labels.len() - i,
    {
        assert(0 <= counts@[i as int] <= MAX_COUNT);
        let app = match apps {
            Some(a) => Some(a[i].as_str()),
            None => None,
        };
        append_table_line(s, i, labels[i].as_str(), width, count_width, counts[i], counts[0], app);
        assert(s@ =~= start + table_text(
            views(labels@),
            counts@,
            app_views,
            width as nat,
            count_width as nat,
            (i + 1) as nat,
        ));
        i = i + 1;
    }
}

/// Truncating division, as `/` on signed integers.
pub open spec fn tdiv(a: int, b: int) -> int {
    if a >= 0 {
        a / b
    } else {
        -((-a) / b)
    }
}

/// Truncating remainder, as `%` on signed integers.
pub open spec fn trem(a: int, b: int) -> int {
    if a >= 0 {
        a % b
    } else {
        -((-a) % b)
    }
}

/// A duration in seconds as days, hours and minutes: `{d}d {h}h {m}m`, or
/// `{h}h {m}m` under a day, or `{m}m` under an hour.
pub open spec fn duration_text(secs: int) -> Seq<char> {
    let d = tdiv(secs, 86400);
    let h = tdiv(trem(secs, 86400), 3600);
    let m = tdiv(trem(secs, 3600), 60);
    if d > 0 {
        decimal(d) + "d "@ + decimal(h) + "h "@ + decimal(m) + "m"@
    } else if h > 0 {
        decimal(h) + "h "@ + decimal(m) + "m"@
    } else {
        decimal(m) + "m"@
    }
}

/// Formats a duration in seconds (see `duration_text`).
pub fn format_duration(secs: i64) -> (r: String)
    ensures
        r@ == duration_text(secs as int),
{
    let d = secs / 86400;
    let h = (secs % 86400) / 3600;
    let m = (secs % 3600) / 60;
    let mut r = String::new();
    if d > 0 {
        append_i64(&mut r, d);
        r.append("d ");
        append_i64(&mut r, h);
        r.append("h ");
        append_i64(&mut r, m);
        r.append("m");
    } else if h > 0 {
        append_i64(&mut r, h);
        r.append("h ");
        append_i64(&mut r, m);
        r.append("m");
    } else {
        append_i64(&mut r, m);
        r.append("m");
    }
    r
}

/// One side of a key label: `mods+key`, or the bare key without modifiers.
pub open spec fn key_label(mods: Seq<char>, key: Seq<char>) -> Seq<char> {
    if mods.len() == 0 {
        key
    } else {
        mods + "+"@ + key
    }
}

/// Appends `mods+key`, or the bare key without modifiers.
pub fn append_key_label(s: &mut String, mods: &str, key: &str)
    ensures
        final(s)@ == old(s)@ + key_label(mods@, key@),
{
    if mods.unicode_len() == 0 {
        s.append(key);
    } else {
        let ghost before = s@;
        s.append(mods);
        s.append("+");
        s.append(key);
        assert(s@ =~= before + key_label(mods@, key@));
    }
}

/// Seconds from `first` to `now` (both in milliseconds), rounded toward zero.
pub open spec fn elapsed_secs(now: i64, first: Option<i64>) -> Option<i64> {
    match first {
        Some(f) => Some(tdiv(now - f, 1000) as i64),
        None => None,
    }
}

/// Seconds from the first recorded keystroke to `now`, none without one.
pub fn duration_since(now: i64, first: Option<i64>) -> (r: Option<i64>)
    ensures
        r == elapsed_secs(now, first),
{
    match first {
        Some(f) => Some((((now as i128) - (f as i128)) / 1000) as i64),
        None => None,
    }
}

/// Appends a heading: the global title without applications, else the
/// filtered title followed by the applications joined with `, `.
pub fn append_heading(s: &mut String, apps: &Vec<String>, global: &str, filtered: &str)
    ensures
        final(s)@ == old(s)@ + heading_text(views(apps@), global@, filtered@),
{
    if apps.len() == 0 {
        s.append(global);
    } else {
        let joined = join(apps, ", ");
        s.append(filtered);
        s.append(joined.as_str());
    }
}

/// A report heading (see `append_heading`).
pub open spec fn heading_text(apps: Seq<Seq<char>>, global: Seq<char>, filtered: Seq<char>) -> Seq<char> {
    if apps.len() == 0 {
        global
    } else {
        filtered + join_seq(apps, ", "@)
    }
}

/// In a table whose first count is the largest, as in every query result,
/// every bar is between 0 and 20 blocks long, and the first count gets the
/// full 20.
pub proof fn law_bars_fit(counts: Seq<i64>, i: int)
    requires
        counts_ok(counts),
        0 <= i < counts.len(),
        forall|j: int| 0 <= j < counts.len() ==> #[trigger] counts[j] <= counts[0],
    ensures
        0 <= bar_len(counts[i] as int, counts[0] as int) <= 20,
        bar_len(counts[0] as int, counts[0] as int) == 20,
{
    let c = counts[i] as int;
    let m = counts[0] as int;
    assert(0 <= c <= m);
    assert(0 <= (c * 20) / m <= 20) by (nonlinear_arith)
        requires
            0 <= c <= m,
            0 < m,
    ;
    assert((m * 20) / m == 20) by (nonlinear_arith)
        requires
            0 < m,
    ;
}

/// A duration under an hour shows whole minutes only; under a day it shows
/// no days.
pub proof fn law_short_durations(secs: int)
    requires
        0 <= secs,
    ensures
        secs < 3600 ==> duration_text(secs) == decimal(secs / 60) + "m"@,
        secs < 86400 ==> tdiv(secs, 86400) == 0,
{
    if secs < 3600 {
        assert(secs / 86400 == 0);
        assert(secs % 86400 == secs);
        assert(secs / 3600 == 0);
        assert(secs % 3600 == secs);
    }
}

/// A text has at least as many UTF-8 bytes as characters.
proof fn lemma_bytes_at_least_chars(s: Seq<char>)
    ensures
        encode_utf8(s).len() >= s.len(),
    decreases s.len(),
{
    if s.len() > 0 {
        lemma_bytes_at_least_chars(s.drop_first());
        assert(encode_scalar(s[0] as u32).len() >= 1);
    }
}

/// The widest label is at least as wide as each label.
proof fn lemma_max_byte_len_bounds(labels: Seq<Seq<char>>, i: int)
    requires
        0 <= i < labels.len(),
    ensures
        byte_len(labels[i]) <= max_byte_len(labels),
    decreases labels.len(),
{
    if labels.len() > 1 && i < labels.len() - 1 {
        lemma_max_byte_len_bounds(labels.drop_last(), i);
        assert(labels.drop_last()[i] == labels[i]);
    }
}

/// The label column of a table is aligned: every label is padded to the
/// same width, the byte length of the widest label (labels of at most
/// `usize::MAX` bytes).
pub proof fn law_label_column_aligned(labels: Seq<Seq<char>>, i: int)
    requires
        0 <= i < labels.len(),
        forall|j: int| 0 <= j < labels.len() ==> encode_utf8(#[trigger] labels[j]).len() <= usize::MAX,
    ensures
        pad_right_seq(labels[i], max_byte_len(labels)).len() == max_byte_len(labels),
{
    lemma_max_byte_len_bounds(labels, i);
    lemma_bytes_at_least_chars(labels[i]);
    assert(encode_utf8(labels[i]).len() <= usize::MAX);
}

/// The duration text shows whole days, the hours left over (under 24) and
/// the minutes left over (under 60): for a duration of `d` days, `h` hours,
/// `m` minutes and under a minute more, it is `{d}d {h}h {m}m`, without the
/// days when there are none, and without the hours too when there are
/// neither.
pub proof fn law_duration_parts(secs: int, d: int, h: int, m: int)
    requires
        0 <= d,
        0 <= h < 24,
        0 <= m < 60,
        d * 86400 + h * 3600 + m * 60 <= secs < d * 86400 + h * 3600 + m * 60 + 60,
    ensures
        duration_text(secs) == if d > 0 {
            decimal(d) + "d "@ + decimal(h) + "h "@ + decimal(m) + "m"@
        } else if h > 0 {
            decimal(h) + "h "@ + decimal(m) + "m"@
        } else {
            decimal(m) + "m"@
        },
{
    let s = secs - (d * 86400 + h * 3600 + m * 60);
    lemma_fundamental_div_mod_converse(secs, 86400, d, h * 3600 + m * 60 + s);
    lemma_fundamental_div_mod_converse(h * 3600 + m * 60 + s, 3600, h, m * 60 + s);
    lemma_fundamental_div_mod_converse(secs, 3600, d * 24 + h, m * 60 + s);
    lemma_fundamental_div_mod_converse(m * 60 + s, 60, m, s);
}

/// A bar is the count's share of 20 blocks against the largest count,
/// rounded down: `bar * max <= count * 20 < (bar + 1) * max`.
pub proof fn law_bar_proportional(count: int, max: int)
    requires
        0 <= count,
        0 < max,
    ensures
        0 <= bar_len(count, max),
        bar_len(count, max) * max <= count * 20 < (bar_len(count, max) + 1) * max,
{
    let b = bar_len(count, max);
    vstd::arithmetic::div_mod::lemma_fundamental_div_mod(count * 20, max);
    vstd::arithmetic::div_mod::lemma_mod_pos_bound(count * 20, max);
    assert(b * max <= count * 20 < (b + 1) * max) by (nonlinear_arith)
        requires
            b == (count * 20) / max,
            count * 20 == max * ((count * 20) / max) + (count * 20) % max,
            0 <= (count * 20) % max < max,
    ;
    assert(0 <= b) by (nonlinear_arith)
        requires
            b * max <= count * 20 < (b + 1) * max,
            0 <= count,
            0 < max,
    ;
}

/// The seconds from the first keystroke to `now` are the elapsed
/// milliseconds in whole seconds, rounded toward zero; none without a first
/// keystroke.
pub proof fn law_elapsed_whole_seconds(now: i64, first: Option<i64>)
    ensures
        first is None ==> elapsed_secs(now, first) is None,
        first matches Some(f) ==> elapsed_secs(now, first) matches Some(r) && (now >= f ==> r * 1000 <= now - f
            < r * 1000 + 1000) && (now < f ==> r * 1000 - 1000 < now - f <= r * 1000),
{
    if let Some(f) = first {
        let x = now - f;
        if x >= 0 {
            vstd::arithmetic::div_mod::lemma_fundamental_div_mod(x, 1000);
            assert(x / 1000 <= x);
            assert((x / 1000) as i64 == x / 1000);
        } else {
            vstd::arithmetic::div_mod::lemma_fundamental_div_mod(-x, 1000);
            assert((-x) / 1000 <= -x);
            assert((-((-x) / 1000)) as i64 == -((-x) / 1000));
        }
    }
}

/// The columns of a table line: the number right-aligned in two columns and
/// a dot, the label from column 5 padded to the width, and the count
/// right-aligned in the count columns two columns after it, the same
/// columns on every line whose label, number and count fit.
pub proof fn law_table_columns(
    index: nat,
    label: Seq<char>,
    width: nat,
    count_width: nat,
    count: int,
    max: int,
    app: Option<Seq<char>>,
)
    requires
        index + 1 < 100,
        label.len() <= width,
        decimal(count).len() <= count_width,
    ensures
        ({
            let line = table_line(index, label, width, count_width, count, max, app);
            &&& line.subrange(0, 2) == pad_left_seq(decimal((index + 1) as int), 2)
            &&& line[2] == '.'
            &&& line.subrange(5, 5 + width as int) == pad_right_seq(label, width)
            &&& line.subrange(7 + width as int, 7 + width as int + count_width as int) == pad_left_seq(decimal(count), count_width)
            &&& line.last() == '\n'
        }),
{
    let n = pad_left_seq(decimal((index + 1) as int), 2);
    law_digits_read_back((index + 1) as nat);
    assert(digits((index + 1) as nat).len() <= 2) by {
        if index + 1 >= 10 {
            assert(digits((index + 1) as nat) == digits(((index + 1) / 10) as nat).push(
                digit_char(((index + 1) % 10) as nat),
            ));
        }
    }
    assert(n.len() == 2);
    let l = pad_right_seq(label, width);
    assert(l.len() == width);
    let c = pad_left_seq(decimal(count), count_width);
    assert(c.len() == count_width);
    let line = table_line(index, label, width, count_width, count, max, app);
    reveal_strlit(".  ");
    reveal_strlit("  ");
    reveal_strlit("\n");
    assert(line.subrange(0, 2) =~= n);
    assert(line.subrange(5, 5 + width as int) =~= l);
    assert(line.subrange(7 + width as int, 7 + width as int + count_width as int) =~= c);
}

} // verus!
