//! Decimal rendering and the creation date of a record: a calendar date
//! rendered as `YYYY-MM-DD`, with the current local date supplied by the
//! system clock.

use vstd::prelude::*;

verus! {

/// The decimal digit character for `n` (0 through 9).
pub open spec fn dec_digit(n: int) -> char {
    if n == 0 {
        '0'
    } else if n == 1 {
        '1'
    } else if n == 2 {
        '2'
    } else if n == 3 {
        '3'
    } else if n == 4 {
        '4'
    } else if n == 5 {
        '5'
    } else if n == 6 {
        '6'
    } else if n == 7 {
        '7'
    } else if n == 8 {
        '8'
    } else {
        '9'
    }
}

/// The decimal rendering of `n`, most significant digit first, with no
/// leading zeros (except for `n == 0` itself).
pub open spec fn dec_rep(n: nat) -> Seq<char>
    decreases n,
{
    if n < 10 {
        seq![dec_digit(n as int)]
    } else {
        dec_rep(n / 10).push(dec_digit((n % 10) as int))
    }
}

/// A run of `n` zero characters (empty when `n <= 0`).
pub open spec fn zeros(n: int) -> Seq<char>
    decreases n,
{
    if n <= 0 {
        Seq::empty()
    } else {
        seq!['0'] + zeros(n - 1)
    }
}

/// The decimal rendering of `n` left-padded with zeros to at least `w`
/// characters.
pub open spec fn padded_dec(n: nat, w: int) -> Seq<char> {
    zeros(w - dec_rep(n).len()) + dec_rep(n)
}

/// The year field of a rendered date: at least four digits, with a leading
/// minus sign for years before year zero.
pub open spec fn year_seq(y: int) -> Seq<char> {
    if y >= 0 {
        padded_dec(y as nat, 4)
    } else {
        seq!['-'] + padded_dec((-y) as nat, 4)
    }
}

/// The full `YYYY-MM-DD` rendering of a calendar date.
pub open spec fn date_seq(y: int, m: int, d: int) -> Seq<char> {
    year_seq(y) + seq!['-'] + padded_dec(m as nat, 2) + seq!['-'] + padded_dec(d as nat, 2)
}

/// How many digits `dec_rep` produces, for the ranges the date needs.
proof fn lemma_dec_rep_len(n: nat)
    ensures
        n < 10 ==> dec_rep(n).len() == 1,
        10 <= n < 100 ==> dec_rep(n).len() == 2,
        100 <= n < 1000 ==> dec_rep(n).len() == 3,
        1000 <= n ==> dec_rep(n).len() >= 4,
    decreases n,
{
    if n >= 10 {
        lemma_dec_rep_len(n / 10);
    }
}

/// The digit character for `d`, executably.
fn digit_char(d: u64) -> (c: char)
    requires
        d < 10,
    ensures
        c == dec_digit(d as int),
{
    match d {
        0 => '0',
        1 => '1',
        2 => '2',
        3 => '3',
        4 => '4',
        5 => '5',
        6 => '6',
        7 => '7',
        8 => '8',
        _ => '9',
    }
}

/// Append the decimal rendering of `n` to `out`.
fn push_dec(n: u64, out: &mut Vec<char>)
    ensures
        final(out)@ == old(out)@ + dec_rep(n as nat),
    decreases n,
{
    if n < 10 {
        out.push(digit_char(n));
        proof {
            assert(out@ =~= old(out)@ + dec_rep(n as nat));
        }
    } else {
        push_dec(n / 10, out);
        out.push(digit_char(n % 10));
        proof {
            assert(out@ =~= old(out)@ + dec_rep(n as nat));
        }
    }
}

/// Append the decimal rendering of `n` to `out`, zero-padded to at least
/// `width` characters; only widths up to 4 arise here.
fn push_padded_dec(n: u64, width: u8, out: &mut Vec<char>)
    requires
        width <= 4,
    ensures
        final(out)@ == old(out)@ + padded_dec(n as nat, width as int),
{
    proof {
        lemma_dec_rep_len(n as nat);
    }
    if width >= 2 && n < 10 {
        out.push('0');
    }
    if width >= 3 && n < 100 {
        out.push('0');
    }
    if width >= 4 && n < 1000 {
        out.push('0');
    }
    push_dec(n, out);
    proof {
        reveal_with_fuel(zeros, 5);
        assert(zeros(0) =~= Seq::<char>::empty());
        assert(zeros(1) =~= seq!['0']);
        assert(zeros(2) =~= seq!['0', '0']);
        assert(zeros(3) =~= seq!['0', '0', '0']);
        assert(out@ =~= old(out)@ + padded_dec(n as nat, width as int));
    }
}

/// The decimal rendering of `n` as a string.
pub fn u64_to_string(n: u64) -> (r: String)
    ensures
        r@ == dec_rep(n as nat),
{
    let mut out: Vec<char> = Vec::new();
    push_dec(n, &mut out);
    crate::codec::chars_to_string(&out)
}

/// Render a calendar date as `YYYY-MM-DD`.
pub fn format_date(y: i32, m: u8, d: u8) -> (r: String)
    requires
        1 <= m <= 12,
        1 <= d <= 31,
    ensures
        r@ == date_seq(y as int, m as int, d as int),
{
    let mut out: Vec<char> = Vec::new();
    if y >= 0 {
        push_padded_dec(y as u64, 4, &mut out);
    } else {
        out.push('-');
        let pos: u64 = (-(y as i64)) as u64;
        push_padded_dec(pos, 4, &mut out);
    }
    out.push('-');
    push_padded_dec(m as u64, 2, &mut out);
    out.push('-');
    push_padded_dec(d as u64, 2, &mut out);
    proof {
        assert(out@ =~= date_seq(y as int, m as int, d as int));
    }
    crate::codec::chars_to_string(&out)
}

/// Relies on `chrono::Local::now` and `chrono::Datelike`: the year, month
/// and day of the current local calendar date; `month` is documented to lie
/// in 1..=12 and `day` in 1..=31.
#[verifier::external_body]
fn local_today() -> (r: (i32, u8, u8))
    ensures
        1 <= r.1 <= 12,
        1 <= r.2 <= 31,
{
    let today = chrono::Local::now().date_naive();
    (
        chrono::Datelike::year(&today),
        chrono::Datelike::month(&today) as u8,
        chrono::Datelike::day(&today) as u8,
    )
}

/// Today's local date, rendered as `YYYY-MM-DD`. Whatever the clock says,
/// the result renders some calendar date.
pub fn today_date_string() -> (r: String)
    ensures
        exists|y: int, m: int, d: int|
            1 <= m <= 12 && 1 <= d <= 31 && r@ == date_seq(y, m, d),
{
    let (y, m, d) = local_today();
    let r = format_date(y, m, d);
    proof {
        assert(1 <= m as int <= 12 && 1 <= d as int <= 31 && r@ == date_seq(
            y as int,
            m as int,
            d as int,
        ));
    }
    r
}

} // verus!
