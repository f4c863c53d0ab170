use vstd::prelude::*;

use crate::datetime::CivilDateTime;

verus! {

/// The decimal digit character for `d` in `0..10`.
pub open spec fn digit_char(d: int) -> char {
    if d == 0 {
        '0'
    } else if d == 1 {
        '1'
    } else if d == 2 {
        '2'
    } else if d == 3 {
        '3'
    } else if d == 4 {
        '4'
    } else if d == 5 {
        '5'
    } else if d == 6 {
        '6'
    } else if d == 7 {
        '7'
    } else if d == 8 {
        '8'
    } else {
        '9'
    }
}

/// The decimal digits of `n`, without leading zeros.
pub open spec fn decimal(n: nat) -> Seq<char>
    decreases n,
{
    if n < 10 {
        seq![digit_char(n as int)]
    } else {
        decimal(n / 10) + seq![digit_char((n % 10) as int)]
    }
}

/// `s` with zeros put in front until it has `width` characters.
pub open spec fn zero_padded(s: Seq<char>, width: nat) -> Seq<char> {
    if s.len() >= width {
        s
    } else {
        Seq::new((width - s.len()) as nat, |i: int| '0') + s
    }
}

/// The two decimal digits of `n` in `0..100`.
pub open spec fn two_digits(n: int) -> Seq<char> {
    seq![digit_char(n / 10), digit_char(n % 10)]
}

fn digit_str(d: u32) -> (r: &'static str)
    requires
        d < 10,
    ensures
        r@ == seq![digit_char(d as int)],
{
    proof {
        reveal_strlit("0");
        reveal_strlit("1");
        reveal_strlit("2");
        reveal_strlit("3");
        reveal_strlit("4");
        reveal_strlit("5");
        reveal_strlit("6");
        reveal_strlit("7");
        reveal_strlit("8");
        reveal_strlit("9");
    }
    match d {
        0 => "0",
        1 => "1",
        2 => "2",
        3 => "3",
        4 => "4",
        5 => "5",
        6 => "6",
        7 => "7",
        8 => "8",
        _ => "9",
    }
}

/// The decimal digits of `n`.
pub fn decimal_text(n: u64) -> (r: String)
    ensures
        r@ == decimal(n as nat),
    decreases n,
{
    if n < 10 {
        String::from_str(digit_str(n as u32))
    } else {
        let mut s = decimal_text(n / 10);
        s.append(digit_str((n % 10) as u32));
        s
    }
}

/// The two decimal digits of `n`.
pub fn two_digit_text(n: u32) -> (r: String)
    requires
        n < 100,
    ensures
        r@ == two_digits(n as int),
{
    let mut s = String::from_str(digit_str(n / 10));
    s.append(digit_str(n % 10));
    s
}

/// The decimal digits of `n` with zeros put in front up to `width`.
pub fn zero_padded_text(n: u64, width: usize) -> (r: String)
    ensures
        r@ == zero_padded(decimal(n as nat), width as nat),
{
    let digits = decimal_text(n);
    let len = digits.as_str().unicode_len();
    if len >= width {
        return digits;
    }
    let mut s = String::new();
    let mut i: usize = 0;
    while i < width - len
        invariant
            i <= width - len,
            s@ == Seq::new(i as nat, |k: int| '0'),
        decreases width - len - i,
    {
        proof {
            reveal_strlit("0");
        }
        s.append("0");
        assert(s@ =~= Seq::new((i + 1) as nat, |k: int| '0'));
        i = i + 1;
    }
    s.append(digits.as_str());
    s
}

/// A year as ISO 8601 writes it: four digits from 0 to 9999, else a sign and
/// at least four digits.
pub open spec fn year_text(y: int) -> Seq<char> {
    if 0 <= y <= 9999 {
        zero_padded(decimal(y as nat), 4)
    } else if y < 0 {
        seq!['-'] + zero_padded(decimal((-y) as nat), 4)
    } else {
        seq!['+'] + zero_padded(decimal(y as nat), 4)
    }
}

/// A date written `YYYY-MM-DD`.
pub open spec fn date_text(year: int, month: nat, day: nat) -> Seq<char> {
    year_text(year) + seq!['-'] + zero_padded(decimal(month), 2) + seq!['-'] + zero_padded(
        decimal(day),
        2,
    )
}

/// A date written `YYYY-MM-DD`, years outside 0 to 9999 with a sign.
pub fn format_date(year: i32, month: u32, day: u32) -> (r: String)
    ensures
        r@ == date_text(year as int, month as nat, day as nat),
{
    proof {
        reveal_strlit("-");
        reveal_strlit("+");
    }
    let mut s = if 0 <= year && year <= 9999 {
        zero_padded_text(year as u64, 4)
    } else if year < 0 {
        let mut t = String::from_str("-");
        let magnitude: u64 = (-(year as i64)) as u64;
        let digits = zero_padded_text(magnitude, 4);
        t.append(digits.as_str());
        t
    } else {
        let mut t = String::from_str("+");
        let digits = zero_padded_text(year as u64, 4);
        t.append(digits.as_str());
        t
    };
    s.append("-");
    let m = zero_padded_text(month as u64, 2);
    s.append(m.as_str());
    s.append("-");
    let d = zero_padded_text(day as u64, 2);
    s.append(d.as_str());
    s
}

/// A clock time written `HH:MM`.
pub open spec fn clock_text(c: CivilDateTime) -> Seq<char> {
    two_digits(c.hour as int) + seq![':'] + two_digits(c.minute as int)
}

/// A clock time written `HH:MM`.
pub fn format_clock(c: &CivilDateTime) -> (r: String)
    requires
        c.wf(),
    ensures
        r@ == clock_text(*c),
{
    proof {
        reveal_strlit(":");
    }
    let mut s = two_digit_text(c.hour);
    s.append(":");
    let m = two_digit_text(c.minute);
    s.append(m.as_str());
    s
}

/// Seconds as hours with two decimals, rounded half away from zero.
pub open spec fn hours_text(seconds: int) -> Seq<char> {
    let magnitude = if seconds < 0 {
        -seconds
    } else {
        seconds
    };
    let hundredths = (magnitude + 18) / 36;
    let sign = if seconds < 0 {
        seq!['-']
    } else {
        Seq::empty()
    };
    sign + decimal((hundredths / 100) as nat) + seq!['.'] + two_digits(hundredths % 100)
}

/// Seconds as hours with two decimals, rounded half away from zero.
pub fn format_hours(seconds: i64) -> (r: String)
    ensures
        r@ == hours_text(seconds as int),
{
    proof {
        reveal_strlit("-");
        reveal_strlit(".");
    }
    let magnitude: u64 = if seconds < 0 {
        ((-(seconds + 1)) as u64) + 1
    } else {
        seconds as u64
    };
    let hundredths: u64 = (magnitude + 18) / 36;
    let mut s = if seconds < 0 {
        String::from_str("-")
    } else {
        String::new()
    };
    let whole = decimal_text(hundredths / 100);
    s.append(whole.as_str());
    s.append(".");
    let frac = two_digit_text((hundredths % 100) as u32);
    s.append(frac.as_str());
    assert(s@ =~= hours_text(seconds as int));
    s
}

} // verus!
