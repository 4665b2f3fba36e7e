use vstd::prelude::*;

verus! {

/// A calendar date and a wall-clock time of day, without a time zone, to the
/// second. Text form: `YYYY-MM-DD HH:MM:SS`, with a leading `-` for years
/// before year zero.
#[derive(Clone, Copy, Debug, PartialEq, Eq, Structural)]
pub struct CivilDateTime {
    pub year: i16,
    pub month: i8,
    pub day: i8,
    pub hour: i8,
    pub minute: i8,
    pub second: i8,
}

/// A date text that is not in the form `YYYY-MM-DD HH:MM:SS`, or names no
/// real date and time.
#[derive(Clone, Copy, Debug, PartialEq, Eq, Structural)]
pub struct DateParseError {}

pub open spec fn is_leap_year(y: int) -> bool {
    (y % 4 == 0 && y % 100 != 0) || y % 400 == 0
}

pub open spec fn days_in_month(y: int, m: int) -> int {
    if m == 2 {
        if is_leap_year(y) {
            29
        } else {
            28
        }
    } else if m == 4 || m == 6 || m == 9 || m == 11 {
        30
    } else {
        31
    }
}

pub open spec fn digit_char(n: int) -> char {
    ((n + 48) as u8) as char
}

pub open spec fn digit_val(c: char) -> int {
    c as int - 48
}

pub open spec fn is_digit(c: char) -> bool {
    '0' <= c <= '9'
}

/// The two decimal digits of `n`, for `0 <= n <= 99`.
pub open spec fn two_digits(n: int) -> Seq<char> {
    seq![digit_char(n / 10), digit_char(n % 10)]
}

/// The four decimal digits of `n`, for `0 <= n <= 9999`.
pub open spec fn four_digits(n: int) -> Seq<char> {
    two_digits(n / 100) + two_digits(n % 100)
}

pub open spec fn year_text(y: int) -> Seq<char> {
    if y < 0 {
        seq!['-'] + four_digits(-y)
    } else {
        four_digits(y)
    }
}

impl CivilDateTime {
    /// A real date of the proleptic Gregorian calendar in years -9999 to 9999,
    /// and a time of day.
    pub open spec fn wf(self) -> bool {
        &&& -9999 <= self.year <= 9999
        &&& 1 <= self.month <= 12
        &&& 1 <= self.day <= days_in_month(self.year as int, self.month as int)
        &&& 0 <= self.hour <= 23
        &&& 0 <= self.minute <= 59
        &&& 0 <= self.second <= 59
    }

    /// The text `YYYY-MM-DD HH:MM:SS` of this date and time.
    pub open spec fn text(self) -> Seq<char> {
        year_text(self.year as int) + seq!['-'] + two_digits(self.month as int) + seq!['-']
            + two_digits(self.day as int) + seq![' '] + two_digits(self.hour as int) + seq![':']
            + two_digits(self.minute as int) + seq![':'] + two_digits(self.second as int)
    }

    pub fn is_valid(&self) -> (r: bool)
        ensures
            r == self.wf(),
    {
        if self.year < -9999 || self.year > 9999 || self.month < 1 || self.month > 12 {
            return false;
        }
        let dim = month_length(self.year, self.month);
        1 <= self.day && self.day <= dim && 0 <= self.hour && self.hour <= 23 && 0 <= self.minute
            && self.minute <= 59 && 0 <= self.second && self.second <= 59
    }

    /// Writes the date and time as `YYYY-MM-DD HH:MM:SS`.
    pub fn format(&self) -> (r: String)
        requires
            self.wf(),
        ensures
            r@ == self.text(),
    {
        let mut out = String::new();
        let a: u16 = if self.year < 0 {
            proof {
                reveal_strlit("-");
            }
            out.append("-");
            (-(self.year as i32)) as u16
        } else {
            self.year as u16
        };
        push_two(&mut out, a / 100);
        push_two(&mut out, a % 100);
        proof {
            reveal_strlit("-");
            reveal_strlit(" ");
            reveal_strlit(":");
        }
        out.append("-");
        push_two(&mut out, self.month as u16);
        out.append("-");
        push_two(&mut out, self.day as u16);
        out.append(" ");
        push_two(&mut out, self.hour as u16);
        out.append(":");
        push_two(&mut out, self.minute as u16);
        out.append(":");
        push_two(&mut out, self.second as u16);
        assert(out@ =~= self.text());
        out
    }

    /// Reads a date and time written as `YYYY-MM-DD HH:MM:SS`. Exactly the
    /// texts of valid dates are accepted.
    pub fn parse(s: &str) -> (r: Result<CivilDateTime, DateParseError>)
        ensures
            match r {
                Ok(d) => d.wf() && d.text() == s@,
                Err(_) => forall|d: CivilDateTime| d.wf() ==> #[trigger] d.text() != s@,
            },
    {
        let cs = chars_of(s);
        match scan(&cs) {
            Some(d) => {
                proof {
                    lemma_scan_sound(cs@);
                }
                Ok(d)
            },
            None => {
                assert forall|d: CivilDateTime| d.wf() implies #[trigger] d.text() != s@ by {
                    lemma_scan_complete(d);
                }
                Err(DateParseError {})
            },
        }
    }
}

fn month_length(y: i16, m: i8) -> (r: i8)
    requires
        -9999 <= y <= 9999,
        1 <= m <= 12,
    ensures
        r == days_in_month(y as int, m as int),
{
    if m == 2 {
        // shifting by 10000 keeps the remainders by 4, 100 and 400
        let p: u32 = (y as i32 + 10000) as u32;
        assert(p as int % 4 == y as int % 4 && p as int % 100 == y as int % 100 && p as int % 400
            == y as int % 400);
        if (p % 4 == 0 && p % 100 != 0) || p % 400 == 0 {
            29
        } else {
            28
        }
    } else if m == 4 || m == 6 || m == 9 || m == 11 {
        30
    } else {
        31
    }
}

fn digit_str(n: u16) -> (r: &'static str)
    requires
        n < 10,
    ensures
        r@ == seq![digit_char(n as int)],
{
    proof {
        reveal_strlit("0");
        reveal_strlit("1");
        reveal_strlit("2");
        reveal_strlit("3");
        reveal_strlit("4");
        reveal_strlit("5");
        reveal_strlit("6");
        reveal_strlit("7");
        reveal_strlit("8");
        reveal_strlit("9");
    }
    if n == 0 {
        "0"
    } else if n == 1 {
        "1"
    } else if n == 2 {
        "2"
    } else if n == 3 {
        "3"
    } else if n == 4 {
        "4"
    } else if n == 5 {
        "5"
    } else if n == 6 {
        "6"
    } else if n == 7 {
        "7"
    } else if n == 8 {
        "8"
    } else {
        "9"
    }
}

fn push_two(out: &mut String, n: u16)
    requires
        n <= 99,
    ensures
        final(out)@ == old(out)@ + two_digits(n as int),
{
    out.append(digit_str(n / 10));
    out.append(digit_str(n % 10));
    assert(final(out)@ =~= old(out)@ + two_digits(n as int));
}


fn chars_of(s: &str) -> (r: Vec<char>)
    ensures
        r@ == s@,
{
    let n = s.unicode_len();
    let mut r: Vec<char> = Vec::new();
    let mut i: usize = 0;
    while i < n
        invariant
            n == s@.len(),
            i <= n,
            r@ == s@.subrange(0, i as int),
        decreases n - i,
    {
        r.push(s.get_char(i));
        i = i + 1;
        assert(r@ =~= s@.subrange(0, i as int));
    }
    assert(r@ =~= s@);
    r
}

pub open spec fn num2(s: Seq<char>, i: int) -> int {
    digit_val(s[i]) * 10 + digit_val(s[i + 1])
}

pub open spec fn num4(s: Seq<char>, i: int) -> int {
    num2(s, i) * 100 + num2(s, i + 2)
}

pub open spec fn sign_len(s: Seq<char>) -> int {
    if s.len() > 0 && s[0] == '-' {
        1
    } else {
        0
    }
}

/// `s` has the layout `[-]DDDD-DD-DD DD:DD:DD`.
pub open spec fn has_layout(s: Seq<char>) -> bool {
    let o = sign_len(s);
    &&& s.len() == 19 + o
    &&& is_digit(s[o]) && is_digit(s[o + 1]) && is_digit(s[o + 2]) && is_digit(s[o + 3])
    &&& s[o + 4] == '-'
    &&& is_digit(s[o + 5]) && is_digit(s[o + 6])
    &&& s[o + 7] == '-'
    &&& is_digit(s[o + 8]) && is_digit(s[o + 9])
    &&& s[o + 10] == ' '
    &&& is_digit(s[o + 11]) && is_digit(s[o + 12])
    &&& s[o + 13] == ':'
    &&& is_digit(s[o + 14]) && is_digit(s[o + 15])
    &&& s[o + 16] == ':'
    &&& is_digit(s[o + 17]) && is_digit(s[o + 18])
}

/// The fields that the digits of a text with that layout give.
pub open spec fn scanned(s: Seq<char>) -> CivilDateTime {
    let o = sign_len(s);
    CivilDateTime {
        year: (if o == 1 {
            -num4(s, o)
        } else {
            num4(s, o)
        }) as i16,
        month: num2(s, o + 5) as i8,
        day: num2(s, o + 8) as i8,
        hour: num2(s, o + 11) as i8,
        minute: num2(s, o + 14) as i8,
        second: num2(s, o + 17) as i8,
    }
}

/// `s` is the text of a valid date and time.
pub open spec fn accepted(s: Seq<char>) -> bool {
    &&& has_layout(s)
    &&& !(sign_len(s) == 1 && num4(s, 1) == 0)
    &&& scanned(s).wf()
}

fn digit_at(cs: &Vec<char>, i: usize) -> (r: Option<u16>)
    requires
        i < cs@.len(),
    ensures
        match r {
            Some(v) => is_digit(cs@[i as int]) && v == digit_val(cs@[i as int]),
            None => !is_digit(cs@[i as int]),
        },
{
    let c = cs[i];
    if '0' <= c && c <= '9' {
        Some((c as u32 - 48) as u16)
    } else {
        None
    }
}

fn num2_at(cs: &Vec<char>, i: usize) -> (r: Option<u16>)
    requires
        i + 1 < cs@.len(),
    ensures
        match r {
            Some(v) => is_digit(cs@[i as int]) && is_digit(cs@[i + 1]) && v == num2(cs@, i as int),
            None => !(is_digit(cs@[i as int]) && is_digit(cs@[i + 1])),
        },
{
    let len = cs.len();
    assert(i + 1 < len);
    match (digit_at(cs, i), digit_at(cs, i + 1)) {
        (Some(a), Some(b)) => Some(a * 10 + b),
        _ => None,
    }
}

fn scan(cs: &Vec<char>) -> (r: Option<CivilDateTime>)
    ensures
        r == (if accepted(cs@) {
            Some(scanned(cs@))
        } else {
            None
        }),
{
    let n = cs.len();
    let o: usize = if n > 0 && cs[0] == '-' {
        1
    } else {
        0
    };
    if n != 19 + o {
        return None;
    }
    if cs[o + 4] != '-' || cs[o + 7] != '-' || cs[o + 10] != ' ' || cs[o + 13] != ':' || cs[o
        + 16] != ':' {
        return None;
    }
    let (hi, lo, mo, da, ho, mi, se) = match (
        num2_at(cs, o),
        num2_at(cs, o + 2),
        num2_at(cs, o + 5),
        num2_at(cs, o + 8),
        num2_at(cs, o + 11),
        num2_at(cs, o + 14),
        num2_at(cs, o + 17),
    ) {
        (Some(hi), Some(lo), Some(mo), Some(da), Some(ho), Some(mi), Some(se)) => (
            hi,
            lo,
            mo,
            da,
            ho,
            mi,
            se,
        ),
        _ => {
            return None;
        },
    };
    let y4: u16 = hi * 100 + lo;
    if o == 1 && y4 == 0 {
        return None;
    }
    let d = CivilDateTime {
        year: if o == 1 {
            -(y4 as i16)
        } else {
            y4 as i16
        },
        month: mo as i8,
        day: da as i8,
        hour: ho as i8,
        minute: mi as i8,
        second: se as i8,
    };
    assert(d == scanned(cs@));
    if d.is_valid() {
        Some(d)
    } else {
        None
    }
}

proof fn lemma_two_digits_of(s: Seq<char>, i: int)
    requires
        0 <= i,
        i + 1 < s.len(),
        is_digit(s[i]),
        is_digit(s[i + 1]),
    ensures
        two_digits(num2(s, i)) == s.subrange(i, i + 2),
        0 <= num2(s, i) <= 99,
{
    let a = digit_val(s[i]);
    let b = digit_val(s[i + 1]);
    assert((a * 10 + b) / 10 == a && (a * 10 + b) % 10 == b) by (nonlinear_arith)
        requires
            0 <= a <= 9,
            0 <= b <= 9,
    ;
    assert(two_digits(num2(s, i)) =~= s.subrange(i, i + 2));
}

proof fn lemma_four_digits_of(s: Seq<char>, i: int)
    requires
        0 <= i,
        i + 3 < s.len(),
        is_digit(s[i]),
        is_digit(s[i + 1]),
        is_digit(s[i + 2]),
        is_digit(s[i + 3]),
    ensures
        four_digits(num4(s, i)) == s.subrange(i, i + 4),
        0 <= num4(s, i) <= 9999,
{
    lemma_two_digits_of(s, i);
    lemma_two_digits_of(s, i + 2);
    let a = num2(s, i);
    let b = num2(s, i + 2);
    assert((a * 100 + b) / 100 == a && (a * 100 + b) % 100 == b) by (nonlinear_arith)
        requires
            0 <= a <= 99,
            0 <= b <= 99,
    ;
    assert(four_digits(num4(s, i)) =~= s.subrange(i, i + 4));
}

/// What the scanner accepts is the text of the date it reads.
proof fn lemma_scan_sound(s: Seq<char>)
    requires
        accepted(s),
    ensures
        scanned(s).text() == s,
{
    let o = sign_len(s);
    let d = scanned(s);
    lemma_four_digits_of(s, o);
    lemma_two_digits_of(s, o + 5);
    lemma_two_digits_of(s, o + 8);
    lemma_two_digits_of(s, o + 11);
    lemma_two_digits_of(s, o + 14);
    lemma_two_digits_of(s, o + 17);
    assert(year_text(d.year as int) =~= s.subrange(0, o + 4));
    assert(d.text() =~= s);
}

proof fn lemma_digit_round(n: int)
    requires
        0 <= n <= 9,
    ensures
        digit_val(digit_char(n)) == n,
        is_digit(digit_char(n)),
{
}

proof fn lemma_two_digits_back(n: int)
    requires
        0 <= n <= 99,
    ensures
        is_digit(two_digits(n)[0]) && is_digit(two_digits(n)[1]),
        num2(two_digits(n), 0) == n,
{
    lemma_digit_round(n / 10);
    lemma_digit_round(n % 10);
}

/// Every valid date's text is accepted, and reads back as that date.
proof fn lemma_scan_complete(d: CivilDateTime)
    requires
        d.wf(),
    ensures
        accepted(d.text()),
        scanned(d.text()) == d,
{
    let t = d.text();
    let a: int = if d.year < 0 {
        -d.year
    } else {
        d.year as int
    };
    let o: int = if d.year < 0 {
        1
    } else {
        0
    };
    lemma_two_digits_back(a / 100);
    lemma_two_digits_back(a % 100);
    lemma_two_digits_back(d.month as int);
    lemma_two_digits_back(d.day as int);
    lemma_two_digits_back(d.hour as int);
    lemma_two_digits_back(d.minute as int);
    lemma_two_digits_back(d.second as int);
    lemma_digit_round(a / 100 / 10);
    assert(sign_len(t) == o);
    assert(t.subrange(o, o + 2) =~= two_digits(a / 100));
    assert(t.subrange(o + 2, o + 4) =~= two_digits(a % 100));
    assert(t.subrange(o + 5, o + 7) =~= two_digits(d.month as int));
    assert(t.subrange(o + 8, o + 10) =~= two_digits(d.day as int));
    assert(t.subrange(o + 11, o + 13) =~= two_digits(d.hour as int));
    assert(t.subrange(o + 14, o + 16) =~= two_digits(d.minute as int));
    assert(t.subrange(o + 17, o + 19) =~= two_digits(d.second as int));
    assert(num2(t, o) == num2(t.subrange(o, o + 2), 0));
    assert(num2(t, o + 2) == num2(t.subrange(o + 2, o + 4), 0));
    assert(num2(t, o + 5) == num2(t.subrange(o + 5, o + 7), 0));
    assert(num2(t, o + 8) == num2(t.subrange(o + 8, o + 10), 0));
    assert(num2(t, o + 11) == num2(t.subrange(o + 11, o + 13), 0));
    assert(num2(t, o + 14) == num2(t.subrange(o + 14, o + 16), 0));
    assert(num2(t, o + 17) == num2(t.subrange(o + 17, o + 19), 0));
    assert(a / 100 * 100 + a % 100 == a);
    assert(has_layout(t));
    assert(scanned(t) == d);
}

/// Two valid dates with the same text are the same date.
pub proof fn lemma_text_injective(d1: CivilDateTime, d2: CivilDateTime)
    requires
        d1.wf(),
        d2.wf(),
        d1.text() == d2.text(),
    ensures
        d1 == d2,
{
    lemma_scan_complete(d1);
    lemma_scan_complete(d2);
}

/// Relies on `std::time::SystemTime::now`, jiff's `Zoned::try_from` for a
/// `SystemTime`, `Zoned::datetime` and `jiff::civil::DateTime`'s field
/// accessors: the current wall-clock time in the system time zone. jiff keeps
/// every `DateTime` a real Gregorian date in years -9999 to 9999 with a time
/// of day whose seconds run from 0 to 59; the fraction of a second is dropped
/// here. `try_from` returns an error, and this `None`, when the clock lies
/// outside jiff's range.
#[verifier::external_body]
pub(crate) fn current_datetime() -> (r: Option<CivilDateTime>)
    ensures
        r matches Some(d) ==> d.wf(),
{
    match jiff::Zoned::try_from(std::time::SystemTime::now()) {
        Ok(zoned) => {
            let dt = zoned.datetime();
            Some(CivilDateTime {
                year: dt.year(),
                month: dt.month(),
                day: dt.day(),
                hour: dt.hour(),
                minute: dt.minute(),
                second: dt.second(),
            })
        },
        Err(_) => None,
    }
}

} // verus!
