//! Laws on texts and numbers: trimming, splitting, and the decimal form of numbers.
use vstd::prelude::*;

verus! {

/// Trimming takes off leading characters `c` and nothing else, and leaves none.
pub proof fn law_trimmed(s: Seq<char>, c: char)
    ensures
        ({
            let r = crate::text::without_leading(s, c);
            let n = s.len() - r.len();
            &&& 0 <= n
            &&& r == s.skip(n)
            &&& forall|i: int| 0 <= i < n ==> #[trigger] s[i] == c
            &&& r.len() > 0 ==> r[0] != c
        }),
    decreases s.len(),
{
    if s.len() > 0 && s[0] == c {
        law_trimmed(s.skip(1), c);
        let r = crate::text::without_leading(s, c);
        let n = s.len() - r.len();
        assert(s.skip(1).skip(n - 1) =~= s.skip(n));
        assert forall|i: int| 0 <= i < n implies #[trigger] s[i] == c by {
            if i > 0 {
                assert(s.skip(1)[i - 1] == s[i]);
            }
        }
    } else {
        assert(s.skip(0) =~= s);
    }
}

/// A text ends with another exactly where it is something and then the other.
pub proof fn law_suffix(front: Seq<char>, s: Seq<char>, suffix: Seq<char>)
    ensures
        crate::text::has_suffix(front + suffix, suffix),
        crate::text::has_suffix(s, suffix) ==> suffix.len() <= s.len() && s == s.take(
            s.len() - suffix.len(),
        ) + suffix,
{
    assert((front + suffix).skip(front.len() as int) =~= suffix);
    if crate::text::has_suffix(s, suffix) {
        assert(s =~= s.take(s.len() - suffix.len()) + s.skip(s.len() - suffix.len()));
    }
}

/// Splitting at a separator gives what lies before the first one, and then the pieces of
/// what lies behind it.
pub proof fn law_split(a: Seq<char>, b: Seq<char>, sep: char)
    requires
        !a.contains(sep),
    ensures
        crate::text::pieces(a, sep) == seq![a],
        crate::text::pieces(a + seq![sep] + b, sep) == seq![a] + crate::text::pieces(b, sep),
{
    crate::text::lemma_pieces_single(a, sep);
    crate::text::lemma_pieces_joined(a, b, sep);
}

/// Each further digit multiplies by ten and adds its value.
pub proof fn law_digits(s: Seq<char>, c: char)
    requires
        '0' <= c <= '9',
    ensures
        crate::text::digits_value(Seq::empty()) == 0,
        crate::text::digits_value(s.push(c)) == 10 * crate::text::digits_value(s) + (c as int
            - '0' as int),
{
    assert(s.push(c).drop_last() =~= s);
}

/// The decimal form of a number is made of digits, begins with no idle zero, and has the
/// value of the number.
pub proof fn law_decimal(n: nat)
    ensures
        crate::text::decimal(n).len() > 0,
        crate::laws::only_digits(crate::text::decimal(n)),
        crate::text::digits_value(crate::text::decimal(n)) == n,
        crate::text::decimal(n).len() > 1 ==> crate::text::decimal(n)[0] != '0',
        crate::text::decimal_int(n as int) == crate::text::decimal(n),
        n > 0 ==> crate::text::decimal_int(-(n as int)) == seq!['-'] + crate::text::decimal(n),
{
    crate::text::lemma_decimal_value(n);
    let s = crate::text::decimal(n);
    assert forall|i: int| 0 <= i < s.len() implies '0' <= #[trigger] s[i] <= '9' by {
        assert(crate::text::digit_value(s[i]) is Some);
    }
    lemma_no_idle_zero(n);
}

/// The decimal form of a number above 0 does not begin with a zero.
proof fn lemma_no_idle_zero(n: nat)
    ensures
        n > 0 ==> crate::text::decimal(n)[0] != '0',
        n == 0 ==> crate::text::decimal(n).len() == 1,
    decreases n,
{
    if n >= 10 {
        lemma_no_idle_zero(n / 10);
        crate::text::lemma_decimal_value(n / 10);
        assert(crate::text::decimal(n)[0] == crate::text::decimal(n / 10)[0]);
    }
}

/// A number without a sign is read from digits, with or without a plus before them, where
/// it is within the limit; and from nothing else.
pub proof fn law_unsigned(s: Seq<char>, limit: nat, n: nat)
    ensures
        s.len() > 0 && crate::laws::only_digits(s) && crate::text::digits_value(s) <= limit
            ==> crate::text::unsigned_number(s, limit) == Some(crate::text::digits_value(s))
            && crate::text::unsigned_number(seq!['+'] + s, limit) == Some(
            crate::text::digits_value(s),
        ),
        crate::text::unsigned_number(s, limit) == Some(n) ==> {
            let b = if s[0] == '+' {
                s.skip(1)
            } else {
                s
            };
            b.len() > 0 && crate::laws::only_digits(b) && crate::text::digits_value(b) == n && n
                <= limit
        },
{
    if s.len() > 0 && crate::laws::only_digits(s) {
        lemma_all_digits(s);
        assert(s[0] != '+');
        assert((seq!['+'] + s).skip(1) =~= s);
    }
    if crate::text::unsigned_number(s, limit) == Some(n) {
        lemma_all_digits(crate::text::after_plus(s));
    }
}

/// The two ways to say that a text has only digits are one.
proof fn lemma_all_digits(s: Seq<char>)
    ensures
        crate::laws::only_digits(s) == crate::text::all_digits(s),
{
    if crate::laws::only_digits(s) {
        assert forall|i: int| 0 <= i < s.len() implies crate::text::digit_value(
            #[trigger] s[i],
        ) is Some by {}
    }
    if crate::text::all_digits(s) {
        assert forall|i: int| 0 <= i < s.len() implies '0' <= #[trigger] s[i] <= '9' by {
            assert(crate::text::digit_value(s[i]) is Some);
        }
    }
}

/// A number with a sign is read from digits with a sign before them or none, where it
/// fits into 64 bits; and from nothing else.
pub proof fn law_signed(s: Seq<char>, n: int)
    ensures
        s.len() > 0 && crate::laws::only_digits(s) && crate::text::digits_value(s) <= i64::MAX
            ==> crate::text::signed_number(s) == Some(crate::text::digits_value(s) as int)
            && crate::text::signed_number(seq!['+'] + s) == Some(
            crate::text::digits_value(s) as int,
        ),
        s.len() > 0 && crate::laws::only_digits(s) && -crate::text::digits_value(s) >= i64::MIN
            ==> crate::text::signed_number(seq!['-'] + s) == Some(
            -(crate::text::digits_value(s) as int),
        ),
        crate::text::signed_number(s) == Some(n) ==> {
            let b = if s[0] == '+' || s[0] == '-' {
                s.skip(1)
            } else {
                s
            };
            let v = crate::text::digits_value(b) as int;
            b.len() > 0 && crate::laws::only_digits(b) && i64::MIN <= n <= i64::MAX && n == (
            if s[0] == '-' {
                -v
            } else {
                v
            })
        },
{
    lemma_all_digits(s);
    if s.len() > 0 && crate::laws::only_digits(s) {
        assert(s[0] != '+' && s[0] != '-');
        law_unsigned(s, i64::MAX as nat, crate::text::digits_value(s));
        assert((seq!['-'] + s).skip(1) =~= s);
        assert((seq!['+'] + s)[0] == '+');
        assert((seq!['-'] + s)[0] == '-');
    }
    if crate::text::signed_number(s) == Some(n) {
        if s[0] == '-' {
            lemma_all_digits(s.skip(1));
        } else {
            law_unsigned(s, i64::MAX as nat, n as nat);
        }
    }
}

/// The text of a date in the years 0 to 9999 is the year in four digits, the month in two
/// and the day in two, with hyphens between them.
pub proof fn law_date_text(year: int, month: int, day: int)
    requires
        crate::calendar::calendar_day(year, month, day),
        0 <= year <= 9999,
    ensures
        ({
            let s = crate::calendar::date_text(year, month, day);
            &&& s.len() == 10
            &&& s[4] == '-' && s[7] == '-'
            &&& crate::laws::only_digits(s.subrange(0, 4))
            &&& crate::laws::only_digits(s.subrange(5, 7))
            &&& crate::laws::only_digits(s.subrange(8, 10))
            &&& crate::text::digits_value(s.subrange(0, 4)) == year
            &&& crate::text::digits_value(s.subrange(5, 7)) == month
            &&& crate::text::digits_value(s.subrange(8, 10)) == day
        }),
{
    let s = crate::calendar::date_text(year, month, day);
    lemma_few_digits(year as nat);
    lemma_few_digits(month as nat);
    lemma_few_digits(day as nat);
    lemma_filled(year as nat, 4);
    lemma_filled(month as nat, 2);
    lemma_filled(day as nat, 2);
    assert(s.subrange(0, 4) =~= crate::calendar::padded(year as nat, 4));
    assert(s.subrange(5, 7) =~= crate::calendar::padded(month as nat, 2));
    assert(s.subrange(8, 10) =~= crate::calendar::padded(day as nat, 2));
}

/// A number in a form filled up with zeros keeps its value.
proof fn lemma_filled(n: nat, width: nat)
    ensures
        crate::laws::only_digits(crate::calendar::padded(n, width)),
        crate::text::digits_value(crate::calendar::padded(n, width)) == n,
        crate::text::decimal(n).len() <= width ==> crate::calendar::padded(n, width).len()
            == width,
{
    law_decimal(n);
    let s = crate::text::decimal(n);
    if s.len() < width {
        let zeros = Seq::new((width - s.len()) as nat, |i: int| '0');
        lemma_zeros(zeros, s);
        let p = crate::calendar::padded(n, width);
        assert forall|i: int| 0 <= i < p.len() implies '0' <= #[trigger] p[i] <= '9' by {
            if i >= zeros.len() {
                assert(p[i] == s[i - zeros.len()]);
            }
        }
    }
}

/// Leading zeros do not count.
proof fn lemma_zeros(zeros: Seq<char>, s: Seq<char>)
    requires
        forall|i: int| 0 <= i < zeros.len() ==> zeros[i] == '0',
        crate::laws::only_digits(s),
    ensures
        crate::text::digits_value(zeros + s) == crate::text::digits_value(s),
    decreases zeros.len() + s.len(),
{
    if s.len() > 0 {
        let front = s.drop_last();
        assert forall|i: int| 0 <= i < front.len() implies '0' <= #[trigger] front[i] <= '9' by {
            assert(front[i] == s[i]);
        }
        lemma_zeros(zeros, front);
        assert((zeros + s).drop_last() =~= zeros + front);
        assert('0' <= s[s.len() - 1] <= '9');
    } else if zeros.len() > 0 {
        lemma_zeros(zeros.drop_last(), s);
        assert((zeros + s).drop_last() =~= zeros.drop_last() + s);
        assert((zeros + s).last() == zeros[zeros.len() - 1]);
    } else {
        assert(zeros + s =~= s);
    }
}

/// How many digits small numbers have.
proof fn lemma_few_digits(n: nat)
    ensures
        n < 100 ==> crate::text::decimal(n).len() <= 2,
        n < 10000 ==> crate::text::decimal(n).len() <= 4,
{
    reveal_with_fuel(crate::text::decimal, 4);
}

/// The text of a year before 0 or after 9999 has a sign, and then the year in at least
/// four digits.
pub proof fn law_far_years(year: int)
    ensures
        year > 9999 ==> crate::calendar::year_text(year) == seq!['+'] + crate::text::decimal(
            year as nat,
        ),
        -9999 <= year < 0 ==> crate::calendar::year_text(year) == seq!['-']
            + crate::calendar::year_text(-year),
        year < -9999 ==> crate::calendar::year_text(year) == seq!['-'] + crate::text::decimal(
            (-year) as nat,
        ),
{
    if year > 9999 {
        lemma_five_digits(year as nat);
    }
    if year < -9999 {
        lemma_five_digits((-year) as nat);
    }
}

/// A number above 9999 has more than four digits.
proof fn lemma_five_digits(n: nat)
    requires
        n > 9999,
    ensures
        crate::text::decimal(n).len() >= 5,
    decreases n,
{
    reveal_with_fuel(crate::text::decimal, 5);
    crate::text::lemma_decimal_value(n / 10 / 10 / 10 / 10);
    assert(n / 10 >= 1000 && n / 10 / 10 >= 100 && n / 10 / 10 / 10 >= 10);
}

/// The first day of the year 1 is a Monday, and four hundred years are a whole number of
/// weeks.
pub proof fn law_weekday_cycle(year: int, month: int, day: int)
    ensures
        crate::calendar::weekday_of(1, 1, 1) == 1,
        0 <= crate::calendar::weekday_of(year, month, day) < 7,
        crate::calendar::weekday_of(year + 400, month, day) == crate::calendar::weekday_of(
            year,
            month,
            day,
        ),
    decreases month,
{
    lemma_same_months(year, month);
    let y = year - 1;
    assert((y + 400) / 4 == y / 4 + 100);
    assert((y + 400) / 100 == y / 100 + 4);
    assert((y + 400) / 400 == y / 400 + 1);
    assert(crate::calendar::day_number(year + 400, month, day) == crate::calendar::day_number(
        year,
        month,
        day,
    ) + 146097);
    assert(146097int % 7 == 0);
}

/// Months are alike four hundred years later.
proof fn lemma_same_months(year: int, month: int)
    ensures
        crate::calendar::days_before_month(year + 400, month)
            == crate::calendar::days_before_month(year, month),
    decreases month,
{
    assert((year + 400) % 4 == year % 4);
    assert((year + 400) % 100 == year % 100);
    assert((year + 400) % 400 == year % 400);
    if month > 1 {
        lemma_same_months(year, month - 1);
    }
}

/// A day exists in the years that can be held, in the twelve months, up to the 31st, 30th,
/// 29th or 28th as the month and the leap years have it.
pub proof fn law_calendar(year: int, month: int, day: int)
    ensures
        crate::calendar::calendar_day(year, month, day) <==> {
            &&& -262143 <= year <= 262142
            &&& 1 <= month <= 12
            &&& 1 <= day <= 31
            &&& day == 31 ==> month == 1 || month == 3 || month == 5 || month == 7 || month == 8
                || month == 10 || month == 12
            &&& day == 30 ==> month != 2
            &&& day == 29 && month == 2 ==> year % 400 == 0 || (year % 4 == 0 && year % 100 != 0)
        },
{
}

} // verus!
