//! Fixed-point occupancy percentages and the permissive decimal parser.
//!
//! A percentage is held in hundredths of a percentage point, so two decimal
//! places are exact. Captured indicator text must be an unsigned integer or
//! decimal (`digits`, optionally `.digits`); any other text is read as zero,
//! a deliberately permissive policy that prefers recording a sample over
//! rejecting it. Values above the top of the scale are capped at 100.

use vstd::prelude::*;

verus! {

/// Top of the percentage scale, in hundredths of a percentage point.
pub const MAX_HUNDREDTHS: u64 = 10000;

/// An occupancy percentage in hundredths of a percentage point.
#[derive(Clone, Copy, PartialEq, Eq, Structural, Debug)]
pub struct Percentage {
    pub hundredths: u64,
}

impl Percentage {
    /// The stored-data invariant: a percentage lies on the 0–100 scale.
    pub open spec fn is_valid(self) -> bool {
        self.hundredths <= MAX_HUNDREDTHS
    }
}

pub open spec fn is_digit(c: char) -> bool {
    '0' <= c && c <= '9'
}

pub open spec fn digit_val(c: char) -> int {
    c as int - '0' as int
}

pub open spec fn all_digits(s: Seq<char>) -> bool {
    forall|i: int| 0 <= i < s.len() ==> is_digit(#[trigger] s[i])
}

/// Value of a digit string, most significant digit first.
pub open spec fn digits_val(s: Seq<char>) -> int
    decreases s.len(),
{
    if s.len() == 0 {
        0
    } else {
        digits_val(s.drop_last()) * 10 + digit_val(s.last())
    }
}

/// Index of the first `.` in `s`, or `s.len()` when there is none.
pub open spec fn first_dot(s: Seq<char>) -> int
    decreases s.len(),
{
    if s.len() == 0 {
        0
    } else if first_dot(s.drop_last()) < s.len() - 1 {
        first_dot(s.drop_last())
    } else if s.last() == '.' {
        s.len() - 1
    } else {
        s.len() as int
    }
}

/// Whether `s` has the shape `digits` or `digits.digits`.
pub open spec fn is_decimal_text(s: Seq<char>) -> bool {
    let d = first_dot(s);
    &&& d > 0
    &&& all_digits(s.take(d))
    &&& (d < s.len() ==> d + 1 < s.len() && all_digits(s.skip(d + 1)))
}

/// Hundredths contributed by a fraction part; digits beyond the second
/// are dropped, as only two decimal places are representable.
pub open spec fn frac_hundredths(f: Seq<char>) -> int {
    if f.len() == 0 {
        0
    } else if f.len() == 1 {
        digit_val(f[0]) * 10
    } else {
        digit_val(f[0]) * 10 + digit_val(f[1])
    }
}

/// Exact value of a well-shaped decimal text, in hundredths.
pub open spec fn decimal_hundredths(s: Seq<char>) -> int {
    let d = first_dot(s);
    if d < s.len() {
        digits_val(s.take(d)) * 100 + frac_hundredths(s.skip(d + 1))
    } else {
        digits_val(s) * 100
    }
}

/// The percentage read from captured indicator text: a well-shaped decimal
/// capped at the top of the scale, anything else read as zero.
pub open spec fn percentage_of_text(s: Seq<char>) -> int {
    if is_decimal_text(s) {
        if decimal_hundredths(s) > MAX_HUNDREDTHS {
            MAX_HUNDREDTHS as int
        } else {
            decimal_hundredths(s)
        }
    } else {
        0
    }
}

/// The character of one decimal digit.
pub open spec fn digit_char(d: int) -> char {
    if d == 0 {
        '0'
    } else if d == 1 {
        '1'
    } else if d == 2 {
        '2'
    } else if d == 3 {
        '3'
    } else if d == 4 {
        '4'
    } else if d == 5 {
        '5'
    } else if d == 6 {
        '6'
    } else if d == 7 {
        '7'
    } else if d == 8 {
        '8'
    } else {
        '9'
    }
}

/// The decimal digits of a whole number, most significant first.
pub open spec fn render_nat(n: int) -> Seq<char>
    decreases n,
{
    if n < 10 {
        seq![digit_char(n)]
    } else {
        render_nat(n / 10).push(digit_char(n % 10))
    }
}

/// The canonical decimal text of a percentage in hundredths: no leading
/// zeros, and trailing fraction zeros dropped.
pub open spec fn percent_text(h: int) -> Seq<char> {
    let whole = h / 100;
    let frac = h % 100;
    if frac == 0 {
        render_nat(whole)
    } else if frac % 10 == 0 {
        render_nat(whole) + seq!['.', digit_char(frac / 10)]
    } else {
        render_nat(whole) + seq!['.', digit_char(frac / 10), digit_char(frac % 10)]
    }
}

fn push_digit(s: &mut String, d: u64)
    requires
        d < 10,
    ensures
        final(s)@ == old(s)@.push(digit_char(d as int)),
{
    proof {
        reveal_strlit("0");
        reveal_strlit("1");
        reveal_strlit("2");
        reveal_strlit("3");
        reveal_strlit("4");
        reveal_strlit("5");
        reveal_strlit("6");
        reveal_strlit("7");
        reveal_strlit("8");
        reveal_strlit("9");
    }
    if d == 0 {
        s.append("0");
    } else if d == 1 {
        s.append("1");
    } else if d == 2 {
        s.append("2");
    } else if d == 3 {
        s.append("3");
    } else if d == 4 {
        s.append("4");
    } else if d == 5 {
        s.append("5");
    } else if d == 6 {
        s.append("6");
    } else if d == 7 {
        s.append("7");
    } else if d == 8 {
        s.append("8");
    } else {
        s.append("9");
    }
    proof {
        assert(s@ =~= old(s)@.push(digit_char(d as int)));
    }
}

fn render_u64(n: u64) -> (r: String)
    ensures
        r@ == render_nat(n as int),
    decreases n,
{
    if n < 10 {
        let mut s = String::new();
        push_digit(&mut s, n);
        proof {
            assert(s@ =~= seq![digit_char(n as int)]);
        }
        s
    } else {
        let mut s = render_u64(n / 10);
        push_digit(&mut s, n % 10);
        s
    }
}

impl Percentage {
    /// The canonical decimal text, two decimal places at most: a whole
    /// number stays bare and trailing fraction zeros are dropped.
    pub fn to_text(&self) -> (r: String)
        ensures
            r@ == percent_text(self.hundredths as int),
    {
        let whole: u64 = self.hundredths / 100;
        let frac: u64 = self.hundredths % 100;
        let mut s = render_u64(whole);
        if frac != 0 {
            proof {
                reveal_strlit(".");
            }
            s.append(".");
            push_digit(&mut s, frac / 10);
            if frac % 10 != 0 {
                push_digit(&mut s, frac % 10);
                proof {
                    assert(s@ =~= render_nat(whole as int) + seq![
                        '.',
                        digit_char(frac as int / 10),
                        digit_char(frac as int % 10),
                    ]);
                }
            } else {
                proof {
                    assert(s@ =~= render_nat(whole as int) + seq![
                        '.',
                        digit_char(frac as int / 10),
                    ]);
                }
            }
        }
        s
    }
}

proof fn lemma_digits_val_nonneg(s: Seq<char>)
    requires
        all_digits(s),
    ensures
        digits_val(s) >= 0,
    decreases s.len(),
{
    if s.len() > 0 {
        assert(all_digits(s.drop_last()));
        lemma_digits_val_nonneg(s.drop_last());
    }
}

/// Decides whether `s` has the shape `digits` or `digits.digits`.
pub fn is_decimal(s: &str) -> (b: bool)
    ensures
        b == is_decimal_text(s@),
{
    let n: usize = s.unicode_len();
    let mut dot: Option<usize> = None;
    let mut i: usize = 0;
    while i < n
        invariant
            i <= n,
            n == s@.len(),
            match dot {
                Some(k) => k < i && first_dot(s@.take(i as int)) == k,
                None => first_dot(s@.take(i as int)) == i,
            },
        decreases n - i,
    {
        let c = s.get_char(i);
        proof {
            assert(s@.take(i + 1).drop_last() =~= s@.take(i as int));
            assert(s@.take(i + 1).last() == s@[i as int]);
        }
        if dot.is_none() && c == '.' {
            dot = Some(i);
        }
        i = i + 1;
    }
    proof {
        assert(s@.take(n as int) =~= s@);
    }
    let d: usize = match dot {
        Some(k) => k,
        None => n,
    };
    if d == 0 || (d < n && d + 1 == n) {
        return false;
    }
    let mut j: usize = 0;
    while j < d
        invariant
            j <= d,
            d <= n,
            n == s@.len(),
            first_dot(s@) == d,
            forall|k: int| 0 <= k < j ==> is_digit(#[trigger] s@[k]),
        decreases d - j,
    {
        let c = s.get_char(j);
        if !('0' <= c && c <= '9') {
            assert(s@.take(d as int)[j as int] == s@[j as int]);
            assert(!all_digits(s@.take(d as int)));
            return false;
        }
        j = j + 1;
    }
    assert forall|k: int| 0 <= k < d implies is_digit(#[trigger] s@.take(d as int)[k]) by {
        assert(s@.take(d as int)[k] == s@[k]);
    }
    assert(all_digits(s@.take(d as int)));
    if d < n {
        let mut j: usize = d + 1;
        while j < n
            invariant
                d + 1 <= j <= n,
                n == s@.len(),
                first_dot(s@) == d,
                forall|k: int| d + 1 <= k < j ==> is_digit(#[trigger] s@[k]),
            decreases n - j,
        {
            let c = s.get_char(j);
            if !('0' <= c && c <= '9') {
                assert(s@.skip(d + 1)[j - d - 1] == s@[j as int]);
                assert(!all_digits(s@.skip(d + 1)));
                return false;
            }
            j = j + 1;
        }
        assert forall|k: int| 0 <= k < s@.skip(d + 1).len() implies is_digit(
            #[trigger] s@.skip(d + 1)[k],
        ) by {
            assert(s@.skip(d + 1)[k] == s@[k + d + 1]);
        }
        assert(all_digits(s@.skip(d + 1)));
    }
    true
}

/// Parses captured indicator text under the permissive policy.
pub fn parse_percentage(s: &str) -> (p: Percentage)
    ensures
        p.hundredths == percentage_of_text(s@),
        p.is_valid(),
{
    let n: usize = s.unicode_len();
    // Locate the first dot.
    let mut dot: Option<usize> = None;
    let mut i: usize = 0;
    while i < n
        invariant
            i <= n,
            n == s@.len(),
            match dot {
                Some(k) => k < i && first_dot(s@.take(i as int)) == k,
                None => first_dot(s@.take(i as int)) == i,
            },
        decreases n - i,
    {
        let c = s.get_char(i);
        proof {
            assert(s@.take(i + 1).drop_last() =~= s@.take(i as int));
            assert(s@.take(i + 1).last() == s@[i as int]);
        }
        if dot.is_none() && c == '.' {
            dot = Some(i);
        }
        i = i + 1;
    }
    proof {
        assert(s@.take(n as int) =~= s@);
    }
    let d: usize = match dot {
        Some(k) => k,
        None => n,
    };
    // Check the shape: a nonempty digit run, optionally `.` and another one.
    if d == 0 || (d < n && d + 1 == n) {
        assert(!is_decimal_text(s@));
        return Percentage { hundredths: 0 };
    }
    let mut j: usize = 0;
    while j < d
        invariant
            j <= d,
            d <= n,
            n == s@.len(),
            first_dot(s@) == d,
            forall|k: int| 0 <= k < j ==> is_digit(#[trigger] s@[k]),
        decreases d - j,
    {
        let c = s.get_char(j);
        if !('0' <= c && c <= '9') {
            assert(!is_digit(s@[j as int]));
            assert(s@.take(d as int)[j as int] == s@[j as int]);
            assert(!all_digits(s@.take(d as int)));
            assert(first_dot(s@) == d);
            assert(!is_decimal_text(s@));
            return Percentage { hundredths: 0 };
        }
        j = j + 1;
    }
    assert forall|k: int| 0 <= k < d implies is_digit(#[trigger] s@.take(d as int)[k]) by {
        assert(s@.take(d as int)[k] == s@[k]);
    }
    assert(all_digits(s@.take(d as int)));
    if d < n {
        let mut j: usize = d + 1;
        while j < n
            invariant
                d + 1 <= j <= n,
                n == s@.len(),
                first_dot(s@) == d,
                forall|k: int| d + 1 <= k < j ==> is_digit(#[trigger] s@[k]),
            decreases n - j,
        {
            let c = s.get_char(j);
            if !('0' <= c && c <= '9') {
                assert(!is_digit(s@[j as int]));
                assert(s@.skip(d + 1)[j - d - 1] == s@[j as int]);
                assert(!all_digits(s@.skip(d + 1)));
                assert(first_dot(s@) == d);
                assert(!is_decimal_text(s@));
                return Percentage { hundredths: 0 };
            }
            j = j + 1;
        }
        assert forall|k: int| 0 <= k < s@.skip(d + 1).len() implies is_digit(
            #[trigger] s@.skip(d + 1)[k],
        ) by {
            assert(s@.skip(d + 1)[k] == s@[k + d + 1]);
        }
        assert(all_digits(s@.skip(d + 1)));
    }
    assert(is_decimal_text(s@));
    // Accumulate the integer part, capping once it exceeds the scale.
    let ghost intpart = s@.take(d as int);
    let mut acc: u64 = 0;
    let mut over: bool = false;
    let mut j: usize = 0;
    while j < d
        invariant
            j <= d,
            d <= n,
            n == s@.len(),
            all_digits(intpart),
            intpart == s@.take(d as int),
            over <==> digits_val(intpart.take(j as int)) > 100,
            !over ==> acc == digits_val(intpart.take(j as int)) && acc <= 100,
        decreases d - j,
    {
        let c = s.get_char(j);
        proof {
            assert(intpart.take(j + 1).drop_last() =~= intpart.take(j as int));
            assert(intpart.take(j + 1).last() == intpart[j as int]);
            assert(intpart[j as int] == s@[j as int]);
            lemma_digits_val_nonneg(intpart.take(j as int));
            assert(all_digits(intpart.take(j as int)));
        }
        let v: u64 = (c as u32 - '0' as u32) as u64;
        if over {
            proof {
                assert(digits_val(intpart.take(j + 1)) == digits_val(intpart.take(j as int)) * 10
                    + digit_val(intpart[j as int]));
            }
        } else {
            let next: u64 = acc * 10 + v;
            if next > 100 {
                over = true;
            } else {
                acc = next;
            }
        }
        j = j + 1;
    }
    proof {
        assert(intpart.take(d as int) =~= intpart);
    }
    // Read up to two fraction digits.
    let mut frac: u64 = 0;
    if d < n {
        let c0 = s.get_char(d + 1);
        frac = (c0 as u32 - '0' as u32) as u64 * 10;
        if d + 2 < n {
            let c1 = s.get_char(d + 2);
            frac = frac + (c1 as u32 - '0' as u32) as u64;
            proof {
                assert(s@.skip(d + 1)[0] == s@[d + 1]);
                assert(s@.skip(d + 1)[1] == s@[d + 2]);
                assert(s@.skip(d + 1).len() >= 2);
            }
        } else {
            proof {
                assert(s@.skip(d + 1)[0] == s@[d + 1]);
                assert(s@.skip(d + 1).len() == 1);
            }
        }
        assert(frac == frac_hundredths(s@.skip(d + 1)));
    }
    if over {
        proof {
            lemma_digits_val_nonneg(intpart);
            assert(decimal_hundredths(s@) >= 101 * 100);
        }
        return Percentage { hundredths: MAX_HUNDREDTHS };
    }
    let total: u64 = acc * 100 + frac;
    if total > MAX_HUNDREDTHS {
        Percentage { hundredths: MAX_HUNDREDTHS }
    } else {
        Percentage { hundredths: total }
    }
}

} // verus!
