use vstd::prelude::*;

verus! {

/// Whether the regex crate accepts `pattern` as a pattern.
pub uninterp spec fn re_valid(pattern: Seq<char>) -> bool;

/// Whether a match for `pattern` occurs anywhere in `text`, as the regex
/// crate decides it.
pub uninterp spec fn re_found(pattern: Seq<char>, text: Seq<char>) -> bool;

/// The counts captured by the CCS marker pattern, one per non-overlapping
/// occurrence of the marker in `text`, in order; a captured number too large
/// for `i32` reads as 0.
pub uninterp spec fn ccs_counts_of(text: Seq<char>) -> Seq<i32>;

/// `name` with a leading `<digits>kW` prefix replaced by `replacement`, and
/// unchanged where the prefix is absent.
pub uninterp spec fn kw_replaced(name: Seq<char>, replacement: Seq<char>) -> Seq<char>;

/// Relies on regex::Regex::new: whether it accepts the pattern.
#[verifier::external_body]
pub fn regex_is_valid(pattern: &str) -> (r: bool)
    ensures
        r == re_valid(pattern@),
{
    regex::Regex::new(pattern).is_ok()
}

/// Relies on regex::Regex::is_match: whether a match for the pattern occurs
/// anywhere in the text. The result depends on the two arguments alone.
#[verifier::external_body]
pub(crate) fn regex_search(pattern: &str, text: &str) -> (r: bool)
    requires
        re_valid(pattern@),
    ensures
        r == re_found(pattern@, text@),
{
    regex::Regex::new(pattern).unwrap().is_match(text)
}

/// Relies on regex::Regex::captures_iter with the fixed pattern
/// `\b(\d+)\b x Combo Typ 2 \(CCS\)`: one capture per non-overlapping
/// occurrence, in order. Each capture is a digit run, so it parses to a
/// non-negative number or, on overflow, reads as 0; the pattern cannot match
/// inside empty text.
#[verifier::external_body]
pub(crate) fn ccs_counts(text: &str) -> (r: Vec<i32>)
    ensures
        r@ == ccs_counts_of(text@),
        forall|i: int| 0 <= i < r@.len() ==> 0 <= r@[i],
        text@.len() == 0 ==> r@.len() == 0,
{
    let re = regex::Regex::new(r"\b(\d+)\b x Combo Typ 2 \(CCS\)").unwrap();
    re.captures_iter(text)
        .map(|c| c.get(1).unwrap().as_str().parse::<i32>().unwrap_or(0))
        .collect()
}

/// Relies on regex::Regex::replace_all with the fixed anchored pattern
/// `^(\d+)kW`: at most one match, at the very start of the name; a name
/// without the prefix comes back unchanged, so in particular an empty one
/// does. The result depends on the two arguments alone.
#[verifier::external_body]
pub(crate) fn replace_kw_prefix(name: &str, replacement: &str) -> (r: String)
    ensures
        r@ == kw_replaced(name@, replacement@),
        name@.len() == 0 ==> r@ == name@,
{
    let re = regex::Regex::new(r"^(\d+)kW").unwrap();
    re.replace_all(name, replacement).to_string()
}

/// The sum of a sequence of counts, as an unbounded integer.
pub open spec fn sum_counts(s: Seq<i32>) -> int
    decreases s.len(),
{
    if s.len() == 0 {
        0
    } else {
        sum_counts(s.drop_last()) + s.last()
    }
}

/// The number of CCS charging points a description advertises: the sum of
/// every count the CCS marker pattern captures in it.
pub open spec fn ccs_total(text: Seq<char>) -> int {
    sum_counts(ccs_counts_of(text))
}

proof fn lemma_sum_counts_bounds(s: Seq<i32>)
    requires
        forall|i: int| 0 <= i < s.len() ==> 0 <= s[i],
    ensures
        0 <= sum_counts(s) <= s.len() * 0x7fff_ffff,
    decreases s.len(),
{
    if s.len() > 0 {
        lemma_sum_counts_bounds(s.drop_last());
        assert((s.len() - 1) * 0x7fff_ffff + 0x7fff_ffff == s.len() * 0x7fff_ffff)
            by (nonlinear_arith);
    }
}

/// Sum every count that the CCS marker pattern captures in `text`. A text
/// without an occurrence, the empty one included, sums to 0.
pub fn sum_ccs(text: &str) -> (r: u128)
    ensures
        r as int == ccs_total(text@),
{
    let counts = ccs_counts(text);
    let mut sum: u128 = 0;
    let mut i: usize = 0;
    while i < counts.len()
        invariant
            i <= counts@.len(),
            counts@ == ccs_counts_of(text@),
            forall|j: int| 0 <= j < counts@.len() ==> 0 <= counts@[j],
            sum as int == sum_counts(counts@.take(i as int)),
        decreases counts@.len() - i,
    {
        proof {
            assert(counts@.take(i + 1).drop_last() =~= counts@.take(i as int));
            lemma_sum_counts_bounds(counts@.take(i + 1));
            assert((i + 1) * 0x7fff_ffff <= 0x1_0000_0000_0000_0000 * 0x7fff_ffff)
                by (nonlinear_arith)
                requires
                    0 <= i,
                    i + 1 <= 0x1_0000_0000_0000_0000,
            ;
        }
        sum = sum + counts[i] as u128;
        i = i + 1;
    }
    proof {
        assert(counts@.take(counts@.len() as int) =~= counts@);
    }
    sum
}

/// The character for one decimal digit.
pub open spec fn dec_digit(d: int) -> char {
    if d == 0 {
        '0'
    } else if d == 1 {
        '1'
    } else if d == 2 {
        '2'
    } else if d == 3 {
        '3'
    } else if d == 4 {
        '4'
    } else if d == 5 {
        '5'
    } else if d == 6 {
        '6'
    } else if d == 7 {
        '7'
    } else if d == 8 {
        '8'
    } else {
        '9'
    }
}

/// The decimal numeral of `n`, most significant digit first and without
/// leading zeros (`0` itself excepted).
pub open spec fn dec_of(n: nat) -> Seq<char>
    decreases n,
{
    if n < 10 {
        seq![dec_digit(n as int)]
    } else {
        dec_of(n / 10).push(dec_digit((n % 10) as int))
    }
}

/// The digit characters of `digits` in reverse order: `digits` holds a
/// numeral least significant digit first, the result reads it out as text.
pub open spec fn rev_digit_chars(digits: Seq<u128>) -> Seq<char> {
    Seq::new(digits.len(), |i: int| dec_digit(digits[digits.len() - 1 - i] as int))
}

fn digit_str(d: u128) -> (r: &'static str)
    requires
        d < 10,
    ensures
        r@ =~= seq![dec_digit(d as int)],
{
    proof {
        reveal_strlit("0");
        reveal_strlit("1");
        reveal_strlit("2");
        reveal_strlit("3");
        reveal_strlit("4");
        reveal_strlit("5");
        reveal_strlit("6");
        reveal_strlit("7");
        reveal_strlit("8");
        reveal_strlit("9");
    }
    if d == 0 {
        "0"
    } else if d == 1 {
        "1"
    } else if d == 2 {
        "2"
    } else if d == 3 {
        "3"
    } else if d == 4 {
        "4"
    } else if d == 5 {
        "5"
    } else if d == 6 {
        "6"
    } else if d == 7 {
        "7"
    } else if d == 8 {
        "8"
    } else {
        "9"
    }
}

/// Format `n` as its decimal numeral.
pub fn format_dec(n: u128) -> (s: String)
    ensures
        s@ == dec_of(n as nat),
{
    let mut digits: Vec<u128> = Vec::new();
    let mut m: u128 = n;
    loop
        invariant_except_break
            digits@.len() == 0 ==> m == n,
            digits@.len() > 0 ==> dec_of(n as nat) == dec_of(m as nat) + rev_digit_chars(
                digits@,
            ) && m >= 1,
            forall|i: int| 0 <= i < digits@.len() ==> digits@[i] < 10,
        ensures
            dec_of(n as nat) == rev_digit_chars(digits@),
            forall|i: int| 0 <= i < digits@.len() ==> digits@[i] < 10,
        decreases m,
    {
        let d: u128 = m % 10;
        digits.push(d);
        proof {
            let prior = digits@.drop_last();
            assert(rev_digit_chars(digits@) =~= seq![dec_digit(d as int)] + rev_digit_chars(
                prior,
            ));
            if m < 10 {
                if prior.len() == 0 {
                    assert(rev_digit_chars(digits@) =~= dec_of(n as nat));
                } else {
                    assert(dec_of(m as nat) =~= seq![dec_digit(d as int)]);
                    assert(dec_of(n as nat) =~= rev_digit_chars(digits@));
                }
            } else {
                assert(dec_of(m as nat) == dec_of((m as nat) / 10).push(
                    dec_digit(((m as nat) % 10) as int),
                ));
                assert(dec_of((m as nat) / 10) + rev_digit_chars(digits@) =~= dec_of(m as nat)
                    + rev_digit_chars(prior));
                if prior.len() == 0 {
                    assert(dec_of(n as nat) == dec_of((m / 10) as nat) + rev_digit_chars(digits@));
                }
            }
        }
        if m < 10 {
            break ;
        }
        m = m / 10;
    }
    let count = digits.len();
    let mut s = String::new();
    let mut i: usize = 0;
    while i < count
        invariant
            count == digits@.len(),
            i <= count,
            forall|j: int| 0 <= j < digits@.len() ==> digits@[j] < 10,
            dec_of(n as nat) == rev_digit_chars(digits@),
            s@ == rev_digit_chars(digits@).take(i as int),
        decreases count - i,
    {
        let part = digit_str(digits[count - 1 - i]);
        s.append(part);
        proof {
            assert(s@ =~= rev_digit_chars(digits@).take(i + 1));
        }
        i = i + 1;
    }
    proof {
        assert(rev_digit_chars(digits@).take(count as int) =~= rev_digit_chars(digits@));
    }
    s
}

} // verus!
