//! The hourly wage rate, held as normalized decimal text.
//!
//! A rate field is accepted when it is decimal digits with at most one dot
//! and digits on both sides of it. This grammar is deliberately narrower
//! than a general floating-point parse: a leading sign, a bare leading or
//! trailing dot, and exponent notation are rejected as malformed rates
//! rather than coerced. Parsing normalizes the text the way the
//! emitter needs it: leading zeros of the integer part and trailing zeros of
//! the fraction are dropped, and a fraction that becomes empty takes its dot
//! with it (`012.50` renders as `12.5`, `7.00` as `7`).

use vstd::prelude::*;
use vstd::string::StrSliceExecFns;
use vstd::string::StringExecFns;

verus! {

pub open spec fn is_digit(c: char) -> bool {
    '0' <= c && c <= '9'
}

pub open spec fn all_digits(s: Seq<char>) -> bool {
    forall|i: int| 0 <= i < s.len() ==> is_digit(#[trigger] s[i])
}

/// The text before the first dot, or all of it when there is no dot.
pub open spec fn int_part(s: Seq<char>) -> Seq<char> {
    match s.index_of_first('.') {
        Some(k) => s.take(k),
        None => s,
    }
}

/// The text after the first dot, empty when there is no dot.
pub open spec fn frac_part(s: Seq<char>) -> Seq<char> {
    match s.index_of_first('.') {
        Some(k) => s.skip(k + 1),
        None => Seq::empty(),
    }
}

/// Digits, with at most one dot carrying digits on both sides.
pub open spec fn valid_rate_text(s: Seq<char>) -> bool {
    &&& int_part(s).len() > 0
    &&& all_digits(int_part(s))
    &&& (s.contains('.') ==> frac_part(s).len() > 0 && all_digits(frac_part(s)))
}

pub open spec fn trim_leading_zeros(s: Seq<char>) -> Seq<char>
    decreases s.len(),
{
    if s.len() > 1 && s.first() == '0' {
        trim_leading_zeros(s.drop_first())
    } else {
        s
    }
}

pub open spec fn trim_trailing_zeros(s: Seq<char>) -> Seq<char>
    decreases s.len(),
{
    if s.len() > 0 && s.last() == '0' {
        trim_trailing_zeros(s.drop_last())
    } else {
        s
    }
}

/// The normalized rendering of valid rate text.
pub open spec fn normal_rate(s: Seq<char>) -> Seq<char> {
    let f = trim_trailing_zeros(frac_part(s));
    if f.len() > 0 {
        trim_leading_zeros(int_part(s)) + seq!['.'] + f
    } else {
        trim_leading_zeros(int_part(s))
    }
}

/// Trimming the front keeps the suffix after the run of leading zeros;
/// a run that reaches the last character leaves that one `0` standing.
proof fn lemma_trim_leading_zeros(s: Seq<char>, a: int)
    requires
        0 <= a < s.len(),
        forall|j: int| 0 <= j < a ==> s[j] == '0',
        a == s.len() - 1 || s[a] != '0',
    ensures
        trim_leading_zeros(s) == s.skip(a),
    decreases a,
{
    if a == 0 {
        assert(s.skip(0) =~= s);
    } else {
        lemma_trim_leading_zeros(s.drop_first(), a - 1);
        assert(s.drop_first().skip(a - 1) =~= s.skip(a));
    }
}

/// Trimming the back keeps the prefix before the run of trailing zeros.
proof fn lemma_trim_trailing_zeros(s: Seq<char>, b: int)
    requires
        0 <= b <= s.len(),
        forall|j: int| b <= j < s.len() ==> s[j] == '0',
        b == 0 || s[b - 1] != '0',
    ensures
        trim_trailing_zeros(s) == s.take(b),
    decreases s.len(),
{
    if b == s.len() {
        assert(s.take(b) =~= s);
    } else {
        assert(s.last() == '0');
        lemma_trim_trailing_zeros(s.drop_last(), b);
        assert(s.drop_last().take(b) =~= s.take(b));
    }
}

/// An hourly wage rate, as normalized decimal text.
pub struct Rate {
    pub text: String,
}

impl View for Rate {
    type V = Seq<char>;

    open spec fn view(&self) -> Seq<char> {
        self.text@
    }
}

fn exec_is_digit(c: char) -> (b: bool)
    ensures
        b == is_digit(c),
{
    '0' <= c && c <= '9'
}

impl Rate {
    /// Parse rate text; `None` exactly on text the rate grammar rejects.
    pub fn parse(s: &str) -> (r: Option<Rate>)
        ensures
            match r {
                Some(rate) => valid_rate_text(s@) && rate@ == normal_rate(s@),
                None => !valid_rate_text(s@),
            },
    {
        let n = s.unicode_len();
        // Position of the first dot; n stands for no dot at all.
        let mut dot: usize = n;
        let mut i: usize = 0;
        while i < n
            invariant
                n == s@.len(),
                i <= n,
                dot == n || (dot < i && s@[dot as int] == '.'),
                dot == n ==> forall|j: int| 0 <= j < i ==> s@[j] != '.',
                dot < n ==> forall|j: int| 0 <= j < dot ==> s@[j] != '.',
            decreases n - i,
        {
            let c = s.get_char(i);
            if c == '.' && dot == n {
                dot = i;
            }
            i += 1;
        }
        proof {
            s@.index_of_first_ensures('.');
            if dot < n {
                assert(s@.contains('.')) by {
                    assert(s@[dot as int] == '.');
                }
                assert(s@.index_of_first('.') == Some(dot as int));
            } else {
                assert(!s@.contains('.'));
            }
        }
        let k: usize = dot;
        let ghost ip = int_part(s@);
        let ghost fp = frac_part(s@);
        proof {
            if dot < n {
                assert(ip =~= s@.take(k as int));
                assert(fp =~= s@.skip(k as int + 1));
            } else {
                assert(ip =~= s@);
                assert(fp =~= Seq::<char>::empty());
            }
        }
        if k == 0 {
            return None;
        }
        if k < n && k + 1 == n {
            // A dot with nothing after it.
            return None;
        }
        // Every character but the dot must be a digit.
        let mut i: usize = 0;
        while i < k
            invariant
                n == s@.len(),
                k <= n,
                i <= k,
                ip == int_part(s@),
                ip.len() == k,
                forall|j: int| 0 <= j < i ==> is_digit(#[trigger] ip[j]),
                forall|j: int| 0 <= j < k ==> ip[j] == s@[j],
            decreases k - i,
        {
            if !exec_is_digit(s.get_char(i)) {
                assert(!is_digit(ip[i as int]));
                return None;
            }
            i += 1;
        }
        assert(all_digits(ip));
        if k < n {
            let mut i: usize = k + 1;
            while i < n
                invariant
                    n == s@.len(),
                    k + 1 < n,
                    k + 1 <= i <= n,
                    s@.contains('.'),
                    fp == frac_part(s@),
                    fp.len() == n - (k + 1),
                    forall|j: int| 0 <= j < i - (k + 1) ==> is_digit(#[trigger] fp[j]),
                    forall|j: int| 0 <= j < fp.len() ==> fp[j] == s@[k + 1 + j],
                decreases n - i,
            {
                if !exec_is_digit(s.get_char(i)) {
                    proof {
                        let j = i - (k + 1);
                        assert(fp[j] == s@[k + 1 + j]);
                        assert(!is_digit(fp[j]));
                        assert(!all_digits(frac_part(s@)));
                    }
                    return None;
                }
                i += 1;
            }
            assert(all_digits(fp));
        }
        assert(valid_rate_text(s@));
        // Skip the run of leading zeros of the integer part, keeping one
        // digit at least.
        let mut a: usize = 0;
        while a + 1 < k && s.get_char(a) == '0'
            invariant
                n == s@.len(),
                0 < k <= n,
                a < k,
                forall|j: int| 0 <= j < a ==> s@[j] == '0',
            decreases k - a,
        {
            a += 1;
        }
        proof {
            lemma_trim_leading_zeros(ip, a as int);
            assert(ip.skip(a as int) =~= s@.subrange(a as int, k as int));
        }
        let int_text = s.substring_char(a, k);
        let mut out = String::from_str(int_text);
        assert(out@ == trim_leading_zeros(ip));
        if k < n {
            // Drop the run of trailing zeros of the fraction.
            let mut b: usize = n;
            while b > k + 1 && s.get_char(b - 1) == '0'
                invariant
                    n == s@.len(),
                    k + 1 < n,
                    k + 1 <= b <= n,
                    forall|j: int| b <= j < n ==> s@[j] == '0',
                decreases b,
            {
                b -= 1;
            }
            proof {
                lemma_trim_trailing_zeros(fp, b - (k + 1));
                assert(fp.take(b - (k + 1)) =~= s@.subrange(k as int + 1, b as int));
            }
            if b > k + 1 {
                let frac_text = s.substring_char(k + 1, b);
                out.append(".");
                out.append(frac_text);
                proof {
                    reveal_strlit(".");
                    assert(out@ =~= normal_rate(s@));
                }
            } else {
                assert(trim_trailing_zeros(fp).len() == 0);
            }
        }
        assert(out@ == normal_rate(s@));
        Some(Rate { text: out })
    }
}

} // verus!
