//! Decimal text and case-insensitive names.

use vstd::prelude::*;
use vstd::string::StringExecFns;

verus! {

/// The character of the decimal digit `d`.
pub open spec fn digit_char(d: int) -> char {
    if d == 0 {
        '0'
    } else if d == 1 {
        '1'
    } else if d == 2 {
        '2'
    } else if d == 3 {
        '3'
    } else if d == 4 {
        '4'
    } else if d == 5 {
        '5'
    } else if d == 6 {
        '6'
    } else if d == 7 {
        '7'
    } else if d == 8 {
        '8'
    } else {
        '9'
    }
}

/// Decimal digits of `n`, without leading zeros.
pub open spec fn decimal(n: nat) -> Seq<char>
    decreases n,
{
    if n < 10 {
        seq![digit_char(n as int)]
    } else {
        decimal(n / 10).push(digit_char((n % 10) as int))
    }
}

/// `f` (below 1000) as exactly three digits.
pub open spec fn three_digits(f: nat) -> Seq<char> {
    if f < 10 {
        "00"@ + decimal(f)
    } else if f < 100 {
        "0"@ + decimal(f)
    } else {
        decimal(f)
    }
}

/// Microseconds as seconds with three decimals, rounded to the millisecond.
pub open spec fn seconds_text(us: nat) -> Seq<char> {
    let ms = (us + 500) / 1000;
    decimal(ms / 1000) + "."@ + three_digits(ms % 1000)
}

/// Thousandths as a decimal number without trailing zeros: 120000 reads
/// `120`, 117500 reads `117.5`.
pub open spec fn milli_text(m: nat) -> Seq<char> {
    let f = m % 1000;
    decimal(m / 1000) + if f == 0 {
        Seq::empty()
    } else if f % 100 == 0 {
        "."@ + decimal(f / 100)
    } else if f % 10 == 0 {
        "."@ + (if f < 100 {
            "0"@
        } else {
            Seq::empty()
        }) + decimal(f / 10)
    } else {
        "."@ + three_digits(f)
    }
}

/// Relies on `u64`'s `Display` (through `to_string`): the shortest decimal
/// form of the number.
#[verifier::external_body]
pub(crate) fn decimal_string(n: u64) -> (r: String)
    ensures
        r@ == decimal(n as nat),
{
    n.to_string()
}

/// Appends `f` (below 1000) as exactly three digits.
fn push_three_digits(out: &mut String, f: u64)
    requires
        f < 1000,
    ensures
        final(out)@ == old(out)@ + three_digits(f as nat),
{
    if f < 10 {
        out.append("00");
    } else if f < 100 {
        out.append("0");
    }
    let d = decimal_string(f);
    out.append(d.as_str());
}

/// Appends `seconds_text(us)`.
pub fn push_seconds(out: &mut String, us: u64)
    ensures
        final(out)@ == old(out)@ + seconds_text(us as nat),
{
    let ms: u64 = us / 1000 + if us % 1000 >= 500 {
        1
    } else {
        0
    };
    assert(ms == (us + 500) / 1000);
    let whole = decimal_string(ms / 1000);
    out.append(whole.as_str());
    out.append(".");
    push_three_digits(out, ms % 1000);
    assert(final(out)@ =~= old(out)@ + seconds_text(us as nat));
}

/// Appends `milli_text(m)`.
pub fn push_milli(out: &mut String, m: u64)
    ensures
        final(out)@ == old(out)@ + milli_text(m as nat),
{
    let whole = decimal_string(m / 1000);
    out.append(whole.as_str());
    let f = m % 1000;
    if f == 0 {
    } else if f % 100 == 0 {
        out.append(".");
        let d = decimal_string(f / 100);
        out.append(d.as_str());
    } else if f % 10 == 0 {
        out.append(".");
        if f < 100 {
            out.append("0");
        }
        let d = decimal_string(f / 10);
        out.append(d.as_str());
    } else {
        out.append(".");
        push_three_digits(out, f);
    }
    assert(final(out)@ =~= old(out)@ + milli_text(m as nat));
}

/// `c` equals the lower-case ASCII letter or other character `l`, ignoring
/// ASCII case.
pub open spec fn char_matches(c: char, l: char) -> bool {
    c == l || ('A' <= c <= 'Z' && c as u32 + 32 == l as u32)
}

/// `s` spells `lower` (written in lower case) when ASCII case is ignored.
pub open spec fn matches_ignoring_case(s: Seq<char>, lower: Seq<char>) -> bool {
    s.len() == lower.len() && forall|i: int| 0 <= i < s.len() ==> char_matches(#[trigger] s[i], lower[i])
}

/// Whether `s` spells `lower` (written in lower case), ignoring ASCII case.
pub fn eq_ignore_case(s: &str, lower: &str) -> (r: bool)
    ensures
        r == matches_ignoring_case(s@, lower@),
{
    let n = s.unicode_len();
    if n != lower.unicode_len() {
        return false;
    }
    let mut i: usize = 0;
    while i < n
        invariant
            n == s@.len(),
            n == lower@.len(),
            i <= n,
            forall|k: int| 0 <= k < i ==> char_matches(#[trigger] s@[k], lower@[k]),
        decreases n - i,
    {
        let c = s.get_char(i);
        let l = lower.get_char(i);
        let ok = c == l || ('A' <= c && c <= 'Z' && c as u32 + 32 == l as u32);
        if !ok {
            assert(!char_matches(s@[i as int], lower@[i as int]));
            return false;
        }
        i = i + 1;
    }
    true
}

} // verus!
