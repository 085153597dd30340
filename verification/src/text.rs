//! Building strings: decimal numbers and the pieces of user-facing text.
use vstd::prelude::*;

verus! {

pub open spec fn digit_char(d: int) -> char {
    if d == 0 {
        '0'
    } else if d == 1 {
        '1'
    } else if d == 2 {
        '2'
    } else if d == 3 {
        '3'
    } else if d == 4 {
        '4'
    } else if d == 5 {
        '5'
    } else if d == 6 {
        '6'
    } else if d == 7 {
        '7'
    } else if d == 8 {
        '8'
    } else {
        '9'
    }
}

/// The decimal digits of a natural number, without leading zeros.
pub open spec fn digits(n: nat) -> Seq<char>
    decreases n,
{
    if n < 10 {
        seq![digit_char(n as int)]
    } else {
        digits(n / 10).push(digit_char((n % 10) as int))
    }
}

/// The decimal text of an integer, with a leading minus sign when negative.
pub open spec fn decimal(n: int) -> Seq<char> {
    if n < 0 {
        seq!['-'] + digits((-n) as nat)
    } else {
        digits(n as nat)
    }
}

/// `String::push`.
///
/// Trusted: the standard library documents that `push` appends the
/// character to the end of the string.
#[verifier::external_body]
pub(crate) fn push_char(s: &mut String, c: char)
    ensures
        final(s)@ == old(s)@.push(c),
{
    s.push(c);
}

/// `String::push_str`.
///
/// Trusted: the standard library documents that `push_str` appends the
/// given slice to the end of the string.
#[verifier::external_body]
pub(crate) fn push_str(s: &mut String, t: &str)
    ensures
        final(s)@ == old(s)@ + t@,
{
    s.push_str(t);
}

/// What `str::to_lowercase` returns for a string: each character replaced by
/// its Unicode lowercase mapping.
pub uninterp spec fn unicode_lowercase(s: Seq<char>) -> Seq<char>;

/// `str::to_lowercase`.
///
/// Trusted: the result is named `unicode_lowercase` of the input; the
/// standard library computes it from the Unicode tables alone.
#[verifier::external_body]
pub(crate) fn to_lowercase(s: &str) -> (r: String)
    ensures
        r@ == unicode_lowercase(s@),
{
    s.to_lowercase()
}

/// Code-point lexicographic order of texts; it is the order of `String`,
/// since UTF-8 keeps code-point order byte by byte.
pub open spec fn text_le(a: Seq<char>, b: Seq<char>) -> bool
    decreases a.len(),
{
    if a.len() == 0 {
        true
    } else if b.len() == 0 {
        false
    } else if (a[0] as u32) < (b[0] as u32) {
        true
    } else if a[0] == b[0] {
        text_le(a.drop_first(), b.drop_first())
    } else {
        false
    }
}

/// The order of texts is total.
pub proof fn lemma_text_le_total(a: Seq<char>, b: Seq<char>)
    ensures
        text_le(a, b) || text_le(b, a),
    decreases a.len(),
{
    if a.len() > 0 && b.len() > 0 {
        if a[0] == b[0] {
            lemma_text_le_total(a.drop_first(), b.drop_first());
        } else {
            let x = a[0];
            let y = b[0];
            vstd::utf8::char_u32_cast(x, x as u32);
            vstd::utf8::char_u32_cast(y, y as u32);
        }
    }
}

/// The order of texts is transitive.
pub proof fn lemma_text_le_trans(a: Seq<char>, b: Seq<char>, c: Seq<char>)
    requires
        text_le(a, b),
        text_le(b, c),
    ensures
        text_le(a, c),
    decreases a.len(),
{
    if a.len() > 0 && b.len() > 0 && c.len() > 0 && a[0] == b[0] && b[0] == c[0] {
        lemma_text_le_trans(a.drop_first(), b.drop_first(), c.drop_first());
    }
}

/// Whether `a <= b` as strings.
pub fn text_le_exec(a: &String, b: &String) -> (r: bool)
    ensures
        r == text_le(a@, b@),
{
    let x = chars_of(a.as_str());
    let y = chars_of(b.as_str());
    let mut i: usize = 0;
    proof {
        assert(a@.skip(0) =~= a@);
        assert(b@.skip(0) =~= b@);
    }
    while i < x.len()
        invariant
            i <= x.len(),
            x@ == a@,
            y@ == b@,
            i <= y.len(),
            text_le(a@, b@) == text_le(a@.skip(i as int), b@.skip(i as int)),
        decreases x.len() - i,
    {
        if i >= y.len() {
            proof {
                assert(b@.skip(i as int).len() == 0);
                assert(a@.skip(i as int).len() > 0);
            }
            return false;
        }
        let c = x[i];
        let d = y[i];
        proof {
            assert(a@.skip(i as int)[0] == c);
            assert(b@.skip(i as int)[0] == d);
            assert(a@.skip(i as int).drop_first() =~= a@.skip(i + 1));
            assert(b@.skip(i as int).drop_first() =~= b@.skip(i + 1));
        }
        if (c as u32) < (d as u32) {
            return true;
        }
        if c != d {
            return false;
        }
        i += 1;
    }
    proof {
        assert(a@.skip(i as int).len() == 0);
    }
    true
}

/// `n / unit` rounded to the nearest integer, halves to even.
pub open spec fn round_half_even(n: nat, unit: nat) -> nat
    recommends
        unit > 0,
{
    let q = n / unit;
    let r = n % unit;
    if 2 * r < unit {
        q
    } else if 2 * r > unit {
        q + 1
    } else if q % 2 == 0 {
        q
    } else {
        q + 1
    }
}

/// A value in millionths of a percentage point shown with no decimals, as
/// `{:.0}` shows the percentage (halves to even, a minus sign for any
/// negative value).
pub open spec fn percent_text(x: int) -> Seq<char> {
    if x < 0 {
        seq!['-'] + digits(round_half_even((-x) as nat, 1_000_000))
    } else {
        digits(round_half_even(x as nat, 1_000_000))
    }
}

/// `n / unit` rounded to the nearest integer, halves to even.
pub fn round_half_even_exec(n: u128, unit: u128) -> (r: u128)
    requires
        0 < unit < 0x1_0000_0000_0000_0000,
        n < 0x1_0000_0000_0000_0000,
    ensures
        r == round_half_even(n as nat, unit as nat),
{
    let q = n / unit;
    let rem = n % unit;
    if 2 * rem < unit {
        q
    } else if 2 * rem > unit {
        q + 1
    } else if q % 2 == 0 {
        q
    } else {
        q + 1
    }
}

/// Appends a percentage given in millionths of a percentage point, with no
/// decimals.
pub fn push_percent(s: &mut String, x: i64)
    ensures
        final(s)@ == old(s)@ + percent_text(x as int),
{
    if x < 0 {
        push_char(s, '-');
        let m = crate::ratio::magnitude(x as i128);
        let whole = round_half_even_exec(m, 1_000_000);
        push_digits(s, whole);
        proof {
            assert(old(s)@.push('-') + digits(whole as nat) =~= old(s)@ + percent_text(x as int));
        }
    } else {
        let whole = round_half_even_exec(x as u128, 1_000_000);
        push_digits(s, whole);
    }
}

/// The character for a decimal digit.
pub fn digit(d: u8) -> (c: char)
    requires
        d < 10,
    ensures
        c == digit_char(d as int),
{
    if d == 0 {
        '0'
    } else if d == 1 {
        '1'
    } else if d == 2 {
        '2'
    } else if d == 3 {
        '3'
    } else if d == 4 {
        '4'
    } else if d == 5 {
        '5'
    } else if d == 6 {
        '6'
    } else if d == 7 {
        '7'
    } else if d == 8 {
        '8'
    } else {
        '9'
    }
}

/// Appends the decimal digits of `n` to `s`.
pub fn push_digits(s: &mut String, n: u128)
    ensures
        final(s)@ == old(s)@ + digits(n as nat),
    decreases n,
{
    if n >= 10 {
        push_digits(s, n / 10);
        push_char(s, digit((n % 10) as u8));
        proof {
            assert(old(s)@ + digits((n / 10) as nat) + seq![digit_char((n % 10) as int)] =~= old(
                s,
            )@ + digits(n as nat));
        }
    } else {
        push_char(s, digit(n as u8));
        proof {
            assert(old(s)@.push(digit_char(n as int)) =~= old(s)@ + digits(n as nat));
        }
    }
}

/// Appends the decimal text of `n` to `s`.
pub fn push_decimal(s: &mut String, n: i128)
    ensures
        final(s)@ == old(s)@ + decimal(n as int),
{
    if n < 0 {
        push_char(s, '-');
        let m = crate::ratio::magnitude(n);
        push_digits(s, m);
        proof {
            assert(old(s)@.push('-') + digits(m as nat) =~= old(s)@ + decimal(n as int));
        }
    } else {
        push_digits(s, n as u128);
    }
}

/// The decimal text of `n`.
pub fn decimal_string(n: i128) -> (r: String)
    ensures
        r@ == decimal(n as int),
{
    let mut s = String::new();
    push_decimal(&mut s, n);
    proof {
        assert(Seq::<char>::empty() + decimal(n as int) =~= decimal(n as int));
    }
    s
}

/// A copy of a string slice.
pub fn owned(t: &str) -> (r: String)
    ensures
        r@ == t@,
{
    let mut s = String::new();
    push_str(&mut s, t);
    proof {
        assert(Seq::<char>::empty() + t@ =~= t@);
    }
    s
}

} // verus!
verus! {

/// The characters of a string slice.
pub fn chars_of(s: &str) -> (r: Vec<char>)
    ensures
        r@ == s@,
{
    let mut out: Vec<char> = Vec::new();
    broadcast use vstd::string::axiom_spec_iter;
    for c in it: s.chars()
        invariant
            it.seq() == s@,
            out@ == s@.take(it.index() as int),
    {
        proof {
            assert(s@.take(it.index() + 1) =~= s@.take(it.index() as int).push(c));
        }
        out.push(c);
    }
    proof {
        assert(out@.len() == s@.len());
        assert(out@ =~= s@);
    }
    out
}

} // verus!
