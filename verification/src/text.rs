//! Numbers and strings as text.

use vstd::prelude::*;
use vstd::string::StringSliceAdditionalSpecFns;

verus! {

/// `String::push` appends one character to the string.
pub assume_specification[ std::string::String::push ](s: &mut std::string::String, c: char)
    ensures
        final(s)@ == old(s)@.push(c),
;

/// The character of the decimal digit `d`.
pub open spec fn digit(d: int) -> char {
    if d == 0 {
        '0'
    } else if d == 1 {
        '1'
    } else if d == 2 {
        '2'
    } else if d == 3 {
        '3'
    } else if d == 4 {
        '4'
    } else if d == 5 {
        '5'
    } else if d == 6 {
        '6'
    } else if d == 7 {
        '7'
    } else if d == 8 {
        '8'
    } else {
        '9'
    }
}

/// The decimal digits of `n`, the most significant first, without leading
/// zeros.
pub open spec fn digits(n: nat) -> Seq<char>
    decreases n,
{
    if n < 10 {
        seq![digit(n as int)]
    } else {
        digits(n / 10).push(digit((n % 10) as int))
    }
}

/// The decimal text of `n`: its digits, after a minus sign where `n` is
/// negative.
pub open spec fn decimal(n: int) -> Seq<char> {
    if n < 0 {
        seq!['-'] + digits((-n) as nat)
    } else {
        digits(n as nat)
    }
}

/// The decimal text of a number begins with a digit or a minus sign, and
/// so with no double quote and no letter.
pub proof fn lemma_decimal_starts(n: int)
    ensures
        decimal(n).len() >= 1,
        decimal(n)[0] == '-' || exists|d: int| 0 <= d <= 9 && decimal(n)[0] == digit(d),
        decimal(n)[0] != '"',
        decimal(n)[0] != 'n',
{
    if n < 0 {
        assert(decimal(n)[0] == '-');
    } else {
        lemma_digits_start(n as nat);
    }
}

/// The digits of a number begin with a digit.
pub proof fn lemma_digits_start(n: nat)
    ensures
        digits(n).len() >= 1,
        exists|d: int| 0 <= d <= 9 && digits(n)[0] == digit(d),
        digits(n)[0] != '"',
        digits(n)[0] != 'n',
        digits(n)[0] != '-',
    decreases n,
{
    if n < 10 {
        assert(digits(n)[0] == digit(n as int));
    } else {
        lemma_digits_start(n / 10);
        let d = choose|d: int| 0 <= d <= 9 && digits(n / 10)[0] == digit(d);
        assert(digits(n)[0] == digits(n / 10)[0]);
        assert(digits(n)[0] == digit(d));
    }
}

fn digit_char(d: u64) -> (c: char)
    requires
        d < 10,
    ensures
        c == digit(d as int),
{
    if d == 0 {
        '0'
    } else if d == 1 {
        '1'
    } else if d == 2 {
        '2'
    } else if d == 3 {
        '3'
    } else if d == 4 {
        '4'
    } else if d == 5 {
        '5'
    } else if d == 6 {
        '6'
    } else if d == 7 {
        '7'
    } else if d == 8 {
        '8'
    } else {
        '9'
    }
}

/// The decimal text of `n`.
pub fn decimal_string(n: i64) -> (text: String)
    ensures
        text@ == decimal(n as int),
{
    let magnitude: u64 = if n < 0 {
        ((-(n + 1)) as u64) + 1
    } else {
        n as u64
    };
    // The digits, the least significant first.
    let mut low: Vec<char> = Vec::new();
    low.push(digit_char(magnitude % 10));
    let mut rest: u64 = magnitude / 10;
    assert(low@.reverse() =~= seq![digit((magnitude % 10) as int)]);
    while rest > 0
        invariant
            low@.len() >= 1,
            rest > 0 ==> digits(magnitude as nat) == digits(rest as nat) + low@.reverse(),
            rest == 0 ==> digits(magnitude as nat) == low@.reverse(),
        decreases rest,
    {
        let ghost before = low@;
        let d = digit_char(rest % 10);
        low.push(d);
        assert(low@.reverse() =~= seq![d] + before.reverse());
        assert(digits(rest as nat) + before.reverse() =~= if rest < 10 {
            low@.reverse()
        } else {
            digits((rest / 10) as nat) + low@.reverse()
        });
        rest = rest / 10;
    }
    let mut text = String::new();
    if n < 0 {
        text.push('-');
    }
    let ghost sign = text@;
    let mut k: usize = low.len();
    while k > 0
        invariant
            k <= low@.len(),
            text@ == sign + low@.reverse().subrange(0, low@.len() - k),
        decreases k,
    {
        k = k - 1;
        text.push(low[k]);
        assert(text@ =~= sign + low@.reverse().subrange(0, low@.len() - k));
    }
    assert(low@.reverse().subrange(0, low@.len() as int) =~= low@.reverse());
    assert(sign =~= if n < 0 {
        seq!['-']
    } else {
        Seq::<char>::empty()
    });
    assert(Seq::<char>::empty() + low@.reverse() =~= low@.reverse());
    text
}

/// What `{:?}` writes for a string: the string between double quotes, with
/// the characters escaped that Rust escapes in a string literal.
pub uninterp spec fn debug_text(s: Seq<char>) -> Seq<char>;

/// Whether `text` stands between double quotes.
pub open spec fn quoted(text: Seq<char>) -> bool {
    text.len() >= 2 && text.first() == '"' && text.last() == '"'
}

/// The `Debug` form of a string, as `format!("{:?}", ..)` writes it: a
/// function of the characters of the string, which begins and ends with a
/// double quote.
#[verifier::external_body]
pub(crate) fn debug_string(s: &str) -> (text: String)
    ensures
        text@ == debug_text(s@),
        quoted(text@),
{
    format!("{:?}", s)
}

/// Whether two strings hold the same characters.
pub fn str_eq(a: &str, b: &str) -> (r: bool)
    ensures
        r == (a@ == b@),
{
    let x = a.as_bytes();
    let y = b.as_bytes();
    proof {
        // A string is what its bytes decode to, so strings with the same
        // bytes are the same.
        vstd::utf8::encode_utf8_decode_utf8(a@);
        vstd::utf8::encode_utf8_decode_utf8(b@);
    }
    if x.len() != y.len() {
        return false;
    }
    let mut i: usize = 0;
    while i < x.len()
        invariant
            i <= x@.len(),
            x@.len() == y@.len(),
            x@ == a.spec_bytes(),
            y@ == b.spec_bytes(),
            forall|j: int| 0 <= j < i ==> x@[j] == y@[j],
        decreases x@.len() - i,
    {
        if x[i] != y[i] {
            return false;
        }
        i = i + 1;
    }
    assert(x@ =~= y@);
    true
}

} // verus!
