//! Decimal text of unsigned integers, and the parsing of a port number from
//! its decimal text.
use vstd::prelude::*;
use vstd::string::*;

verus! {

/// The ASCII character of a decimal digit `d < 10`.
pub open spec fn digit_char(d: nat) -> char {
    (d + 48) as char
}

/// Whether `c` is one of the ASCII digits `0`..`9`.
pub open spec fn is_digit(c: char) -> bool {
    '0' <= c && c <= '9'
}

/// The numeric value of an ASCII digit.
pub open spec fn digit_value(c: char) -> nat {
    (c as int - 48) as nat
}

/// The shortest decimal text of `n`: its digits, most significant first.
pub open spec fn decimal_text(n: nat) -> Seq<char>
    decreases n,
{
    if n < 10 {
        seq![digit_char(n)]
    } else {
        decimal_text(n / 10).push(digit_char(n % 10))
    }
}

/// The digits read after one leading `+`, if there is one.
pub open spec fn unsigned_digits(text: Seq<char>) -> Seq<char> {
    if text.len() > 0 && text[0] == '+' {
        text.drop_first()
    } else {
        text
    }
}

/// Why a text is no 16-bit number: it is empty, holds a character that is
/// no digit, or stands for a number above `u16::MAX`.
#[derive(PartialEq, Eq, Structural, Clone, Copy, Debug)]
pub enum PortError {
    Empty,
    InvalidDigit,
    PosOverflow,
}

/// Reads digits from the left; the first character that is no digit, or
/// that takes the value past `u16::MAX`, decides the error.
pub open spec fn scan_digits(d: Seq<char>) -> Result<nat, PortError>
    decreases d.len(),
{
    if d.len() == 0 {
        Ok(0)
    } else {
        match scan_digits(d.drop_last()) {
            Err(e) => Err(e),
            Ok(v) => if !is_digit(d.last()) {
                Err(PortError::InvalidDigit)
            } else if v * 10 + digit_value(d.last()) > u16::MAX {
                Err(PortError::PosOverflow)
            } else {
                Ok(v * 10 + digit_value(d.last()))
            },
        }
    }
}

/// The port that `text` stands for, or why it stands for none: an empty
/// text is `Empty`; a lone sign is `InvalidDigit`; otherwise the digits
/// after an optional `+` are read from the left.
pub open spec fn parse_u16_text(text: Seq<char>) -> Result<u16, PortError> {
    if text.len() == 0 {
        Err(PortError::Empty)
    } else if text.len() == 1 && (text[0] == '+' || text[0] == '-') {
        Err(PortError::InvalidDigit)
    } else {
        match scan_digits(unsigned_digits(text)) {
            Ok(v) => Ok(v as u16),
            Err(e) => Err(e),
        }
    }
}

/// The text by which each port error is reported.
pub open spec fn port_error_text(e: PortError) -> Seq<char> {
    match e {
        PortError::Empty => "cannot parse integer from empty string"@,
        PortError::InvalidDigit => "invalid digit found in string"@,
        PortError::PosOverflow => "number too large to fit in target type"@,
    }
}

impl PortError {
    /// The text by which the error is reported.
    pub fn message(&self) -> (s: String)
        ensures
            s@ == port_error_text(*self),
    {
        match self {
            PortError::Empty => String::from_str("cannot parse integer from empty string"),
            PortError::InvalidDigit => String::from_str("invalid digit found in string"),
            PortError::PosOverflow => String::from_str("number too large to fit in target type"),
        }
    }
}

/// The string literal of one decimal digit.
fn digit_str(d: u64) -> (s: &'static str)
    requires
        d < 10,
    ensures
        s@ == seq![digit_char(d as nat)],
{
    if d == 0 {
        proof {
            reveal_strlit("0");
        }
        "0"
    } else if d == 1 {
        proof {
            reveal_strlit("1");
        }
        "1"
    } else if d == 2 {
        proof {
            reveal_strlit("2");
        }
        "2"
    } else if d == 3 {
        proof {
            reveal_strlit("3");
        }
        "3"
    } else if d == 4 {
        proof {
            reveal_strlit("4");
        }
        "4"
    } else if d == 5 {
        proof {
            reveal_strlit("5");
        }
        "5"
    } else if d == 6 {
        proof {
            reveal_strlit("6");
        }
        "6"
    } else if d == 7 {
        proof {
            reveal_strlit("7");
        }
        "7"
    } else if d == 8 {
        proof {
            reveal_strlit("8");
        }
        "8"
    } else {
        proof {
            reveal_strlit("9");
        }
        "9"
    }
}

/// Appends the decimal text of `n` to `out`.
pub fn push_decimal(out: &mut String, n: u64)
    ensures
        final(out)@ == old(out)@ + decimal_text(n as nat),
    decreases n,
{
    if n >= 10 {
        push_decimal(out, n / 10);
    }
    out.append(digit_str(n % 10));
    proof {
        if n >= 10 {
            assert(old(out)@ + decimal_text(n as nat) =~= old(out)@ + decimal_text((n / 10) as nat)
                + seq![digit_char((n % 10) as nat)]);
        }
    }
}

/// The decimal text of `n`.
pub fn decimal_string(n: u64) -> (s: String)
    ensures
        s@ == decimal_text(n as nat),
{
    let mut s = String::new();
    push_decimal(&mut s, n);
    assert(s@ =~= decimal_text(n as nat));
    s
}

/// The decimal text of a number is not empty and starts with a digit.
proof fn lemma_decimal_text_starts_with_digit(n: nat)
    ensures
        decimal_text(n).len() > 0,
        is_digit(decimal_text(n)[0]),
    decreases n,
{
    if n >= 10 {
        lemma_decimal_text_starts_with_digit(n / 10);
        assert(decimal_text(n)[0] == decimal_text(n / 10)[0]);
    }
}

proof fn lemma_scan_decimal_text(n: nat)
    requires
        n <= u16::MAX,
    ensures
        scan_digits(decimal_text(n)) == Ok::<nat, PortError>(n),
    decreases n,
{
    let c = digit_char(n % 10);
    assert(digit_value(c) == n % 10);
    assert(is_digit(c));
    assert(decimal_text(n).last() == c);
    let t = decimal_text(n);
    if n < 10 {
        assert(t.drop_last() =~= Seq::<char>::empty());
        assert(scan_digits(t.drop_last()) == Ok::<nat, PortError>(0));
        assert(n % 10 == n);
        assert(0 * 10 + digit_value(c) == n);
    } else {
        lemma_scan_decimal_text(n / 10);
        assert(t.drop_last() =~= decimal_text(n / 10));
        assert(n == (n / 10) * 10 + n % 10);
        assert(scan_digits(t.drop_last()) == Ok::<nat, PortError>(n / 10));
    }
    assert(scan_digits(t) == Ok::<nat, PortError>(n));
}

/// Parsing the decimal text of a 16-bit number gives that number back.
pub proof fn lemma_port_text_round_trip(port: u16)
    ensures
        parse_u16_text(decimal_text(port as nat)) == Ok::<u16, PortError>(port),
{
    lemma_decimal_text_starts_with_digit(port as nat);
    lemma_scan_decimal_text(port as nat);
}

proof fn lemma_scan_error_persists(d: Seq<char>, k: int)
    requires
        0 <= k <= d.len(),
        scan_digits(d.take(k)) is Err,
    ensures
        scan_digits(d) == scan_digits(d.take(k)),
    decreases d.len(),
{
    if k == d.len() {
        assert(d.take(k) =~= d);
    } else {
        assert(d.drop_last().take(k) =~= d.take(k));
        lemma_scan_error_persists(d.drop_last(), k);
    }
}

/// Parses a port number from its decimal text.
pub fn parse_port(text: &str) -> (r: Result<u16, PortError>)
    ensures
        r == parse_u16_text(text@),
{
    let len = text.unicode_len();
    if len == 0 {
        return Err(PortError::Empty);
    }
    let first = text.get_char(0);
    if len == 1 && (first == '+' || first == '-') {
        return Err(PortError::InvalidDigit);
    }
    let mut start: usize = 0;
    if first == '+' {
        start = 1;
    }
    let ghost d = unsigned_digits(text@);
    assert(d =~= text@.subrange(start as int, len as int));
    let mut acc: u32 = 0;
    let mut i: usize = start;
    assert(d.take(0) =~= Seq::<char>::empty());
    while i < len
        invariant
            start <= i <= len,
            len == text@.len(),
            d == unsigned_digits(text@),
            d =~= text@.subrange(start as int, len as int),
            scan_digits(d.take(i - start)) == Ok::<nat, PortError>(acc as nat),
            acc <= u16::MAX,
        decreases len - i,
    {
        let c = text.get_char(i);
        let ghost k = i - start;
        assert(d.take(k + 1).drop_last() =~= d.take(k));
        assert(d.take(k + 1).last() == c);
        if !('0' <= c && c <= '9') {
            proof {
                lemma_scan_error_persists(d, k + 1);
            }
            return Err(PortError::InvalidDigit);
        }
        let dv: u32 = (c as u32) - 48;
        let next: u32 = acc * 10 + dv;
        if next > 65535 {
            proof {
                lemma_scan_error_persists(d, k + 1);
            }
            return Err(PortError::PosOverflow);
        }
        acc = next;
        i = i + 1;
    }
    assert(d.take(len - start) =~= d);
    Ok(acc as u16)
}

} // verus!
