use vstd::prelude::*;

use crate::error::OctetError;

verus! {

/// The pieces of `s` between occurrences of `sep`, as `str::split` yields them:
/// `k` separators give `k + 1` pieces, empty ones included.
pub open spec fn split_on(s: Seq<char>, sep: char) -> Seq<Seq<char>>
    decreases s.len(),
{
    if s.len() == 0 {
        seq![Seq::<char>::empty()]
    } else {
        let prev = split_on(s.drop_last(), sep);
        if s.last() == sep {
            prev.push(Seq::<char>::empty())
        } else {
            prev.update(prev.len() - 1, prev.last().push(s.last()))
        }
    }
}

pub open spec fn is_digit(c: char) -> bool {
    '0' <= c && c <= '9'
}

pub open spec fn digit_value(c: char) -> nat {
    (c as nat - '0' as nat) as nat
}

/// Reads decimal digits from left to right; the first character that is no digit, or the
/// first digit after which the value exceeds a byte, decides the error.
pub open spec fn scan_digits(d: Seq<char>) -> Result<nat, OctetError>
    decreases d.len(),
{
    if d.len() == 0 {
        Ok(0)
    } else {
        match scan_digits(d.drop_last()) {
            Err(e) => Err(e),
            Ok(v) => if !is_digit(d.last()) {
                Err(OctetError::InvalidDigit)
            } else if v * 10 + digit_value(d.last()) > 255 {
                Err(OctetError::PosOverflow)
            } else {
                Ok(v * 10 + digit_value(d.last()))
            },
        }
    }
}

/// The value of `s` read as an unsigned byte: an optional `+` followed by decimal digits.
pub open spec fn parse_u8_spec(s: Seq<char>) -> Result<u8, OctetError> {
    if s.len() == 0 {
        Err(OctetError::Empty)
    } else if s.len() == 1 && (s[0] == '+' || s[0] == '-') {
        Err(OctetError::InvalidDigit)
    } else {
        let d = if s[0] == '+' { s.drop_first() } else { s };
        match scan_digits(d) {
            Ok(v) => Ok(v as u8),
            Err(e) => Err(e),
        }
    }
}

proof fn lemma_scan_err_extends(d: Seq<char>, k: int)
    requires
        0 <= k <= d.len(),
        scan_digits(d.subrange(0, k)) is Err,
    ensures
        scan_digits(d) == scan_digits(d.subrange(0, k)),
    decreases d.len() - k,
{
    if k < d.len() {
        let e = d.subrange(0, k + 1);
        assert(e.drop_last() =~= d.subrange(0, k));
        assert(d.subrange(0, k + 1).subrange(0, k) =~= d.subrange(0, k));
        lemma_scan_err_extends(d, k + 1);
    } else {
        assert(d.subrange(0, k) =~= d);
    }
}

/// Splits `s` at every occurrence of `sep`.
pub fn split_str<'a>(s: &'a str, sep: char) -> (r: Vec<&'a str>)
    ensures
        r@.map_values(|p: &str| p@) == split_on(s@, sep),
{
    let n = s.unicode_len();
    let mut pieces: Vec<&'a str> = Vec::new();
    let mut start: usize = 0;
    let mut i: usize = 0;
    assert(s@.subrange(0, 0) =~= Seq::<char>::empty());
    assert(pieces@.map_values(|p: &str| p@).push(s@.subrange(0, 0)) =~= seq![
        Seq::<char>::empty(),
    ]);
    while i < n
        invariant
            n == s@.len(),
            start <= i <= n,
            split_on(s@.subrange(0, i as int), sep) == pieces@.map_values(|p: &str| p@).push(
                s@.subrange(start as int, i as int),
            ),
        decreases n - i,
    {
        let c = s.get_char(i);
        let ghost prefix = s@.subrange(0, i as int + 1);
        assert(prefix.drop_last() == s@.subrange(0, i as int));
        if c == sep {
            let piece = s.substring_char(start, i);
            pieces.push(piece);
            start = i + 1;
            assert(s@.subrange(start as int, i as int + 1) =~= Seq::<char>::empty());
        } else {
            assert(s@.subrange(start as int, i as int + 1) =~= s@.subrange(
                start as int,
                i as int,
            ).push(c));
        }
        i = i + 1;
        assert(pieces@.map_values(|p: &str| p@).push(s@.subrange(start as int, i as int))
            =~= split_on(prefix, sep));
    }
    let last = s.substring_char(start, n);
    pieces.push(last);
    assert(s@.subrange(0, n as int) =~= s@);
    assert(pieces@.map_values(|p: &str| p@) =~= split_on(s@, sep));
    pieces
}

/// Parses `s` as an unsigned byte, as `u8::from_str` does.
pub fn parse_u8(s: &str) -> (r: Result<u8, OctetError>)
    ensures
        r == parse_u8_spec(s@),
{
    let n = s.unicode_len();
    if n == 0 {
        return Err(OctetError::Empty);
    }
    let first = s.get_char(0);
    if n == 1 && (first == '+' || first == '-') {
        return Err(OctetError::InvalidDigit);
    }
    let start: usize = if first == '+' { 1 } else { 0 };
    let ghost d = if first == '+' { s@.drop_first() } else { s@ };
    assert(d =~= s@.subrange(start as int, n as int));
    let mut v: u32 = 0;
    let mut i: usize = start;
    while i < n
        invariant
            n == s@.len(),
            start <= i <= n,
            d == s@.subrange(start as int, n as int),
            d == (if s@[0] == '+' { s@.drop_first() } else { s@ }),
            n > 0,
            !(n == 1 && (s@[0] == '+' || s@[0] == '-')),
            scan_digits(d.subrange(0, i - start)) == Ok::<nat, OctetError>(v as nat),
            v <= 255,
        decreases n - i,
    {
        let c = s.get_char(i);
        assert(d.subrange(0, i + 1 - start).drop_last() =~= d.subrange(0, i - start));
        assert(d.subrange(0, i + 1 - start).last() == c);
        if !('0' <= c && c <= '9') {
            proof {
                lemma_scan_err_extends(d, i + 1 - start);
            }
            return Err(OctetError::InvalidDigit);
        }
        let nv: u32 = v * 10 + (c as u32 - '0' as u32);
        if nv > 255 {
            proof {
                lemma_scan_err_extends(d, i + 1 - start);
            }
            return Err(OctetError::PosOverflow);
        }
        v = nv;
        i = i + 1;
    }
    assert(d.subrange(0, n - start) =~= d);
    Ok(v as u8)
}

pub open spec fn digit_char(d: nat) -> char {
    (('0' as nat) + d) as char
}

/// The decimal digits of `n`, without leading zeros.
pub open spec fn decimal(n: nat) -> Seq<char>
    decreases n,
{
    if n < 10 {
        seq![digit_char(n)]
    } else {
        decimal(n / 10).push(digit_char(n % 10))
    }
}

/// The decimal text of a number is made of digits only.
pub proof fn lemma_decimal_digits(n: nat)
    ensures
        decimal(n).len() >= 1,
        forall|i: int| 0 <= i < decimal(n).len() ==> is_digit(#[trigger] decimal(n)[i]),
    decreases n,
{
    if n >= 10 {
        lemma_decimal_digits(n / 10);
        assert forall|i: int| 0 <= i < decimal(n).len() implies is_digit(
            #[trigger] decimal(n)[i],
        ) by {
            if i < decimal(n / 10).len() {
                assert(decimal(n)[i] == decimal(n / 10)[i]);
            }
        }
    }
}

/// Reading back the decimal text of a byte gives the byte.
pub proof fn lemma_scan_decimal(n: nat)
    requires
        n <= 255,
    ensures
        scan_digits(decimal(n)) == Ok::<nat, OctetError>(n),
        parse_u8_spec(decimal(n)) == Ok::<u8, OctetError>(n as u8),
    decreases n,
{
    lemma_decimal_digits(n);
    let d = decimal(n);
    assert(scan_digits(Seq::<char>::empty()) == Ok::<nat, OctetError>(0));
    if n < 10 {
        assert(d.drop_last() =~= Seq::<char>::empty());
        assert(d.last() == digit_char(n));
        assert(digit_value(digit_char(n)) == n);
    } else {
        lemma_scan_decimal(n / 10);
        assert(d.drop_last() =~= decimal(n / 10));
        assert(d.last() == digit_char(n % 10));
        assert(digit_value(digit_char(n % 10)) == n % 10);
        assert((n / 10) * 10 + n % 10 == n);
    }
    assert(scan_digits(d) == Ok::<nat, OctetError>(n));
    assert(is_digit(d[0]));
}

/// A text without separators is one piece.
pub proof fn lemma_split_single(b: Seq<char>, sep: char)
    requires
        forall|i: int| 0 <= i < b.len() ==> b[i] != sep,
    ensures
        split_on(b, sep) == seq![b],
    decreases b.len(),
{
    if b.len() > 0 {
        lemma_split_single(b.drop_last(), sep);
        assert(b.drop_last().push(b.last()) =~= b);
        assert(seq![b.drop_last()].update(0, b.drop_last().push(b.last())) =~= seq![b]);
    } else {
        assert(b =~= Seq::<char>::empty());
    }
}

/// Appending a separator and a text without separators appends one piece.
pub proof fn lemma_split_append(x: Seq<char>, b: Seq<char>, sep: char)
    requires
        forall|i: int| 0 <= i < b.len() ==> b[i] != sep,
    ensures
        split_on(x + seq![sep] + b, sep) == split_on(x, sep).push(b),
    decreases b.len(),
{
    let y = x + seq![sep] + b;
    if b.len() == 0 {
        assert(y.drop_last() =~= x);
        assert(y.last() == sep);
        assert(b =~= Seq::<char>::empty());
    } else {
        let b1 = b.drop_last();
        lemma_split_append(x, b1, sep);
        assert(y.drop_last() =~= x + seq![sep] + b1);
        assert(y.last() == b.last());
        assert(b1.push(b.last()) =~= b);
        let prev = split_on(x, sep).push(b1);
        assert(prev.update(prev.len() - 1, prev.last().push(b.last())) =~= split_on(x, sep).push(
            b,
        ));
    }
}

fn digit_str(d: u8) -> (r: &'static str)
    requires
        d < 10,
    ensures
        r@ == seq![digit_char(d as nat)],
{
    proof {
        reveal_strlit("0");
        reveal_strlit("1");
        reveal_strlit("2");
        reveal_strlit("3");
        reveal_strlit("4");
        reveal_strlit("5");
        reveal_strlit("6");
        reveal_strlit("7");
        reveal_strlit("8");
        reveal_strlit("9");
    }
    match d {
        0 => "0",
        1 => "1",
        2 => "2",
        3 => "3",
        4 => "4",
        5 => "5",
        6 => "6",
        7 => "7",
        8 => "8",
        _ => "9",
    }
}

/// Appends the decimal digits of `b` to `out`.
pub fn push_decimal(out: &mut String, b: u8)
    ensures
        final(out)@ == old(out)@ + decimal(b as nat),
{
    let ghost before = out@;
    let ghost n = b as nat;
    if b >= 100 {
        out.append(digit_str(b / 100));
        out.append(digit_str((b / 10) % 10));
        out.append(digit_str(b % 10));
        assert(n / 10 / 10 == n / 100);
        assert(decimal(n / 100) == seq![digit_char(n / 100)]);
        assert(decimal(n / 10) == decimal(n / 100).push(digit_char((n / 10) % 10)));
        assert(decimal(n) == decimal(n / 10).push(digit_char(n % 10)));
        assert(out@ =~= before + decimal(n));
    } else if b >= 10 {
        out.append(digit_str(b / 10));
        out.append(digit_str(b % 10));
        assert(decimal(n / 10) == seq![digit_char(n / 10)]);
        assert(decimal(n) == decimal(n / 10).push(digit_char(n % 10)));
        assert(out@ =~= before + decimal(n));
    } else {
        out.append(digit_str(b));
        assert(out@ =~= before + decimal(n));
    }
}

} // verus!
