use vstd::prelude::*;

use crate::error::{IpError, OctetError};
use crate::text::{
    decimal, lemma_decimal_digits, lemma_scan_decimal, lemma_split_append, lemma_split_single,
    parse_u8, parse_u8_spec, push_decimal, split_on, split_str,
};

verus! {

/// Octet `k` of `v`, counting from the least significant byte.
pub open spec fn octet(v: u32, k: u32) -> nat {
    ((v >> (8 * k) as u32) & 0xff) as nat
}

/// The dotted-quad text of `v`: its four octets in decimal, most significant first.
pub open spec fn quad_text(v: u32) -> Seq<char> {
    decimal(octet(v, 3)) + seq!['.'] + decimal(octet(v, 2)) + seq!['.'] + decimal(octet(v, 1))
        + seq!['.'] + decimal(octet(v, 0))
}

/// Reads the octets in `parts` from left to right, placing the first one in the most
/// significant byte; the first octet that fails to parse decides the error.
pub open spec fn fold_octets(parts: Seq<Seq<char>>) -> Result<u32, OctetError>
    decreases parts.len(),
{
    if parts.len() == 0 {
        Ok(0)
    } else {
        match fold_octets(parts.drop_last()) {
            Err(e) => Err(e),
            Ok(v) => match parse_u8_spec(parts.last()) {
                Err(e) => Err(e),
                Ok(b) => Ok(v | ((b as u32) << (8 * (4 - parts.len())) as u32)),
            },
        }
    }
}

/// The octet pieces of a dotted-quad text.
pub open spec fn quad_parts(s: Seq<char>) -> Seq<Seq<char>> {
    split_on(s, '.')
}

/// What parsing `s` as an address gives.
pub open spec fn parse_ipv4_spec(s: Seq<char>) -> Result<Ipv4, IpError> {
    if quad_parts(s).len() != 4 {
        Err(IpError::InvalidOctetCountError)
    } else {
        match fold_octets(quad_parts(s)) {
            Ok(v) => Ok(Ipv4(v)),
            Err(e) => Err(IpError::ParseIpv4Error(e)),
        }
    }
}

/// Four bytes in decimal without leading zeros, joined by dots.
pub open spec fn quad_of(a: u8, b: u8, c: u8, d: u8) -> Seq<char> {
    decimal(a as nat) + seq!['.'] + decimal(b as nat) + seq!['.'] + decimal(c as nat) + seq!['.']
        + decimal(d as nat)
}

/// Whether `s` is a valid dotted quad in its canonical form.
pub open spec fn is_dotted_quad(s: Seq<char>) -> bool {
    exists|a: u8, b: u8, c: u8, d: u8| s == quad_of(a, b, c, d)
}

/// An IPv4 address: four octets in one 32-bit value, the first octet most significant.
#[derive(Clone, Copy, Debug, PartialEq, Eq, Structural)]
pub struct Ipv4(pub u32);

/// An address OR its complement is the all-ones address.
pub proof fn lemma_or_complement_is_all_ones(a: Ipv4)
    ensures
        a.0 | !a.0 == u32::MAX,
{
    let v = a.0;
    assert(v | !v == 0xffff_ffffu32) by (bit_vector);
}

proof fn lemma_no_dots(n: nat)
    ensures
        forall|i: int| 0 <= i < decimal(n).len() ==> #[trigger] decimal(n)[i] != '.',
{
    lemma_decimal_digits(n);
}

/// The value whose octets are `a`, `b`, `c` and `d`, most significant first.
pub open spec fn assemble(a: u8, b: u8, c: u8, d: u8) -> u32 {
    (((0u32 | ((a as u32) << 24u32)) | ((b as u32) << 16u32)) | ((c as u32) << 8u32)) | ((
    d as u32) << 0u32)
}

proof fn lemma_parse_quad_of(a: u8, b: u8, c: u8, d: u8)
    ensures
        parse_ipv4_spec(quad_of(a, b, c, d)) == Ok::<Ipv4, IpError>(Ipv4(assemble(a, b, c, d))),
        octet(assemble(a, b, c, d), 3) == a as nat,
        octet(assemble(a, b, c, d), 2) == b as nat,
        octet(assemble(a, b, c, d), 1) == c as nat,
        octet(assemble(a, b, c, d), 0) == d as nat,
{
    let s = quad_of(a, b, c, d);
    let da = decimal(a as nat);
    let db = decimal(b as nat);
    let dc = decimal(c as nat);
    let dd = decimal(d as nat);
    lemma_no_dots(a as nat);
    lemma_no_dots(b as nat);
    lemma_no_dots(c as nat);
    lemma_no_dots(d as nat);
    lemma_scan_decimal(a as nat);
    lemma_scan_decimal(b as nat);
    lemma_scan_decimal(c as nat);
    lemma_scan_decimal(d as nat);
    let x1 = da + seq!['.'] + db;
    let x2 = x1 + seq!['.'] + dc;
    lemma_split_single(da, '.');
    lemma_split_append(da, db, '.');
    lemma_split_append(x1, dc, '.');
    lemma_split_append(x2, dd, '.');
    let parts = quad_parts(s);
    assert(parts =~= seq![da, db, dc, dd]);
    let (a32, b32, c32, d32) = (a as u32, b as u32, c as u32, d as u32);
    let v = assemble(a, b, c, d);
    let p1 = seq![da];
    let p2 = seq![da, db];
    let p3 = seq![da, db, dc];
    assert(p1.drop_last() =~= Seq::<Seq<char>>::empty());
    assert(p2.drop_last() =~= p1);
    assert(p3.drop_last() =~= p2);
    assert(parts.drop_last() =~= p3);
    assert(fold_octets(Seq::<Seq<char>>::empty()) == Ok::<u32, OctetError>(0u32));
    assert(p1.last() == da && p2.last() == db && p3.last() == dc && parts.last() == dd);
    assert(fold_octets(p1) == Ok::<u32, OctetError>(0u32 | (a32 << 24u32)));
    assert(fold_octets(p2) == Ok::<u32, OctetError>((0u32 | (a32 << 24u32)) | (b32 << 16u32)));
    assert(fold_octets(p3) == Ok::<u32, OctetError>(
        ((0u32 | (a32 << 24u32)) | (b32 << 16u32)) | (c32 << 8u32),
    ));
    assert(fold_octets(parts) == Ok::<u32, OctetError>(v));
    assert((v >> 24u32) & 0xff == a32 && (v >> 16u32) & 0xff == b32 && (v >> 8u32) & 0xff == c32
        && (v >> 0u32) & 0xff == d32) by (bit_vector)
        requires
            a32 < 256 && b32 < 256 && c32 < 256 && d32 < 256,
            v == (((0u32 | (a32 << 24u32)) | (b32 << 16u32)) | (c32 << 8u32)) | (d32 << 0u32),
    ;
}

/// Parsing a valid dotted quad succeeds, and formatting the address gives back the text.
pub proof fn lemma_parse_format_round_trip(s: Seq<char>)
    requires
        is_dotted_quad(s),
    ensures
        parse_ipv4_spec(s) matches Ok(ip) && quad_text(ip.0) == s,
{
    let (a, b, c, d) = choose|a: u8, b: u8, c: u8, d: u8| s == quad_of(a, b, c, d);
    lemma_parse_quad_of(a, b, c, d);
    assert(quad_text(assemble(a, b, c, d)) =~= s);
}

/// Every address formats as a valid dotted quad, and parsing that text gives the address back.
pub proof fn lemma_format_parse_round_trip(v: u32)
    ensures
        is_dotted_quad(quad_text(v)),
        parse_ipv4_spec(quad_text(v)) == Ok::<Ipv4, IpError>(Ipv4(v)),
{
    lemma_octet_bounds(v);
    let (a, b, c, d) = (octet(v, 3) as u8, octet(v, 2) as u8, octet(v, 1) as u8, octet(v, 0) as u8);
    let (a32, b32, c32, d32) = (a as u32, b as u32, c as u32, d as u32);
    assert(v == (((0u32 | (a32 << 24u32)) | (b32 << 16u32)) | (c32 << 8u32)) | (d32 << 0u32))
        by (bit_vector)
        requires
            a32 == (v >> 24u32) & 0xff,
            b32 == (v >> 16u32) & 0xff,
            c32 == (v >> 8u32) & 0xff,
            d32 == (v >> 0u32) & 0xff,
    ;
    assert(quad_text(v) =~= quad_of(a, b, c, d));
    lemma_parse_quad_of(a, b, c, d);
}

proof fn lemma_octet_bounds(v: u32)
    ensures
        octet(v, 3) <= 255,
        octet(v, 2) <= 255,
        octet(v, 1) <= 255,
        octet(v, 0) <= 255,
{
    assert((v >> 24) & 0xff <= 0xff) by (bit_vector);
    assert((v >> 16) & 0xff <= 0xff) by (bit_vector);
    assert((v >> 8) & 0xff <= 0xff) by (bit_vector);
    assert((v >> 0) & 0xff <= 0xff) by (bit_vector);
}

proof fn lemma_fold_err_extends(parts: Seq<Seq<char>>, k: int)
    requires
        0 <= k <= parts.len(),
        fold_octets(parts.subrange(0, k)) is Err,
    ensures
        fold_octets(parts) == fold_octets(parts.subrange(0, k)),
    decreases parts.len() - k,
{
    if k < parts.len() {
        assert(parts.subrange(0, k + 1).drop_last() =~= parts.subrange(0, k));
        assert(parts.subrange(0, k + 1).subrange(0, k) =~= parts.subrange(0, k));
        lemma_fold_err_extends(parts, k + 1);
    } else {
        assert(parts.subrange(0, k) =~= parts);
    }
}

/// Folds already split octet pieces into one value.
fn fold_pieces(pieces: &Vec<&str>) -> (r: Result<u32, OctetError>)
    requires
        pieces@.len() <= 4,
    ensures
        r == fold_octets(pieces@.map_values(|p: &str| p@)),
{
    let ghost parts = pieces@.map_values(|p: &str| p@);
    let mut v: u32 = 0;
    let mut i: usize = 0;
    assert(parts.subrange(0, 0) =~= Seq::<Seq<char>>::empty());
    while i < pieces.len()
        invariant
            pieces@.len() <= 4,
            parts == pieces@.map_values(|p: &str| p@),
            i <= pieces@.len(),
            fold_octets(parts.subrange(0, i as int)) == Ok::<u32, OctetError>(v),
        decreases pieces@.len() - i,
    {
        let ghost prefix = parts.subrange(0, i as int + 1);
        assert(prefix.drop_last() =~= parts.subrange(0, i as int));
        assert(prefix.last() == pieces@[i as int]@);
        match parse_u8(pieces[i]) {
            Err(e) => {
                proof {
                    lemma_fold_err_extends(parts, i as int + 1);
                }
                return Err(e);
            },
            Ok(b) => {
                v = v | ((b as u32) << (8 * (3 - i as u32)));
            },
        }
        i = i + 1;
    }
    assert(parts.subrange(0, i as int) =~= parts);
    Ok(v)
}

/// Reads a dotted-quad text into a value, without checking how many octets it holds.
pub fn make_mask_from_string(address: &str) -> (r: Result<u32, OctetError>)
    requires
        quad_parts(address@).len() <= 4,
    ensures
        r == fold_octets(quad_parts(address@)),
{
    let pieces = split_str(address, '.');
    fold_pieces(&pieces)
}

/// Whether `address` is a dotted quad of four unsigned bytes.
pub fn is_valid(address: &str) -> (r: bool)
    ensures
        r == (parse_ipv4_spec(address@) is Ok),
{
    let pieces = split_str(address, '.');
    pieces.len() == 4 && fold_pieces(&pieces).is_ok()
}

/// Renders `mask` as a dotted quad.
pub fn make_ip_from_mask(mask: u32) -> (r: String)
    ensures
        r@ == quad_text(mask),
{
    let oct1 = ((mask & 0xff000000) >> 24) as u8;
    let oct2 = ((mask & 0xff0000) >> 16) as u8;
    let oct3 = ((mask & 0xff00) >> 8) as u8;
    let oct4 = (mask & 0xff) as u8;
    assert(oct1 as nat == octet(mask, 3) && oct2 as nat == octet(mask, 2) && oct3 as nat == octet(
        mask,
        1,
    ) && oct4 as nat == octet(mask, 0)) by {
        assert(((mask & 0xff000000) >> 24) == (mask >> 24) & 0xff) by (bit_vector);
        assert(((mask & 0xff0000) >> 16) == (mask >> 16) & 0xff) by (bit_vector);
        assert(((mask & 0xff00) >> 8) == (mask >> 8) & 0xff) by (bit_vector);
        assert((mask >> 0) & 0xff == mask & 0xff) by (bit_vector);
        lemma_octet_bounds(mask);
    }
    let mut out = String::new();
    proof {
        reveal_strlit(".");
    }
    push_decimal(&mut out, oct1);
    out.append(".");
    push_decimal(&mut out, oct2);
    out.append(".");
    push_decimal(&mut out, oct3);
    out.append(".");
    push_decimal(&mut out, oct4);
    assert(out@ =~= quad_text(mask));
    out
}

impl Ipv4 {
    /// The four octets, most significant first.
    fn octets(&self) -> (r: [u8; 4])
        ensures
            r@ == seq![
                octet(self.0, 3) as u8,
                octet(self.0, 2) as u8,
                octet(self.0, 1) as u8,
                octet(self.0, 0) as u8,
            ],
    {
        let v = self.0;
        let o0 = ((v & 0xff000000) >> 24) as u8;
        let o1 = ((v & 0xff0000) >> 16) as u8;
        let o2 = ((v & 0xff00) >> 8) as u8;
        let o3 = (v & 0xff) as u8;
        assert(((v & 0xff000000) >> 24) == (v >> 24) & 0xff) by (bit_vector);
        assert(((v & 0xff0000) >> 16) == (v >> 16) & 0xff) by (bit_vector);
        assert(((v & 0xff00) >> 8) == (v >> 8) & 0xff) by (bit_vector);
        assert((v >> 0) & 0xff == v & 0xff) by (bit_vector);
        let r = [o0, o1, o2, o3];
        assert(r@ =~= seq![
            octet(self.0, 3) as u8,
            octet(self.0, 2) as u8,
            octet(self.0, 1) as u8,
            octet(self.0, 0) as u8,
        ]);
        r
    }

    /// Parses a dotted quad: exactly four pieces, each an unsigned byte.
    pub fn parse(s: &str) -> (r: Result<Ipv4, IpError>)
        ensures
            r == parse_ipv4_spec(s@),
    {
        let pieces = split_str(s, '.');
        if pieces.len() != 4 {
            return Err(IpError::InvalidOctetCountError);
        }
        match fold_pieces(&pieces) {
            Ok(v) => Ok(Ipv4(v)),
            Err(e) => Err(IpError::ParseIpv4Error(e)),
        }
    }

    /// The dotted-quad text of this address.
    pub fn to_string(&self) -> (r: String)
        ensures
            r@ == quad_text(self.0),
    {
        let o = self.octets();
        let mut out = String::new();
        proof {
            reveal_strlit(".");
        }
        push_decimal(&mut out, o[0]);
        out.append(".");
        push_decimal(&mut out, o[1]);
        out.append(".");
        push_decimal(&mut out, o[2]);
        out.append(".");
        push_decimal(&mut out, o[3]);
        proof {
            lemma_octet_bounds(self.0);
        }
        assert(out@ =~= quad_text(self.0));
        out
    }

    /// The bitwise complement.
    pub fn not(self) -> (r: Ipv4)
        ensures
            r.0 == !self.0,
    {
        Ipv4(!self.0)
    }

    /// The bitwise AND of two addresses.
    pub fn bitand(self, rhs: Ipv4) -> (r: Ipv4)
        ensures
            r.0 == self.0 & rhs.0,
    {
        Ipv4(self.0 & rhs.0)
    }

    /// The bitwise OR of two addresses.
    pub fn bitor(self, rhs: Ipv4) -> (r: Ipv4)
        ensures
            r.0 == self.0 | rhs.0,
    {
        Ipv4(self.0 | rhs.0)
    }

    /// The sum of two addresses as integers.
    pub fn add_ip(self, rhs: Ipv4) -> (r: Ipv4)
        requires
            self.0 + rhs.0 <= u32::MAX,
        ensures
            r.0 == self.0 + rhs.0,
    {
        Ipv4(self.0 + rhs.0)
    }

    /// The difference of two addresses as integers.
    pub fn sub_ip(self, rhs: Ipv4) -> (r: Ipv4)
        requires
            rhs.0 <= self.0,
        ensures
            r.0 == self.0 - rhs.0,
    {
        Ipv4(self.0 - rhs.0)
    }

    /// The address `n` places after this one.
    pub fn add_u32(self, n: u32) -> (r: Ipv4)
        requires
            self.0 + n <= u32::MAX,
        ensures
            r.0 == self.0 + n,
    {
        Ipv4(self.0 + n)
    }

    /// The address `n` places before this one.
    pub fn sub_u32(self, n: u32) -> (r: Ipv4)
        requires
            n <= self.0,
        ensures
            r.0 == self.0 - n,
    {
        Ipv4(self.0 - n)
    }
}

impl From<u32> for Ipv4 {
    fn from(val: u32) -> (r: Ipv4)
        ensures
            r == Ipv4(val),
    {
        Ipv4(val)
    }
}

impl vstd::std_specs::convert::FromSpecImpl<u32> for Ipv4 {
    open spec fn obeys_from_spec() -> bool {
        true
    }

    open spec fn from_spec(val: u32) -> Ipv4 {
        Ipv4(val)
    }
}

impl core::str::FromStr for Ipv4 {
    type Err = IpError;

    fn from_str(s: &str) -> Result<Ipv4, IpError> {
        Ipv4::parse(s)
    }
}

} // verus!
