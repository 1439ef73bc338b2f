//! IPv4 addresses as 32-bit integers, and CIDR address ranges.

use vstd::arithmetic::power2::{lemma_pow2_unfold, pow2};
use vstd::prelude::*;

use crate::text::{
    all_digits, chars_of, decimal, digits_value, is_digit, lemma_decimal_reads_back,
    lemma_split_on_append, lemma_split_on_without_sep, parse_unsigned, parse_unsigned_chars,
    push_char, push_decimal, split_chars, split_on, starts_with, starts_with_exec, unsigned_digits,
};

verus! {

/// The 32-bit value of four octets, most significant first.
pub open spec fn octets_value(a: nat, b: nat, c: nat, d: nat) -> nat {
    a * 16777216 + b * 65536 + c * 256 + d
}

/// A dotted-quad address: exactly four fields separated by `.`, each a
/// decimal number of at most 255.
pub open spec fn ipv4_of(s: Seq<char>) -> Option<u32> {
    let f = split_on(s, '.');
    if f.len() == 4 && parse_unsigned(f[0], 255) is Some && parse_unsigned(f[1], 255) is Some
        && parse_unsigned(f[2], 255) is Some && parse_unsigned(f[3], 255) is Some {
        Some(
            octets_value(
                parse_unsigned(f[0], 255)->0,
                parse_unsigned(f[1], 255)->0,
                parse_unsigned(f[2], 255)->0,
                parse_unsigned(f[3], 255)->0,
            ) as u32,
        )
    } else {
        None
    }
}

/// The dotted-quad form of `ip`.
pub open spec fn ipv4_text(ip: u32) -> Seq<char> {
    decimal((ip / 16777216) as nat) + seq!['.'] + decimal(((ip / 65536) % 256) as nat) + seq!['.']
        + decimal(((ip / 256) % 256) as nat) + seq!['.'] + decimal((ip % 256) as nat)
}

/// Reads a dotted-quad IPv4 address.
pub fn parse_ipv4(ip: &str) -> (r: Option<u32>)
    ensures
        r == ipv4_of(ip@),
{
    let cs = chars_of(ip);
    parse_ipv4_chars(&cs)
}

pub(crate) fn parse_ipv4_chars(cs: &[char]) -> (r: Option<u32>)
    ensures
        r == ipv4_of(cs@),
{
    let fields = split_chars(cs, '.');
    if fields.len() != 4 {
        return None;
    }
    let a = match parse_unsigned_chars(fields[0].as_slice(), 255) {
        Some(v) => v as u32,
        None => return None,
    };
    let b = match parse_unsigned_chars(fields[1].as_slice(), 255) {
        Some(v) => v as u32,
        None => return None,
    };
    let c = match parse_unsigned_chars(fields[2].as_slice(), 255) {
        Some(v) => v as u32,
        None => return None,
    };
    let d = match parse_unsigned_chars(fields[3].as_slice(), 255) {
        Some(v) => v as u32,
        None => return None,
    };
    assert(a as u64 * 16777216 + b as u64 * 65536 + c as u64 * 256 + d as u64 <= 0xffff_ffff)
        by (nonlinear_arith)
        requires
            a <= 255,
            b <= 255,
            c <= 255,
            d <= 255,
    ;
    let v: u64 = a as u64 * 16777216 + b as u64 * 65536 + c as u64 * 256 + d as u64;
    Some(v as u32)
}

/// Writes `ip` in dotted-quad form.
pub fn ip_to_string(ip: u32) -> (r: String)
    ensures
        r@ == ipv4_text(ip),
{
    let mut out = String::new();
    push_decimal(&mut out, (ip / 16777216) as u64);
    push_char(&mut out, '.');
    push_decimal(&mut out, ((ip / 65536) % 256) as u64);
    push_char(&mut out, '.');
    push_decimal(&mut out, ((ip / 256) % 256) as u64);
    push_char(&mut out, '.');
    push_decimal(&mut out, (ip % 256) as u64);
    assert(out@ =~= ipv4_text(ip));
    out
}

/// Whether `ip` parses as an address within `start..=end`.
pub fn ip_in_range(ip: &str, start: u32, end: u32) -> (r: bool)
    ensures
        r == match ipv4_of(ip@) {
            Some(v) => start <= v <= end,
            None => false,
        },
{
    match parse_ipv4(ip) {
        Some(v) => start <= v && v <= end,
        None => false,
    }
}

/// Multicast (`224.`, `239.`) and limited-broadcast addresses, which are
/// never probed.
pub open spec fn is_special(s: Seq<char>) -> bool {
    starts_with(s, seq!['2', '2', '4', '.']) || starts_with(s, seq!['2', '3', '9', '.'])
        || s == seq!['2', '5', '5', '.', '2', '5', '5', '.', '2', '5', '5', '.', '2', '5', '5']
}

/// Whether `ip` is a multicast or limited-broadcast address.
pub fn is_special_ip(ip: &str) -> (r: bool)
    ensures
        r == is_special(ip@),
{
    let cs = chars_of(ip);
    let broadcast = ['2', '5', '5', '.', '2', '5', '5', '.', '2', '5', '5', '.', '2', '5', '5'];
    let r = starts_with_exec(&cs, &['2', '2', '4', '.']) || starts_with_exec(&cs, &['2', '3', '9', '.'])
        || (starts_with_exec(&cs, &broadcast) && cs.len() == 15);
    proof {
        let b = seq!['2', '5', '5', '.', '2', '5', '5', '.', '2', '5', '5', '.', '2', '5', '5'];
        assert(broadcast@ =~= b);
        if cs@.len() == 15 {
            assert(cs@.subrange(0, 15) =~= cs@);
        }
    }
    r
}

/// Why a CIDR string was refused.
#[derive(Debug, Clone, Copy, PartialEq, Eq, Structural)]
pub enum CidrError {
    /// Not exactly one `/`.
    InvalidFormat,
    /// The address part is not a dotted quad.
    InvalidAddress,
    /// The prefix length is not a number, or is over 30.
    InvalidPrefix,
}

impl CidrError {
    /// A message for the user.
    pub fn message(&self) -> (r: String)
        ensures
            r@.len() > 0,
    {
        let s = match self {
            CidrError::InvalidFormat => String::from_str("Invalid CIDR format."),
            CidrError::InvalidAddress => String::from_str("Invalid IP address."),
            CidrError::InvalidPrefix => String::from_str("CIDR must be a number of 30 or less."),
        };
        proof {
            reveal_strlit("Invalid CIDR format.");
            reveal_strlit("Invalid IP address.");
            reveal_strlit("CIDR must be a number of 30 or less.");
        }
        s
    }
}

/// The largest prefix length accepted: a `/31` or `/32` has no usable host range.
pub const MAX_PREFIX_LEN: u32 = 30;

/// A block of IPv4 addresses: `base` with its low `32 - prefix_len` bits clear.
#[derive(Debug, Clone, Copy, PartialEq, Eq, Structural)]
pub struct AddressRange {
    pub base: u32,
    pub prefix_len: u32,
}

/// The number of addresses under a prefix of `prefix_len` bits.
pub open spec fn block_size(prefix_len: nat) -> nat {
    pow2((32 - prefix_len) as nat)
}

/// `ip` with its low `32 - prefix_len` bits cleared.
pub open spec fn masked(ip: u32, prefix_len: nat) -> nat {
    (ip as nat / block_size(prefix_len)) * block_size(prefix_len)
}

impl AddressRange {
    pub open spec fn wf(&self) -> bool {
        &&& self.prefix_len <= 30
        &&& self.base as nat % block_size(self.prefix_len as nat) == 0
    }

    /// The number of addresses in the range.
    pub open spec fn size(&self) -> nat {
        block_size(self.prefix_len as nat)
    }

    /// The number of addresses in the range.
    pub fn host_count(&self) -> (r: u64)
        requires
            self.wf(),
        ensures
            r == self.size(),
    {
        block_size_exec(self.prefix_len)
    }

    /// The last address of the range.
    pub fn last(&self) -> (r: u32)
        requires
            self.wf(),
        ensures
            r == self.base + self.size() - 1,
    {
        let n = self.host_count();
        proof {
            lemma_aligned_block_fits(self.base, self.prefix_len as nat);
            vstd::arithmetic::power2::lemma_pow2_pos((32 - self.prefix_len) as nat);
        }
        (self.base as u64 + n - 1) as u32
    }
}

/// `2^(32 - prefix_len)`.
pub fn block_size_exec(prefix_len: u32) -> (r: u64)
    requires
        prefix_len <= 32,
    ensures
        r == block_size(prefix_len as nat),
        1 <= r <= 0x1_0000_0000,
{
    let k = 32 - prefix_len;
    let mut r: u64 = 1;
    let mut i: u32 = 0;
    assert(pow2(0) == 1) by {
        vstd::arithmetic::power2::lemma2_to64();
    }
    proof {
        vstd::arithmetic::power2::lemma2_to64();
    }
    while i < k
        invariant
            i <= k <= 32,
            r == pow2(i as nat),
            1 <= r <= pow2(32),
        decreases k - i,
    {
        proof {
            lemma_pow2_unfold((i + 1) as nat);
            lemma_pow2_mono((i + 1) as nat, 32);
            vstd::arithmetic::power2::lemma2_to64();
        }
        r = r * 2;
        i = i + 1;
    }
    proof {
        vstd::arithmetic::power2::lemma2_to64();
    }
    r
}

pub(crate) proof fn lemma_pow2_mono(a: nat, b: nat)
    requires
        a <= b,
    ensures
        pow2(a) <= pow2(b),
    decreases b - a,
{
    if a < b {
        vstd::arithmetic::power2::lemma_pow2_strictly_increases(a, b);
    }
}

proof fn lemma_aligned_block_fits(base: u32, prefix_len: nat)
    requires
        prefix_len <= 32,
        base as nat % block_size(prefix_len) == 0,
    ensures
        base as nat + block_size(prefix_len) <= 0x1_0000_0000,
{
    let n = block_size(prefix_len);
    lemma_pow2_mono((32 - prefix_len) as nat, 32);
    vstd::arithmetic::power2::lemma2_to64();
    assert(n > 0) by {
        vstd::arithmetic::power2::lemma_pow2_pos((32 - prefix_len) as nat);
    }
    let k = pow2(prefix_len);
    assert(pow2(32) == n * k) by {
        vstd::arithmetic::power2::lemma_pow2_adds((32 - prefix_len) as nat, prefix_len);
    }
    let q = base as nat / n;
    assert(base as nat == q * n) by {
        vstd::arithmetic::div_mod::lemma_fundamental_div_mod(base as int, n as int);
    }
    assert(q < k) by (nonlinear_arith)
        requires
            q * n < n * k,
            n > 0,
    ;
    assert((q + 1) * n <= n * k) by (nonlinear_arith)
        requires
            q + 1 <= k,
            n > 0,
    ;
    assert((q + 1) * n == q * n + n) by (nonlinear_arith);
}

/// What a CIDR string `a.b.c.d/p` denotes: exactly one `/`, a dotted-quad
/// address, and a prefix length of at most 30. The base is the address with
/// its host bits cleared.
pub open spec fn cidr_of(s: Seq<char>) -> Result<AddressRange, CidrError> {
    let parts = split_on(s, '/');
    if parts.len() != 2 {
        Err(CidrError::InvalidFormat)
    } else if ipv4_of(parts[0]) is None {
        Err(CidrError::InvalidAddress)
    } else {
        match parse_unsigned(parts[1], 0xffff_ffff) {
            None => Err(CidrError::InvalidPrefix),
            Some(p) => if p > 30 {
                Err(CidrError::InvalidPrefix)
            } else {
                Ok(AddressRange { base: masked(ipv4_of(parts[0])->0, p) as u32, prefix_len: p as u32 })
            },
        }
    }
}

proof fn lemma_masked_aligned(ip: u32, prefix_len: nat)
    requires
        prefix_len <= 32,
    ensures
        masked(ip, prefix_len) <= ip,
        masked(ip, prefix_len) % block_size(prefix_len) == 0,
        masked(ip, prefix_len) == ip as nat - ip as nat % block_size(prefix_len),
{
    let n = block_size(prefix_len);
    vstd::arithmetic::power2::lemma_pow2_pos((32 - prefix_len) as nat);
    vstd::arithmetic::div_mod::lemma_fundamental_div_mod(ip as int, n as int);
    vstd::arithmetic::div_mod::lemma_mod_multiples_basic((ip as nat / n) as int, n as int);
    assert(ip as int % n as int >= 0) by {
        vstd::arithmetic::div_mod::lemma_mod_pos_bound(ip as int, n as int);
    }
}

/// Reads a CIDR string such as `192.168.1.0/24`.
pub fn parse_cidr(subnet: &str) -> (r: Result<AddressRange, CidrError>)
    ensures
        r == cidr_of(subnet@),
        r is Ok ==> r->Ok_0.wf(),
{
    let cs = chars_of(subnet);
    let parts = split_chars(&cs, '/');
    if parts.len() != 2 {
        return Err(CidrError::InvalidFormat);
    }
    let ip = match parse_ipv4_chars(parts[0].as_slice()) {
        Some(v) => v,
        None => return Err(CidrError::InvalidAddress),
    };
    let prefix = match parse_unsigned_chars(parts[1].as_slice(), 0xffff_ffff) {
        Some(p) => p as u32,
        None => return Err(CidrError::InvalidPrefix),
    };
    if prefix > MAX_PREFIX_LEN {
        return Err(CidrError::InvalidPrefix);
    }
    let n = block_size_exec(prefix);
    proof {
        lemma_masked_aligned(ip, prefix as nat);
    }
    let base = (ip as u64 - ip as u64 % n) as u32;
    Ok(AddressRange { base, prefix_len: prefix })
}

/// A range read from a CIDR string holds exactly `2^(32 - p)` addresses and
/// starts on a multiple of that size; a prefix over 30, or text that is not
/// `a.b.c.d/p`, is refused.
pub proof fn lemma_cidr_block(s: Seq<char>)
    ensures
        cidr_of(s) is Ok ==> {
            let r = cidr_of(s)->Ok_0;
            &&& r.wf()
            &&& r.size() == pow2((32 - r.prefix_len) as nat)
            &&& r.base as nat % pow2((32 - r.prefix_len) as nat) == 0
        },
        split_on(s, '/').len() != 2 ==> cidr_of(s) == Err::<AddressRange, CidrError>(
            CidrError::InvalidFormat,
        ),
        split_on(s, '/').len() == 2 && ipv4_of(split_on(s, '/')[0]) is None ==> cidr_of(s) is Err,
        split_on(s, '/').len() == 2 && match parse_unsigned(split_on(s, '/')[1], 0xffff_ffff) {
            Some(p) => p > 30,
            None => true,
        } ==> cidr_of(s) is Err,
{
    let parts = split_on(s, '/');
    if parts.len() == 2 && ipv4_of(parts[0]) is Some {
        if let Some(p) = parse_unsigned(parts[1], 0xffff_ffff) {
            if p <= 30 {
                lemma_masked_aligned(ipv4_of(parts[0])->0, p);
            }
        }
    }
}

proof fn lemma_octet_text(n: nat)
    requires
        n <= 255,
    ensures
        parse_unsigned(decimal(n), 255) == Some(n),
        forall|i: int| 0 <= i < decimal(n).len() ==> decimal(n)[i] != '.',
{
    lemma_decimal_reads_back(n);
    let d = decimal(n);
    assert(is_digit(d[0]));
    assert(unsigned_digits(d) == d);
    assert forall|i: int| 0 <= i < d.len() implies d[i] != '.' by {
        assert(is_digit(d[i]));
    }
}

/// Writing an address in dotted-quad form and reading it back gives the
/// same address.
pub proof fn lemma_ipv4_round_trip(ip: u32)
    ensures
        ipv4_of(ipv4_text(ip)) == Some(ip),
{
    let a = (ip / 16777216) as nat;
    let b = ((ip / 65536) % 256) as nat;
    let c = ((ip / 256) % 256) as nat;
    let d = (ip % 256) as nat;
    assert(ip / 16777216 <= 255) by (bit_vector);
    lemma_octet_text(a);
    lemma_octet_text(b);
    lemma_octet_text(c);
    lemma_octet_text(d);
    let (da, db, dc, dd) = (decimal(a), decimal(b), decimal(c), decimal(d));
    lemma_split_on_without_sep(da, '.');
    lemma_split_on_append(da, db, '.');
    lemma_split_on_append(da + seq!['.'] + db, dc, '.');
    lemma_split_on_append(da + seq!['.'] + db + seq!['.'] + dc, dd, '.');
    let f = split_on(ipv4_text(ip), '.');
    assert(ipv4_text(ip) =~= da + seq!['.'] + db + seq!['.'] + dc + seq!['.'] + dd);
    assert(f =~= seq![da, db, dc, dd]);
    assert((ip / 16777216) * 16777216 + ((ip / 65536) % 256) * 65536 + ((ip / 256) % 256) * 256 + ip % 256 == ip)
        by (bit_vector);
}

} // verus!
