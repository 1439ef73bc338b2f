//! Link-layer frame dissection: Ethernet, then IPv4, IPv6 or ARP, into a
//! short human-readable summary.

use vstd::prelude::*;

use crate::text::{
    decimal, hex, hex4, owned, push_char, push_decimal, push_hex, push_hex4, push_str,
};

verus! {

/// A lossy, human-oriented projection of one captured frame.
#[derive(Debug, Clone)]
pub struct FrameSummary {
    pub time: String,
    pub src: String,
    pub dest: String,
    pub protocol: String,
    pub length: usize,
    pub info: String,
}

/// Four bytes as a dotted-quad address.
pub open spec fn dotted(b: Seq<u8>) -> Seq<char> {
    decimal(b[0] as nat) + seq!['.'] + decimal(b[1] as nat) + seq!['.'] + decimal(b[2] as nat)
        + seq!['.'] + decimal(b[3] as nat)
}

/// The big-endian 16-bit value at `i`.
pub open spec fn be16(d: Seq<u8>, i: int) -> nat {
    d[i] as nat * 256 + d[i + 1] as nat
}

/// The eight 16-bit groups of a 16-byte IPv6 address.
pub open spec fn groups(b: Seq<u8>) -> Seq<nat> {
    Seq::new(8, |i: int| be16(b, 2 * i))
}

/// Groups in hexadecimal, separated by `:`.
pub open spec fn hex_groups(g: Seq<nat>) -> Seq<char>
    decreases g.len(),
{
    if g.len() == 0 {
        Seq::empty()
    } else if g.len() == 1 {
        hex(g[0])
    } else {
        hex_groups(g.drop_last()) + seq![':'] + hex(g.last())
    }
}

/// A scan of the groups `g[0..i]` for runs of zero groups:
/// `(start of the current run, its length, start of the first longest run, its length)`.
pub open spec fn zero_runs(g: Seq<nat>, i: nat) -> (nat, nat, nat, nat)
    decreases i,
{
    if i == 0 {
        (0, 0, 0, 0)
    } else {
        let (cs, cl, bs, bl) = zero_runs(g, (i - 1) as nat);
        if g[i - 1] == 0 {
            let ns: nat = if cl == 0 {
                (i - 1) as nat
            } else {
                cs
            };
            if cl + 1 > bl {
                (ns, cl + 1, ns, cl + 1)
            } else {
                (ns, cl + 1, bs, bl)
            }
        } else {
            (0, 0, bs, bl)
        }
    }
}

/// The groups `g[s..s + l]` exist and are all zero.
pub open spec fn zero_span(g: Seq<nat>, s: int, l: int) -> bool {
    0 <= s && 0 <= l && s + l <= g.len() && forall|k: int| s <= k < s + l ==> #[trigger] g[k] == 0
}

/// After `i` groups the scan holds the run of zeros that ends at `i` and
/// the first of the longest runs of zeros seen so far.
pub proof fn lemma_zero_runs(g: Seq<nat>, i: nat)
    requires
        i <= g.len(),
    ensures
        ({
            let (cs, cl, bs, bl) = zero_runs(g, i);
            &&& zero_span(g, cs as int, cl as int) && cs + cl == i || cl == 0
            &&& forall|s: int, l: int| zero_span(g, s, l) && s + l == i ==> l <= cl
            &&& zero_span(g, bs as int, bl as int) && bs + bl <= i
            &&& forall|s: int, l: int| zero_span(g, s, l) && s + l <= i ==> l <= bl
            &&& forall|s: int| zero_span(g, s, bl as int) && s + bl <= i && bl > 0 ==> bs <= s
        }),
    decreases i,
{
    if i > 0 {
        lemma_zero_runs(g, (i - 1) as nat);
        let (cs, cl, bs, bl) = zero_runs(g, (i - 1) as nat);
        let (ncs, ncl, nbs, nbl) = zero_runs(g, i);
        if g[i - 1] == 0 {
            assert forall|s: int, l: int| zero_span(g, s, l) && s + l == i implies l <= ncl by {
                if l > 0 {
                    assert(zero_span(g, s, l - 1));
                }
            }
            assert(zero_span(g, ncs as int, ncl as int)) by {
                assert forall|k: int| ncs <= k < ncs + ncl implies #[trigger] g[k] == 0 by {
                    if k < i - 1 {
                        assert(cl > 0);
                    }
                }
            }
            assert forall|s: int, l: int| zero_span(g, s, l) && s + l <= i implies l <= nbl by {
                if s + l == i {
                    if l > 0 {
                        assert(zero_span(g, s, l - 1));
                    }
                }
            }
            assert forall|s: int| zero_span(g, s, nbl as int) && s + nbl <= i && nbl > 0 implies nbs <= s by {
                if s + nbl == i {
                    if nbl > 0 {
                        assert(zero_span(g, s, nbl - 1));
                    }
                }
            }
        } else {
            assert forall|s: int, l: int| zero_span(g, s, l) && s + l == i implies l <= ncl by {
                if l > 0 {
                    assert(g[i - 1] == 0);
                }
            }
            assert forall|s: int, l: int| zero_span(g, s, l) && s + l <= i implies l <= nbl by {
                if s + l == i && l > 0 {
                    assert(g[i - 1] == 0);
                }
            }
            assert forall|s: int| zero_span(g, s, nbl as int) && s + nbl <= i && nbl > 0 implies nbs <= s by {
                if s + nbl == i {
                    assert(g[i - 1] == 0);
                }
            }
        }
    }
}

/// An IPv4 address carried in IPv6 as `::ffff:a.b.c.d`.
pub open spec fn is_v4_mapped(g: Seq<nat>) -> bool {
    g[0] == 0 && g[1] == 0 && g[2] == 0 && g[3] == 0 && g[4] == 0 && g[5] == 0xffff
}

/// The text form of a 16-byte IPv6 address: an IPv4-mapped address ends in
/// its dotted quad; otherwise the first longest run of two or more zero
/// groups is written `::`, and every group is lower-case hexadecimal
/// without leading zeros.
pub open spec fn ipv6_text(b: Seq<u8>) -> Seq<char> {
    let g = groups(b);
    if is_v4_mapped(g) {
        seq![':', ':', 'f', 'f', 'f', 'f', ':'] + dotted(b.subrange(12, 16))
    } else {
        let (_, _, s, l) = zero_runs(g, 8);
        if l > 1 {
            hex_groups(g.subrange(0, s as int)) + seq![':', ':'] + hex_groups(g.subrange((s + l) as int, 8))
        } else {
            hex_groups(g)
        }
    }
}

/// Four bytes at `lo` as a dotted quad, or `unknown` when the frame ends first.
pub open spec fn ipv4_at(d: Seq<u8>, lo: int) -> Seq<char> {
    if d.len() >= lo + 4 {
        dotted(d.subrange(lo, lo + 4))
    } else {
        "unknown"@
    }
}

/// Sixteen bytes at `lo` as an IPv6 address, or `unknown` when the frame ends first.
pub open spec fn ipv6_at(d: Seq<u8>, lo: int) -> Seq<char> {
    if d.len() >= lo + 16 {
        ipv6_text(d.subrange(lo, lo + 16))
    } else {
        "unknown"@
    }
}

/// The byte at `i`, or 0 past the end.
pub open spec fn byte_or_zero(d: Seq<u8>, i: int) -> u8 {
    if i < d.len() {
        d[i]
    } else {
        0
    }
}

/// `"<sport> -> <dport>"`.
pub open spec fn port_pair_text(s: nat, t: nat) -> Seq<char> {
    decimal(s) + " -> "@ + decimal(t)
}

/// Where the transport header of an IPv4 frame starts.
pub open spec fn l4_offset(d: Seq<u8>) -> int {
    14 + (byte_or_zero(d, 14) % 16) as int * 4
}

/// The transport ports of an IPv4 frame, when the frame holds them.
pub open spec fn has_ports(d: Seq<u8>) -> bool {
    d.len() >= l4_offset(d) + 4
}

pub open spec fn ports_or(d: Seq<u8>, name: Seq<char>) -> Seq<char> {
    if has_ports(d) {
        port_pair_text(be16(d, l4_offset(d)), be16(d, l4_offset(d) + 2))
    } else {
        name
    }
}

pub open spec fn ethertype(d: Seq<u8>) -> nat {
    be16(d, 12)
}

/// `(src, dest, protocol, info)` of a frame.
pub open spec fn frame_fields(d: Seq<u8>) -> (Seq<char>, Seq<char>, Seq<char>, Seq<char>) {
    if d.len() < 14 {
        ("unknown"@, "unknown"@, "RAW"@, "Frame too short"@)
    } else if ethertype(d) == 0x0800 {
        let proto = byte_or_zero(d, 23);
        let src = ipv4_at(d, 26);
        let dest = ipv4_at(d, 30);
        if proto == 6 {
            (src, dest, "TCP"@, ports_or(d, "TCP"@))
        } else if proto == 17 {
            (src, dest, "UDP"@, ports_or(d, "UDP"@))
        } else if proto == 1 {
            (src, dest, "ICMP"@, "ICMP"@)
        } else if proto == 132 {
            (src, dest, "SCTP"@, ports_or(d, "SCTP"@))
        } else if proto == 50 {
            (src, dest, "ESP"@, "ESP"@)
        } else if proto == 51 {
            (src, dest, "AH"@, "AH"@)
        } else {
            (src, dest, "IPv4"@, "Protocol "@ + decimal(proto as nat))
        }
    } else if ethertype(d) == 0x86DD {
        let next = byte_or_zero(d, 20);
        let src = ipv6_at(d, 22);
        let dest = ipv6_at(d, 38);
        if next == 6 {
            (src, dest, "TCP"@, "TCP"@)
        } else if next == 17 {
            (src, dest, "UDP"@, "UDP"@)
        } else if next == 58 {
            (src, dest, "ICMPv6"@, "ICMPv6"@)
        } else {
            (src, dest, "IPv6"@, "Next header "@ + decimal(next as nat))
        }
    } else if ethertype(d) == 0x0806 {
        let op = byte_or_zero(d, 20) as nat * 256 + byte_or_zero(d, 21) as nat;
        let info = if op == 1 {
            "Who has? (request)"@
        } else if op == 2 {
            "Reply"@
        } else {
            "ARP"@
        };
        (ipv4_at(d, 28), ipv4_at(d, 38), "ARP"@, info)
    } else {
        ("unknown"@, "unknown"@, "0x"@ + hex4(ethertype(d)), "Unrecognized EtherType"@)
    }
}

/// Appends four bytes at `lo` as a dotted quad.
fn push_dotted(out: &mut String, d: &[u8], lo: usize)
    requires
        lo + 4 <= d@.len(),
    ensures
        final(out)@ == old(out)@ + dotted(d@.subrange(lo as int, lo + 4)),
{
    let ghost start = out@;
    let ghost b = d@.subrange(lo as int, lo + 4);
    push_decimal(out, d[lo] as u64);
    push_char(out, '.');
    push_decimal(out, d[lo + 1] as u64);
    push_char(out, '.');
    push_decimal(out, d[lo + 2] as u64);
    push_char(out, '.');
    push_decimal(out, d[lo + 3] as u64);
    assert(out@ =~= start + dotted(b));
}

/// Four bytes at `lo` as a dotted quad, or `unknown` when `d` ends first.
pub fn format_ipv4(d: &[u8], lo: usize) -> (r: String)
    requires
        lo <= usize::MAX - 16,
    ensures
        r@ == ipv4_at(d@, lo as int),
{
    if d.len() >= lo + 4 {
        let mut out = String::new();
        push_dotted(&mut out, d, lo);
        assert(out@ =~= ipv4_at(d@, lo as int));
        out
    } else {
        owned("unknown")
    }
}

/// Appends `g[lo..hi]` in hexadecimal, separated by `:`.
fn push_hex_groups(out: &mut String, g: &[u16], lo: usize, hi: usize)
    requires
        lo <= hi <= g@.len(),
    ensures
        final(out)@ == old(out)@ + hex_groups(g@.subrange(lo as int, hi as int).map_values(|x: u16| x as nat)),
{
    let ghost start = out@;
    let mut i: usize = lo;
    assert(g@.subrange(lo as int, lo as int).map_values(|x: u16| x as nat) =~= Seq::<nat>::empty());
    assert(out@ =~= start + hex_groups(g@.subrange(lo as int, i as int).map_values(|x: u16| x as nat)));
    while i < hi
        invariant
            lo <= i <= hi <= g@.len(),
            out@ == start + hex_groups(g@.subrange(lo as int, i as int).map_values(|x: u16| x as nat)),
        decreases hi - i,
    {
        let ghost prev = g@.subrange(lo as int, i as int).map_values(|x: u16| x as nat);
        let ghost next = g@.subrange(lo as int, i + 1).map_values(|x: u16| x as nat);
        assert(next.drop_last() =~= prev);
        assert(next.last() == g@[i as int] as nat);
        if i > lo {
            push_char(out, ':');
        }
        push_hex(out, g[i] as u64);
        if i == lo {
            assert(next.len() == 1);
            assert(out@ =~= start + hex_groups(next));
        } else {
            assert(out@ =~= start + hex_groups(next));
        }
        i = i + 1;
    }
}

/// Sixteen bytes at `lo` as an IPv6 address, or `unknown` when `d` ends first.
pub fn format_ipv6(d: &[u8], lo: usize) -> (r: String)
    requires
        lo <= usize::MAX - 16,
    ensures
        r@ == ipv6_at(d@, lo as int),
{
    if d.len() < lo + 16 {
        return owned("unknown");
    }
    let ghost b = d@.subrange(lo as int, lo + 16);
    let ghost sg = groups(b);
    let mut g: Vec<u16> = Vec::new();
    let mut k: usize = 0;
    while k < 8
        invariant
            k <= 8,
            lo <= usize::MAX - 16,
            lo + 16 <= d@.len(),
            b == d@.subrange(lo as int, lo + 16),
            sg == groups(b),
            g@.len() == k,
            forall|j: int| 0 <= j < k ==> g@[j] as nat == sg[j],
        decreases 8 - k,
    {
        let hi_byte = d[lo + 2 * k];
        let lo_byte = d[lo + 2 * k + 1];
        assert(hi_byte as u16 * 256 + lo_byte as u16 <= 65535) by (nonlinear_arith)
            requires
                hi_byte <= 255,
                lo_byte <= 255,
        ;
        let v: u16 = (hi_byte as u16) * 256 + lo_byte as u16;
        assert(b[2 * k as int] == hi_byte && b[2 * k + 1] == lo_byte);
        assert(sg[k as int] == be16(b, 2 * k as int));
        g.push(v);
        k = k + 1;
    }
    let ghost gn = g@.map_values(|x: u16| x as nat);
    assert(gn =~= sg);
    let mut out = String::new();
    if g[0] == 0 && g[1] == 0 && g[2] == 0 && g[3] == 0 && g[4] == 0 && g[5] == 0xffff {
        push_str(&mut out, "::ffff:");
        push_dotted(&mut out, d, lo + 12);
        assert(d@.subrange(lo + 12, lo + 16) =~= b.subrange(12, 16));
        assert(is_v4_mapped(sg)) by {
            assert(gn[0] == sg[0] && gn[1] == sg[1] && gn[2] == sg[2]);
            assert(gn[3] == sg[3] && gn[4] == sg[4] && gn[5] == sg[5]);
        }
        assert("::ffff:"@ =~= seq![':', ':', 'f', 'f', 'f', 'f', ':']) by {
            reveal_strlit("::ffff:");
        }
        assert(ipv6_at(d@, lo as int) == ipv6_text(b));
        assert(out@ =~= ipv6_at(d@, lo as int));
        return out;
    }
    let mut cs: usize = 0;
    let mut cl: usize = 0;
    let mut bs: usize = 0;
    let mut bl: usize = 0;
    let mut i: usize = 0;
    while i < 8
        invariant
            i <= 8,
            g@.len() == 8,
            gn == g@.map_values(|x: u16| x as nat),
            zero_runs(gn, i as nat) == (cs as nat, cl as nat, bs as nat, bl as nat),
            cl <= i,
            bl <= i,
            cl > 0 ==> cs + cl == i,
            bs + bl <= i,
        decreases 8 - i,
    {
        if g[i] == 0 {
            if cl == 0 {
                cs = i;
            }
            cl = cl + 1;
            if cl > bl {
                bs = cs;
                bl = cl;
            }
        } else {
            cs = 0;
            cl = 0;
        }
        i = i + 1;
    }
    if bl > 1 {
        push_hex_groups(&mut out, g.as_slice(), 0, bs);
        push_str(&mut out, "::");
        proof {
            reveal_strlit("::");
        }
        push_hex_groups(&mut out, g.as_slice(), bs + bl, 8);
        assert(g@.subrange(0, bs as int).map_values(|x: u16| x as nat) =~= gn.subrange(0, bs as int));
        assert(g@.subrange((bs + bl) as int, 8).map_values(|x: u16| x as nat) =~= gn.subrange((bs + bl) as int, 8));
    } else {
        push_hex_groups(&mut out, g.as_slice(), 0, 8);
        assert(g@.subrange(0, 8) =~= g@);
    }
    assert(!is_v4_mapped(sg)) by {
        assert(gn[0] == sg[0] && gn[1] == sg[1] && gn[2] == sg[2]);
        assert(gn[3] == sg[3] && gn[4] == sg[4] && gn[5] == sg[5]);
    }
    assert(ipv6_at(d@, lo as int) == ipv6_text(b));
    assert(out@ =~= ipv6_at(d@, lo as int));
    out
}

fn byte_or_zero_exec(d: &[u8], i: usize) -> (r: u8)
    ensures
        r == byte_or_zero(d@, i as int),
{
    if i < d.len() {
        d[i]
    } else {
        0
    }
}

/// The transport ports as `"<sport> -> <dport>"`, or `name` when the frame
/// is too short to hold them.
fn ports_or_exec(d: &[u8], name: &str) -> (r: String)
    requires
        d@.len() >= 14,
    ensures
        r@ == ports_or(d@, name@),
{
    let l4: usize = 14 + ((byte_or_zero_exec(d, 14) % 16) as usize) * 4;
    if d.len() >= l4 + 4 {
        let sport: u16 = (d[l4] as u16) * 256 + d[l4 + 1] as u16;
        let dport: u16 = (d[l4 + 2] as u16) * 256 + d[l4 + 3] as u16;
        let mut out = String::new();
        push_decimal(&mut out, sport as u64);
        push_str(&mut out, " -> ");
        push_decimal(&mut out, dport as u64);
        assert(out@ =~= ports_or(d@, name@));
        out
    } else {
        owned(name)
    }
}

/// Appends `n` in decimal after `prefix`.
fn labelled_number(prefix: &str, n: u8) -> (r: String)
    ensures
        r@ == prefix@ + decimal(n as nat),
{
    let mut out = owned(prefix);
    push_decimal(&mut out, n as u64);
    out
}

/// Dissects one raw frame, stamped with `time`. Never fails: a frame too
/// short for a header field reports that field as `unknown`.
pub fn summarize_frame(data: &[u8], time: String) -> (r: FrameSummary)
    ensures
        r.time == time,
        r.length == data@.len(),
        (r.src@, r.dest@, r.protocol@, r.info@) == frame_fields(data@),
{
    let length = data.len();
    if length < 14 {
        return FrameSummary {
            time,
            src: owned("unknown"),
            dest: owned("unknown"),
            protocol: owned("RAW"),
            length,
            info: owned("Frame too short"),
        };
    }
    let et: u16 = (data[12] as u16) * 256 + data[13] as u16;
    assert(et as nat == ethertype(data@));
    if et == 0x0800 {
        let proto = byte_or_zero_exec(data, 23);
        let src = format_ipv4(data, 26);
        let dest = format_ipv4(data, 30);
        let (protocol, info) = if proto == 6 {
            (owned("TCP"), ports_or_exec(data, "TCP"))
        } else if proto == 17 {
            (owned("UDP"), ports_or_exec(data, "UDP"))
        } else if proto == 1 {
            (owned("ICMP"), owned("ICMP"))
        } else if proto == 132 {
            (owned("SCTP"), ports_or_exec(data, "SCTP"))
        } else if proto == 50 {
            (owned("ESP"), owned("ESP"))
        } else if proto == 51 {
            (owned("AH"), owned("AH"))
        } else {
            (owned("IPv4"), labelled_number("Protocol ", proto))
        };
        FrameSummary { time, src, dest, protocol, length, info }
    } else if et == 0x86DD {
        let next = byte_or_zero_exec(data, 20);
        let src = format_ipv6(data, 22);
        let dest = format_ipv6(data, 38);
        let (protocol, info) = if next == 6 {
            (owned("TCP"), owned("TCP"))
        } else if next == 17 {
            (owned("UDP"), owned("UDP"))
        } else if next == 58 {
            (owned("ICMPv6"), owned("ICMPv6"))
        } else {
            (owned("IPv6"), labelled_number("Next header ", next))
        };
        FrameSummary { time, src, dest, protocol, length, info }
    } else if et == 0x0806 {
        let src = format_ipv4(data, 28);
        let dest = format_ipv4(data, 38);
        let op: u16 = (byte_or_zero_exec(data, 20) as u16) * 256 + byte_or_zero_exec(data, 21) as u16;
        let info = if op == 1 {
            owned("Who has? (request)")
        } else if op == 2 {
            owned("Reply")
        } else {
            owned("ARP")
        };
        FrameSummary { time, src, dest, protocol: owned("ARP"), length, info }
    } else {
        let mut protocol = owned("0x");
        push_hex4(&mut protocol, et);
        FrameSummary {
            time,
            src: owned("unknown"),
            dest: owned("unknown"),
            protocol,
            length,
            info: owned("Unrecognized EtherType"),
        }
    }
}

/// Relies on `DateTime::from_timestamp`, `DateTime::with_timezone` to
/// `Local`, and `DelayedFormat::to_string`: the local wall-clock time of the
/// given instant after the Unix epoch as `HH:MM:SS.mmm` (each field
/// zero-padded, the fraction fixed to three digits), or `None` when chrono
/// cannot represent the instant. The result depends on the machine's time
/// zone, so nothing more is promised.
#[verifier::external_body]
fn clock_time_text(secs: u64, nanos: u32) -> (r: Option<String>)
    ensures
        r is Some ==> r->0@.len() == 12,
{
    i64::try_from(secs)
        .ok()
        .and_then(|s| chrono::DateTime::from_timestamp(s, nanos))
        .map(|t| t.with_timezone(&chrono::Local).format("%H:%M:%S%.3f").to_string())
}

/// The local time of day as `HH:MM:SS.mmm`, from one reading of the clock;
/// empty when the clock reads before the Unix epoch or the instant cannot be
/// represented.
pub fn local_time_text() -> (r: String)
    ensures
        r@.len() == 12 || r@.len() == 0,
{
    match crate::wifi::clock_reading() {
        Some((secs, nanos)) => match clock_time_text(secs, nanos) {
            Some(t) => t,
            None => String::new(),
        },
        None => String::new(),
    }
}

/// Dissects one raw frame, stamped with the local time of day.
pub fn summarize_packet(data: &[u8]) -> (r: FrameSummary)
    ensures
        r.length == data@.len(),
        (r.src@, r.dest@, r.protocol@, r.info@) == frame_fields(data@),
{
    summarize_frame(data, local_time_text())
}

/// An IPv4 frame whose protocol byte is 6 and which holds the first four
/// bytes of its TCP header is reported as `TCP`, with `"<sport> -> <dport>"`
/// read from those bytes and the addresses read from the IPv4 header.
pub proof fn lemma_ipv4_tcp_ports(d: Seq<u8>)
    requires
        d.len() >= 34,
        ethertype(d) == 0x0800,
        d[23] == 6,
        d.len() >= l4_offset(d) + 4,
    ensures
        frame_fields(d).2 == "TCP"@,
        frame_fields(d).3 == port_pair_text(be16(d, l4_offset(d)), be16(d, l4_offset(d) + 2)),
        frame_fields(d).0 == dotted(d.subrange(26, 30)),
        frame_fields(d).1 == dotted(d.subrange(30, 34)),
{
    assert(byte_or_zero(d, 23) == 6);
}

/// A frame shorter than an Ethernet header is reported as `RAW`,
/// `Frame too short`, with unknown addresses.
pub proof fn lemma_short_frame(d: Seq<u8>)
    requires
        d.len() < 14,
    ensures
        frame_fields(d) == ("unknown"@, "unknown"@, "RAW"@, "Frame too short"@),
{
}

} // verus!
