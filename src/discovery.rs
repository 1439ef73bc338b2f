//! Host facts that the system already knows: its own addresses and its
//! neighbour (ARP) table, read from the text that the system's tools print.

use vstd::prelude::*;

use crate::addr::is_special;
use crate::addr::is_special_ip;
use crate::text::{
    chars_of, copy_chars, has_char, has_char_exec, has_part, has_part_exec, is_ws_char, lower_of,
    lowercase, owned, same_chars, split_chars, split_on, split_words, starts_with,
    starts_with_exec, string_of, trim, trim_chars, trim_start, words,
};

verus! {

/// One discovered host; its identity is `ip`.
#[derive(Debug, Clone)]
pub struct HostRecord {
    pub ip: String,
    pub mac: String,
    pub hostname: String,
    pub vendor: String,
}

impl HostRecord {
    /// An address of this machine itself.
    pub fn local(ip: String) -> (r: HostRecord)
        ensures
            r.ip == ip,
            r.mac@ == "local"@,
            r.hostname@ == "This device"@,
            r.vendor@ == "Local"@,
    {
        HostRecord { ip, mac: owned("local"), hostname: owned("This device"), vendor: owned("Local") }
    }

    /// A host listed in the neighbour table; no vendor lookup is made.
    pub fn neighbor(ip: String, mac: String, hostname: String) -> (r: HostRecord)
        ensures
            r.ip == ip,
            r.mac == mac,
            r.hostname == hostname,
            r.vendor@ == "Unknown"@,
    {
        HostRecord { ip, mac, hostname, vendor: owned("Unknown") }
    }

    /// A host that answered although the neighbour table does not list it.
    pub fn unlisted(ip: String, hostname: String) -> (r: HostRecord)
        ensures
            r.ip == ip,
            r.mac@ == "unknown"@,
            r.hostname == hostname,
            r.vendor@ == "Unknown"@,
    {
        HostRecord { ip, mac: owned("unknown"), hostname, vendor: owned("Unknown") }
    }
}

/// The system whose tools printed a text.
#[derive(Debug, Clone, Copy, PartialEq, Eq, Structural)]
pub enum Platform {
    /// `ipconfig`, `arp -a`, `nbtstat -A`.
    Windows,
    /// `ifconfig`, `arp -a`, `arp -n`.
    MacOs,
    /// `ip -4 addr`, `ip neigh show`.
    Linux,
}

/// `(ip, mac, hostname, vendor)` of a record.
pub open spec fn record_view(r: HostRecord) -> (Seq<char>, Seq<char>, Seq<char>, Seq<char>) {
    (r.ip@, r.mac@, r.hostname@, r.vendor@)
}

pub open spec fn records_view(v: Seq<HostRecord>) -> Seq<(Seq<char>, Seq<char>, Seq<char>, Seq<char>)> {
    v.map_values(|r: HostRecord| record_view(r))
}

pub open spec fn neighbor_view(ip: Seq<char>, mac: Seq<char>, hostname: Seq<char>) -> (Seq<char>, Seq<char>, Seq<char>, Seq<char>) {
    (ip, mac, hostname, "Unknown"@)
}

pub open spec fn local_view(ip: Seq<char>) -> (Seq<char>, Seq<char>, Seq<char>, Seq<char>) {
    (ip, "local"@, "This device"@, "Local"@)
}

pub open spec fn is_paren(c: char) -> bool {
    c == '(' || c == ')'
}

/// `s` without leading and trailing parentheses.
pub open spec fn strip_parens(s: Seq<char>) -> Seq<char>
    decreases s.len(),
{
    if s.len() > 0 && is_paren(s[0]) {
        strip_parens(s.drop_first())
    } else if s.len() > 0 && is_paren(s.last()) {
        strip_parens(s.drop_last())
    } else {
        s
    }
}

/// The neighbour-table entry that one line of the listing describes.
pub open spec fn neighbor_line(p: Platform, line: Seq<char>) -> Option<(Seq<char>, Seq<char>, Seq<char>, Seq<char>)> {
    let w = words(line);
    match p {
        Platform::Windows => if w.len() >= 2 && has_char(w[0], '.') && has_char(w[1], '-') {
            Some(neighbor_view(w[0], w[1], Seq::empty()))
        } else {
            None
        },
        Platform::MacOs => if w.len() >= 4 && starts_with(w[1], seq!['(']) {
            Some(neighbor_view(strip_parens(w[1]), w[3], w[0]))
        } else {
            None
        },
        Platform::Linux => if w.len() >= 5 {
            Some(neighbor_view(w[0], w[4], Seq::empty()))
        } else {
            None
        },
    }
}

/// The address of this machine that one line of the listing gives.
pub open spec fn local_line(p: Platform, line: Seq<char>) -> Option<Seq<char>> {
    match p {
        Platform::Windows => if has_part(line, "IPv4 Address"@) && split_on(line, ':').len() >= 2
            && trim(split_on(line, ':')[1]).len() > 0 {
            Some(trim(split_on(line, ':')[1]))
        } else {
            None
        },
        Platform::MacOs => if starts_with(trim_start(line), "inet "@) && words(trim_start(line)).len() >= 2 {
            Some(words(trim_start(line))[1])
        } else {
            None
        },
        Platform::Linux => if starts_with(trim_start(line), "inet "@) && words(trim_start(line)).len() >= 2
            && split_on(words(trim_start(line))[1], '/')[0].len() > 0 {
            Some(split_on(words(trim_start(line))[1], '/')[0])
        } else {
            None
        },
    }
}

/// What a per-line reading keeps of a listing, in order.
pub open spec fn collect_lines<T>(lines: Seq<Seq<char>>, f: spec_fn(Seq<char>) -> Option<T>) -> Seq<T>
    decreases lines.len(),
{
    if lines.len() == 0 {
        Seq::empty()
    } else {
        let p = collect_lines(lines.drop_last(), f);
        match f(lines.last()) {
            Some(x) => p.push(x),
            None => p,
        }
    }
}

/// The lines of a listing.
pub open spec fn lines_of(text: Seq<char>) -> Seq<Seq<char>> {
    split_on(text, '\n')
}

fn strip_parens_exec(s: &[char]) -> (r: Vec<char>)
    ensures
        r@ == strip_parens(s@),
{
    let mut lo: usize = 0;
    let mut hi: usize = s.len();
    assert(s@.subrange(0, hi as int) =~= s@);
    while lo < hi && (s[lo] == '(' || s[lo] == ')' || s[hi - 1] == '(' || s[hi - 1] == ')')
        invariant
            lo <= hi <= s@.len(),
            strip_parens(s@) == strip_parens(s@.subrange(lo as int, hi as int)),
        decreases hi - lo,
    {
        let ghost t = s@.subrange(lo as int, hi as int);
        if s[lo] == '(' || s[lo] == ')' {
            assert(t.drop_first() =~= s@.subrange(lo + 1, hi as int));
            lo = lo + 1;
        } else {
            assert(t.drop_last() =~= s@.subrange(lo as int, hi - 1));
            hi = hi - 1;
        }
    }
    let mut out: Vec<char> = Vec::new();
    let mut i: usize = lo;
    while i < hi
        invariant
            lo <= i <= hi <= s@.len(),
            out@ == s@.subrange(lo as int, i as int),
        decreases hi - i,
    {
        out.push(s[i]);
        i = i + 1;
    }
    out
}

/// Reads one line of a neighbour-table listing.
pub fn neighbor_from_line(p: Platform, line: &[char]) -> (r: Option<HostRecord>)
    ensures
        match neighbor_line(p, line@) {
            Some(v) => r is Some && record_view(r->0) == v,
            None => r is None,
        },
{
    let w = split_words(line);
    match p {
        Platform::Windows => {
            if w.len() >= 2 && has_char_exec(w[0].as_slice(), '.') && has_char_exec(w[1].as_slice(), '-') {
                Some(HostRecord::neighbor(string_of(w[0].as_slice()), string_of(w[1].as_slice()), String::new()))
            } else {
                None
            }
        },
        Platform::MacOs => {
            if w.len() >= 4 && starts_with_exec(w[1].as_slice(), &['(']) {
                proof {
                    assert(['(']@ =~= seq!['(']);
                }
                let ip = strip_parens_exec(w[1].as_slice());
                Some(HostRecord::neighbor(string_of(ip.as_slice()), string_of(w[3].as_slice()), string_of(w[0].as_slice())))
            } else {
                proof {
                    assert(['(']@ =~= seq!['(']);
                }
                None
            }
        },
        Platform::Linux => {
            if w.len() >= 5 {
                Some(HostRecord::neighbor(string_of(w[0].as_slice()), string_of(w[4].as_slice()), String::new()))
            } else {
                None
            }
        },
    }
}

fn trim_start_exec(s: &[char]) -> (r: Vec<char>)
    ensures
        r@ == trim_start(s@),
{
    let n = s.len();
    let mut lo: usize = 0;
    assert(s@.subrange(0, n as int) =~= s@);
    while lo < n && is_ws_char(s[lo])
        invariant
            lo <= n == s@.len(),
            trim_start(s@) == trim_start(s@.subrange(lo as int, n as int)),
        decreases n - lo,
    {
        assert(s@.subrange(lo as int, n as int).drop_first() =~= s@.subrange(lo + 1, n as int));
        lo = lo + 1;
    }
    crate::text::sub_chars(s, lo, n)
}

/// Reads one line of a listing of this machine's addresses.
pub fn local_from_line(p: Platform, line: &[char]) -> (r: Option<String>)
    ensures
        match local_line(p, line@) {
            Some(v) => r is Some && r->0@ == v,
            None => r is None,
        },
{
    match p {
        Platform::Windows => {
            let key = chars_of("IPv4 Address");
            if !has_part_exec(line, key.as_slice()) {
                return None;
            }
            let parts = split_chars(line, ':');
            if parts.len() < 2 {
                return None;
            }
            let v = trim_chars(parts[1].as_slice());
            if v.len() == 0 {
                return None;
            }
            Some(string_of(v.as_slice()))
        },
        _ => {
            let t = trim_start_exec(line);
            let key = chars_of("inet ");
            if !starts_with_exec(t.as_slice(), key.as_slice()) {
                return None;
            }
            let w = split_words(t.as_slice());
            if w.len() < 2 {
                return None;
            }
            match p {
                Platform::MacOs => Some(string_of(w[1].as_slice())),
                _ => {
                    let pieces = split_chars(w[1].as_slice(), '/');
                    proof {
                        crate::text::lemma_split_on_len(w@[1]@, '/');
                    }
                    if pieces[0].len() == 0 {
                        return None;
                    }
                    Some(string_of(pieces[0].as_slice()))
                },
            }
        },
    }
}

/// The neighbour-table entries of a listing, in order.
pub fn parse_neighbor_table(p: Platform, text: &str) -> (r: Vec<HostRecord>)
    ensures
        records_view(r@) == collect_lines(lines_of(text@), |l: Seq<char>| neighbor_line(p, l)),
{
    let cs = chars_of(text);
    let lines = split_chars(&cs, '\n');
    let ghost sl = lines_of(text@);
    let ghost f = |l: Seq<char>| neighbor_line(p, l);
    let mut out: Vec<HostRecord> = Vec::new();
    let mut i: usize = 0;
    while i < lines.len()
        invariant
            i <= lines@.len() == sl.len(),
            sl == lines_of(text@),
            f == (|l: Seq<char>| neighbor_line(p, l)),
            forall|k: int| 0 <= k < lines@.len() ==> (#[trigger] lines@[k])@ == sl[k],
            records_view(out@) == collect_lines(sl.subrange(0, i as int), f),
        decreases lines@.len() - i,
    {
        assert(sl.subrange(0, i + 1).drop_last() =~= sl.subrange(0, i as int));
        assert(sl.subrange(0, i + 1).last() == lines@[i as int]@);
        match neighbor_from_line(p, lines[i].as_slice()) {
            Some(rec) => {
                let ghost before = out@;
                out.push(rec);
                assert(records_view(out@) =~= records_view(before).push(record_view(rec)));
            },
            None => {},
        }
        i = i + 1;
    }
    assert(sl.subrange(0, sl.len() as int) =~= sl);
    out
}

/// This machine's addresses in a listing, in order, each as a record of
/// this device.
pub fn parse_local_addresses(p: Platform, text: &str) -> (r: Vec<HostRecord>)
    ensures
        records_view(r@) == collect_lines(lines_of(text@), |l: Seq<char>| local_line(p, l)).map_values(
            |ip: Seq<char>| local_view(ip),
        ),
{
    let cs = chars_of(text);
    let lines = split_chars(&cs, '\n');
    let ghost sl = lines_of(text@);
    let ghost f = |l: Seq<char>| local_line(p, l);
    let mut out: Vec<HostRecord> = Vec::new();
    let mut i: usize = 0;
    while i < lines.len()
        invariant
            i <= lines@.len() == sl.len(),
            sl == lines_of(text@),
            f == (|l: Seq<char>| local_line(p, l)),
            forall|k: int| 0 <= k < lines@.len() ==> (#[trigger] lines@[k])@ == sl[k],
            records_view(out@) == collect_lines(sl.subrange(0, i as int), f).map_values(|ip: Seq<char>| local_view(ip)),
        decreases lines@.len() - i,
    {
        assert(sl.subrange(0, i + 1).drop_last() =~= sl.subrange(0, i as int));
        assert(sl.subrange(0, i + 1).last() == lines@[i as int]@);
        match local_from_line(p, lines[i].as_slice()) {
            Some(ip) => {
                let ghost before = out@;
                let ghost c0 = collect_lines(sl.subrange(0, i as int), f);
                assert(f(sl[i as int]) == local_line(p, sl[i as int]));
                assert(collect_lines(sl.subrange(0, i + 1), f) == c0.push(ip@));
                let rec = HostRecord::local(ip);
                out.push(rec);
                assert(c0.push(ip@).map_values(|ip: Seq<char>| local_view(ip)) =~= c0.map_values(|ip: Seq<char>| local_view(ip)).push(local_view(ip@)));
                assert(records_view(out@) =~= records_view(before).push(record_view(rec)));
            },
            None => {},
        }
        i = i + 1;
    }
    assert(sl.subrange(0, sl.len() as int) =~= sl);
    out
}

/// A hardware address that says nothing of a host: broadcast, or IPv4
/// multicast. `mac` is in lower case and `sep` separates its octets.
pub open spec fn uninformative_mac(mac: Seq<char>, sep: char) -> bool {
    mac == seq!['f', 'f', sep, 'f', 'f', sep, 'f', 'f', sep, 'f', 'f', sep, 'f', 'f', sep, 'f', 'f']
        || starts_with(mac, seq!['0', '1', sep, '0', '0', sep, '5', 'e'])
}

/// The hardware address that one line of a Windows query for `ip` gives.
pub open spec fn windows_query_line(ip: Seq<char>, line: Seq<char>) -> Option<Seq<char>> {
    let w = words(line);
    if w.len() >= 2 && w[0] == ip && has_char(w[1], '-') {
        Some(w[1])
    } else {
        None
    }
}

pub open spec fn windows_query_fn(ip: Seq<char>) -> spec_fn(Seq<char>) -> Option<Seq<char>> {
    |l: Seq<char>| windows_query_line(ip, l)
}

pub open spec fn netbios_fn(ip: Seq<char>) -> spec_fn(Seq<char>) -> Option<Seq<char>> {
    |l: Seq<char>| netbios_line(ip, l)
}

pub open spec fn first_of<T>(s: Seq<T>) -> Option<T> {
    if s.len() > 0 {
        Some(s[0])
    } else {
        None
    }
}

/// `(mac, hostname)` that a neighbour query for `ip` printed, before the
/// uninformative addresses are dropped.
pub open spec fn query_answer(p: Platform, ip: Seq<char>, text: Seq<char>) -> Option<(Seq<char>, Seq<char>)> {
    match p {
        Platform::Windows => match first_of(collect_lines(lines_of(text), windows_query_fn(ip))) {
            Some(mac) => Some((mac, Seq::empty())),
            None => None,
        },
        Platform::MacOs => if words(text).len() >= 4 {
            Some((words(text)[3], words(text)[0]))
        } else {
            None
        },
        Platform::Linux => if words(text).len() >= 5 {
            Some((words(text)[4], Seq::empty()))
        } else {
            None
        },
    }
}

pub open spec fn mac_separator(p: Platform) -> char {
    match p {
        Platform::Windows => '-',
        _ => ':',
    }
}

/// The neighbour record for `ip` from the output of a query for it (`None`
/// when the query failed): none for multicast or broadcast addresses, and
/// none when the hardware address is broadcast or multicast.
pub open spec fn neighbor_lookup_of(p: Platform, ip: Seq<char>, output: Option<Seq<char>>) -> Option<(Seq<char>, Seq<char>, Seq<char>, Seq<char>)> {
    if is_special(ip) {
        None
    } else {
        match output {
            None => None,
            Some(text) => match query_answer(p, ip, text) {
                None => None,
                Some((mac, host)) => if uninformative_mac(lower_of(mac), mac_separator(p)) {
                    None
                } else {
                    Some(neighbor_view(ip, mac, host))
                },
            },
        }
    }
}

fn uninformative_mac_exec(mac: &[char], sep: char) -> (r: bool)
    ensures
        r == uninformative_mac(mac@, sep),
{
    let bcast = ['f', 'f', sep, 'f', 'f', sep, 'f', 'f', sep, 'f', 'f', sep, 'f', 'f', sep, 'f', 'f'];
    let mcast = ['0', '1', sep, '0', '0', sep, '5', 'e'];
    let r = same_chars(mac, &bcast) || starts_with_exec(mac, &mcast);
    proof {
        assert(bcast@ =~= seq!['f', 'f', sep, 'f', 'f', sep, 'f', 'f', sep, 'f', 'f', sep, 'f', 'f', sep, 'f', 'f']);
        assert(mcast@ =~= seq!['0', '1', sep, '0', '0', sep, '5', 'e']);
    }
    r
}

/// Whether a hardware address, given in lower case as `p`'s tools print
/// it, is broadcast or IPv4 multicast.
pub fn is_uninformative_mac(p: Platform, lowered: &str) -> (r: bool)
    ensures
        r == uninformative_mac(lowered@, mac_separator(p)),
{
    let sep = match p {
        Platform::Windows => '-',
        _ => ':',
    };
    let lc = chars_of(lowered);
    uninformative_mac_exec(lc.as_slice(), sep)
}

fn query_answer_exec(p: Platform, ip: &[char], text: &[char]) -> (r: Option<(Vec<char>, Vec<char>)>)
    ensures
        match query_answer(p, ip@, text@) {
            Some((mac, host)) => r matches Some((m, h)) && m@ == mac && h@ == host,
            None => r is None,
        },
{
    match p {
        Platform::Windows => {
            let lines = split_chars(text, '\n');
            let ghost sl = lines_of(text@);
            let ghost f = windows_query_fn(ip@);
            let mut i: usize = 0;
            while i < lines.len()
                invariant
                    i <= lines@.len() == sl.len(),
                    sl == lines_of(text@),
                    f == windows_query_fn(ip@),
                    p == Platform::Windows,
                    forall|k: int| 0 <= k < lines@.len() ==> (#[trigger] lines@[k])@ == sl[k],
                    collect_lines(sl.subrange(0, i as int), f).len() == 0,
                decreases lines@.len() - i,
            {
                let ghost pre = sl.subrange(0, i as int);
                assert(sl.subrange(0, i + 1).drop_last() =~= pre);
                let w = split_words(lines[i].as_slice());
                if w.len() >= 2 && same_chars(w[0].as_slice(), ip) && has_char_exec(w[1].as_slice(), '-') {
                    proof {
                        assert(f(sl[i as int]) == Some(w@[1]@));
                        assert(collect_lines(sl.subrange(0, i + 1), f) == seq![w@[1]@]);
                        lemma_collect_prefix(sl, i + 1, f);
                    }
                    let mac = crate::text::sub_chars(w[1].as_slice(), 0, w[1].len());
                    assert(w@[1]@.subrange(0, w@[1]@.len() as int) =~= w@[1]@);

                    return Some((mac, Vec::new()));
                }
                assert(f(sl[i as int]) is None);
                i = i + 1;
            }
            assert(sl.subrange(0, sl.len() as int) =~= sl);
            None
        },
        Platform::MacOs => {
            let w = split_words(text);
            if w.len() >= 4 {
                Some((copy_chars(w[3].as_slice()), copy_chars(w[0].as_slice())))
            } else {
                None
            }
        },
        Platform::Linux => {
            let w = split_words(text);
            if w.len() >= 5 {
                Some((copy_chars(w[4].as_slice()), Vec::new()))
            } else {
                None
            }
        },
    }
}

/// Once a prefix of the lines yields something, the first thing the whole
/// listing yields is the first thing of that prefix.
pub(crate) proof fn lemma_collect_prefix<T>(lines: Seq<Seq<char>>, i: int, f: spec_fn(Seq<char>) -> Option<T>)
    requires
        0 <= i <= lines.len(),
        collect_lines(lines.subrange(0, i), f).len() > 0,
    ensures
        collect_lines(lines, f).len() > 0,
        collect_lines(lines, f)[0] == collect_lines(lines.subrange(0, i), f)[0],
    decreases lines.len() - i,
{
    if i < lines.len() {
        assert(lines.subrange(0, i + 1).drop_last() =~= lines.subrange(0, i));
        lemma_collect_prefix(lines, i + 1, f);
    } else {
        assert(lines.subrange(0, i) =~= lines);
    }
}

/// The neighbour record for `ip`, read from the output of a query for it;
/// `output` is `None` when the query failed or was not made.
pub fn lookup_arp(p: Platform, ip: &str, output: Option<&str>) -> (r: Option<HostRecord>)
    ensures
        match neighbor_lookup_of(p, ip@, match output {
            Some(t) => Some(t@),
            None => None,
        }) {
            Some(v) => r is Some && record_view(r->0) == v,
            None => r is None,
        },
{
    if is_special_ip(ip) {
        return None;
    }
    let text = match output {
        Some(t) => t,
        None => return None,
    };
    let ipc = chars_of(ip);
    let tc = chars_of(text);
    match query_answer_exec(p, ipc.as_slice(), tc.as_slice()) {
        None => None,
        Some((mac, host)) => {
            let mac_s = string_of(mac.as_slice());
            let lowered = lowercase(mac_s.as_str());
            if is_uninformative_mac(p, lowered.as_str()) {
                None
            } else {
                Some(HostRecord::neighbor(string_of(ipc.as_slice()), mac_s, string_of(host.as_slice())))
            }
        },
    }
}

/// The NetBIOS name that one line of an `nbtstat -A` listing gives for `ip`.
pub open spec fn netbios_line(ip: Seq<char>, line: Seq<char>) -> Option<Seq<char>> {
    let name = if words(line).len() > 0 {
        words(line)[0]
    } else {
        Seq::empty()
    };
    if has_part(line, "<00>"@) && has_part(line, "UNIQUE"@) && name.len() > 0 && name != ip {
        Some(name)
    } else {
        None
    }
}

/// The host name hint for `ip`: only looked for in deep mode, and taken from
/// the name-service listing when one was obtained.
pub open spec fn hostname_hint_of(ip: Seq<char>, deep: bool, listing: Option<Seq<char>>) -> Option<Seq<char>> {
    if !deep {
        None
    } else {
        match listing {
            Some(t) => first_of(collect_lines(lines_of(t), netbios_fn(ip))),
            None => None,
        }
    }
}

/// A best-effort host name for `ip`. Name lookups are slow, so none is made
/// unless `deep` is set; `listing` is what the platform's name service
/// printed for `ip`, if it has one.
pub fn resolve_hostname(ip: &str, deep: bool, listing: Option<&str>) -> (r: Option<String>)
    ensures
        match hostname_hint_of(ip@, deep, match listing {
            Some(t) => Some(t@),
            None => None,
        }) {
            Some(n) => r is Some && r->0@ == n,
            None => r is None,
        },
{
    if !deep {
        return None;
    }
    let text = match listing {
        Some(t) => t,
        None => return None,
    };
    let ipc = chars_of(ip);
    let tc = chars_of(text);
    let k00 = chars_of("<00>");
    let kuq = chars_of("UNIQUE");
    let lines = split_chars(tc.as_slice(), '\n');
    let ghost sl = lines_of(text@);
    let ghost f = netbios_fn(ip@);
    let mut i: usize = 0;
    while i < lines.len()
        invariant
            i <= lines@.len() == sl.len(),
            sl == lines_of(text@),
            ipc@ == ip@,
            deep,
            listing == Some(text),
            k00@ == "<00>"@,
            kuq@ == "UNIQUE"@,
            f == netbios_fn(ip@),
            forall|k: int| 0 <= k < lines@.len() ==> (#[trigger] lines@[k])@ == sl[k],
            collect_lines(sl.subrange(0, i as int), f).len() == 0,
        decreases lines@.len() - i,
    {
        let ghost pre = sl.subrange(0, i as int);
        assert(sl.subrange(0, i + 1).drop_last() =~= pre);
        let line = lines[i].as_slice();
        if has_part_exec(line, k00.as_slice()) && has_part_exec(line, kuq.as_slice()) {
            let w = split_words(line);
            if w.len() > 0 && w[0].len() > 0 && !same_chars(w[0].as_slice(), ipc.as_slice()) {
                proof {
                    assert(f(sl[i as int]) == Some(w@[0]@));
                    assert(collect_lines(sl.subrange(0, i + 1), f) == seq![w@[0]@]);
                    lemma_collect_prefix(sl, i + 1, f);
                }
                return Some(string_of(w[0].as_slice()));
            }
        }
        assert(f(sl[i as int]) is None);
        i = i + 1;
    }
    assert(sl.subrange(0, sl.len() as int) =~= sl);
    None
}

} // verus!
