//! Wi-Fi channel arithmetic and access-point address recognition.

use base64::Engine;
use vstd::prelude::*;

use crate::capture::{first_at, first_occurrence};
use crate::discovery::{first_of, lines_of, collect_lines};
use crate::text::{
    chars_of, has_char, has_char_exec, has_part, has_part_exec, lower_of, lowercase, owned,
    parse_i32, parse_i32_chars, push_char, push_str, split_chars, split_on, split_words,
    starts_with, starts_with_exec, string_of, sub_chars, trim, trim_chars, trim_end_char,
    trim_end_char_exec, words,
};

verus! {

/// Channel numbers above this have no frequency that fits an `i32`.
pub const MAX_CHANNEL: i32 = 429_495_729;

/// The centre frequency in MHz of a channel: 2.4 GHz band for channels up
/// to 14, 5 GHz band above.
pub open spec fn frequency_of(channel: int) -> Option<int> {
    if channel <= 0 || channel > MAX_CHANNEL {
        None
    } else if channel <= 14 {
        Some(2407 + channel * 5)
    } else {
        Some(5000 + channel * 5)
    }
}

/// The channel of a centre frequency in MHz, when it lies in a known band.
pub open spec fn channel_of(freq: int) -> Option<int> {
    if freq == 2484 {
        Some(14)
    } else if 2412 <= freq <= 2472 {
        Some((freq - 2407) / 5)
    } else if 5000 <= freq <= 5900 {
        Some((freq - 5000) / 5)
    } else {
        None
    }
}

/// The centre frequency of a channel.
pub fn channel_to_frequency(channel: i32) -> (r: Option<i32>)
    ensures
        match frequency_of(channel as int) {
            Some(f) => r == Some(f as i32),
            None => r is None,
        },
{
    if channel <= 0 || channel > MAX_CHANNEL {
        None
    } else if channel <= 14 {
        Some(2407 + channel * 5)
    } else {
        Some(5000 + channel * 5)
    }
}

/// The channel of a centre frequency.
pub fn frequency_to_channel(freq: i32) -> (r: Option<i32>)
    ensures
        match channel_of(freq as int) {
            Some(c) => r == Some(c as i32),
            None => r is None,
        },
{
    if freq == 2484 {
        return Some(14);
    }
    if 2412 <= freq && freq <= 2472 {
        return Some((freq - 2407) / 5);
    }
    if 5000 <= freq && freq <= 5900 {
        return Some((freq - 5000) / 5);
    }
    None
}

/// How many times `c` occurs in `s`.
pub open spec fn count_char(s: Seq<char>, c: char) -> nat
    decreases s.len(),
{
    if s.len() == 0 {
        0
    } else {
        count_char(s.drop_last(), c) + if s.last() == c {
            1nat
        } else {
            0nat
        }
    }
}

/// Whether a token looks like an access point's hardware address
/// (`aa:bb:cc:dd:ee:ff`): 17 bytes long with five colons.
pub fn is_bssid(token: &str) -> (r: bool)
    ensures
        r == (token.len() == 17 && count_char(token@, ':') == 5),
{
    if token.len() != 17 {
        return false;
    }
    let cs = chars_of(token);
    let mut n: usize = 0;
    let mut i: usize = 0;
    while i < cs.len()
        invariant
            i <= cs@.len(),
            n <= i,
            n == count_char(cs@.subrange(0, i as int), ':'),
        decreases cs@.len() - i,
    {
        assert(cs@.subrange(0, i + 1).drop_last() =~= cs@.subrange(0, i as int));
        if cs[i] == ':' {
            n = n + 1;
        }
        i = i + 1;
    }
    assert(cs@.subrange(0, cs@.len() as int) =~= cs@);
    n == 5
}

/// Relies on `SystemTime::elapsed`, asked of the Unix epoch: the time since
/// the epoch as whole seconds and the nanoseconds past them, or `None` when
/// the clock reads earlier. It depends on the clock, so no value is
/// promised.
#[verifier::external_body]
pub(crate) fn clock_reading() -> (r: Option<(u64, u32)>)
    ensures
        r matches Some((_, nanos)) ==> nanos < 1_000_000_000,
{
    std::time::UNIX_EPOCH.elapsed().ok().map(|d| (d.as_secs(), d.subsec_nanos()))
}

/// The time of a scan: seconds since the Unix epoch, 0 when the clock
/// reads earlier than that.
pub fn unix_timestamp() -> u64 {
    match clock_reading() {
        Some((s, _)) => s,
        None => 0,
    }
}

/// One wireless network seen in a scan.
#[derive(Debug, Clone)]
pub struct WifiNetwork {
    pub ssid: String,
    pub security: String,
    pub signal: Option<i32>,
    pub frequency: Option<i32>,
    pub channel: Option<i32>,
}

/// `(ssid, security, signal, frequency, channel)`.
pub type NetworkView = (Seq<char>, Seq<char>, Option<i32>, Option<i32>, Option<i32>);

pub open spec fn network_view(n: WifiNetwork) -> NetworkView {
    (n.ssid@, n.security@, n.signal, n.frequency, n.channel)
}

pub open spec fn networks_view(v: Seq<WifiNetwork>) -> Seq<NetworkView> {
    v.map_values(|n: WifiNetwork| network_view(n))
}

pub open spec fn freq_opt(channel: Option<i32>) -> Option<i32> {
    match channel {
        Some(c) => match frequency_of(c as int) {
            Some(f) => Some(f as i32),
            None => None,
        },
        None => None,
    }
}

pub open spec fn channel_opt(freq: Option<i32>) -> Option<i32> {
    match freq {
        Some(f) => match channel_of(f as int) {
            Some(c) => Some(c as i32),
            None => None,
        },
        None => None,
    }
}

/// An empty name stands for a hidden network.
pub open spec fn or_hidden(ssid: Seq<char>) -> Seq<char> {
    if ssid.len() == 0 {
        "Hidden"@
    } else {
        ssid
    }
}

fn or_hidden_exec(ssid: &[char]) -> (r: String)
    ensures
        r@ == or_hidden(ssid@),
{
    if ssid.len() == 0 {
        owned("Hidden")
    } else {
        string_of(ssid)
    }
}

fn freq_opt_exec(channel: Option<i32>) -> (r: Option<i32>)
    ensures
        r == freq_opt(channel),
{
    match channel {
        Some(c) => channel_to_frequency(c),
        None => None,
    }
}

/// The network that one line of `nmcli -t -f SSID,SECURITY,SIGNAL,FREQ`
/// describes: colon-separated fields, the last of which takes the rest.
pub open spec fn nmcli_line(line: Seq<char>) -> Option<NetworkView> {
    if trim(line).len() == 0 {
        None
    } else {
        let f = split_on(line, ':');
        let security = if f.len() > 1 {
            trim(f[1])
        } else {
            Seq::empty()
        };
        let signal = if f.len() > 2 {
            parse_i32(trim(f[2]))
        } else {
            None
        };
        let freq = if f.len() == 4 {
            parse_i32(trim(f[3]))
        } else {
            None
        };
        Some(
            (
                or_hidden(trim(f[0])),
                if security.len() == 0 {
                    "Open"@
                } else {
                    security
                },
                signal,
                freq,
                channel_opt(freq),
            ),
        )
    }
}

pub open spec fn nmcli_fn() -> spec_fn(Seq<char>) -> Option<NetworkView> {
    |l: Seq<char>| nmcli_line(l)
}

fn nmcli_from_line(line: &[char]) -> (r: Option<WifiNetwork>)
    ensures
        match nmcli_line(line@) {
            Some(v) => r is Some && network_view(r->0) == v,
            None => r is None,
        },
{
    if trim_chars(line).len() == 0 {
        return None;
    }
    let f = split_chars(line, ':');
    proof {
        crate::text::lemma_split_on_len(line@, ':');
    }
    let ssid = trim_chars(f[0].as_slice());
    let security = if f.len() > 1 {
        trim_chars(f[1].as_slice())
    } else {
        Vec::new()
    };
    let signal = if f.len() > 2 {
        parse_i32_chars(trim_chars(f[2].as_slice()).as_slice())
    } else {
        None
    };
    let frequency = if f.len() == 4 {
        parse_i32_chars(trim_chars(f[3].as_slice()).as_slice())
    } else {
        None
    };
    let channel = match frequency {
        Some(q) => frequency_to_channel(q),
        None => None,
    };
    Some(WifiNetwork {
        ssid: or_hidden_exec(ssid.as_slice()),
        security: if security.len() == 0 {
            owned("Open")
        } else {
            string_of(security.as_slice())
        },
        signal,
        frequency,
        channel,
    })
}

/// The networks in the output of `nmcli`, in order.
pub fn parse_nmcli_networks(output: &str) -> (r: Vec<WifiNetwork>)
    ensures
        networks_view(r@) == collect_lines(lines_of(output@), nmcli_fn()),
{
    let cs = chars_of(output);
    let lines = split_chars(&cs, '\n');
    let ghost sl = lines_of(output@);
    let ghost f = nmcli_fn();
    let mut out: Vec<WifiNetwork> = Vec::new();
    let mut i: usize = 0;
    while i < lines.len()
        invariant
            i <= lines@.len() == sl.len(),
            sl == lines_of(output@),
            f == nmcli_fn(),
            forall|k: int| 0 <= k < lines@.len() ==> (#[trigger] lines@[k])@ == sl[k],
            networks_view(out@) == collect_lines(sl.subrange(0, i as int), f),
        decreases lines@.len() - i,
    {
        assert(sl.subrange(0, i + 1).drop_last() =~= sl.subrange(0, i as int));
        assert(sl.subrange(0, i + 1).last() == lines@[i as int]@);
        match nmcli_from_line(lines[i].as_slice()) {
            Some(n) => {
                let ghost before = out@;
                out.push(n);
                assert(networks_view(out@) =~= networks_view(before).push(network_view(n)));
            },
            None => {},
        }
        i = i + 1;
    }
    assert(sl.subrange(0, sl.len() as int) =~= sl);
    out
}

/// The part of `t` after the first occurrence of `p`, when there is one.
pub open spec fn after_first(t: Seq<char>, p: Seq<char>) -> Option<Seq<char>> {
    if exists|i: int| first_at(t, p, i) {
        let i = choose|i: int| first_at(t, p, i);
        Some(t.subrange(i + p.len(), t.len() as int))
    } else {
        None
    }
}

fn after_first_exec(t: &[char], p: &[char]) -> (r: Option<Vec<char>>)
    ensures
        match after_first(t@, p@) {
            Some(v) => r is Some && r->0@ == v,
            None => r is None,
        },
{
    match first_occurrence(t, p) {
        Some(i) => {
            proof {
                let c = choose|c: int| first_at(t@, p@, c);
                if c < i {
                }
                if i < c {
                }
                assert(c == i);
            }
            let n = t.len();
            assert(i + p@.len() <= n);
            Some(sub_chars(t, i + p.len(), n))
        },
        None => {
            assert(!exists|i: int| first_at(t@, p@, i));
            None
        },
    }
}

/// The value after the first ` : ` of a trimmed `netsh` line, trimmed.
pub open spec fn netsh_value(t: Seq<char>) -> Seq<char> {
    match after_first(t, " : "@) {
        Some(v) => trim(v),
        None => Seq::empty(),
    }
}

/// A line that starts with `key` and holds ` : `.
pub open spec fn netsh_keyed(t: Seq<char>, key: Seq<char>) -> bool {
    starts_with(t, key) && has_part(t, " : "@)
}

pub open spec fn fresh_network(ssid: Seq<char>) -> NetworkView {
    (ssid, "Unknown"@, None, None, None)
}

/// The state of a `netsh wlan show networks mode=bssid` listing after its
/// lines `lines`: the finished networks and the one being read.
pub open spec fn netsh_state(lines: Seq<Seq<char>>) -> (Seq<NetworkView>, NetworkView)
    decreases lines.len(),
{
    if lines.len() == 0 {
        (Seq::empty(), fresh_network(Seq::empty()))
    } else {
        let (nets, cur) = netsh_state(lines.drop_last());
        let t = trim(lines.last());
        if netsh_keyed(t, "SSID "@) {
            (
                if cur.0.len() > 0 {
                    nets.push(cur)
                } else {
                    nets
                },
                fresh_network(or_hidden(netsh_value(t))),
            )
        } else {
            let c1 = if netsh_keyed(t, "Authentication"@) {
                (cur.0, netsh_value(t), cur.2, cur.3, cur.4)
            } else {
                cur
            };
            let c2 = if netsh_keyed(t, "Signal"@) {
                (c1.0, c1.1, parse_i32(trim_end_char(netsh_value(t), '%')), c1.3, c1.4)
            } else {
                c1
            };
            let c3 = if netsh_keyed(t, "Channel"@) && parse_i32(netsh_value(t)) is Some {
                (c2.0, c2.1, c2.2, freq_opt(parse_i32(netsh_value(t))), parse_i32(netsh_value(t)))
            } else {
                c2
            };
            (nets, c3)
        }
    }
}

/// The networks of a `netsh` listing: each `SSID n : name` line starts a
/// network, and the `Authentication`, `Signal` and `Channel` lines after it
/// fill it in.
pub open spec fn netsh_networks(text: Seq<char>) -> Seq<NetworkView> {
    let (nets, cur) = netsh_state(lines_of(text));
    if cur.0.len() > 0 {
        nets.push(cur)
    } else {
        nets
    }
}

fn keyed_exec(t: &[char], key: &str, sep: &[char]) -> (r: bool)
    requires
        sep@ == " : "@,
    ensures
        r == netsh_keyed(t@, key@),
{
    let k = chars_of(key);
    starts_with_exec(t, k.as_slice()) && has_part_exec(t, sep)
}

fn netsh_value_exec(t: &[char], sep: &[char]) -> (r: Vec<char>)
    requires
        sep@ == " : "@,
    ensures
        r@ == netsh_value(t@),
{
    match after_first_exec(t, sep) {
        Some(v) => trim_chars(v.as_slice()),
        None => Vec::new(),
    }
}

/// The networks in the output of `netsh wlan show networks mode=bssid`.
pub fn parse_netsh_networks(output: &str) -> (r: Vec<WifiNetwork>)
    ensures
        networks_view(r@) == netsh_networks(output@),
{
    let cs = chars_of(output);
    let lines = split_chars(&cs, '\n');
    let ghost sl = lines_of(output@);
    let sep = chars_of(" : ");
    let mut nets: Vec<WifiNetwork> = Vec::new();
    let mut cur = WifiNetwork { ssid: String::new(), security: owned("Unknown"), signal: None, frequency: None, channel: None };
    let mut i: usize = 0;
    while i < lines.len()
        invariant
            i <= lines@.len() == sl.len(),
            sl == lines_of(output@),
            sep@ == " : "@,
            forall|k: int| 0 <= k < lines@.len() ==> (#[trigger] lines@[k])@ == sl[k],
            (networks_view(nets@), network_view(cur)) == netsh_state(sl.subrange(0, i as int)),
        decreases lines@.len() - i,
    {
        assert(sl.subrange(0, i + 1).drop_last() =~= sl.subrange(0, i as int));
        assert(sl.subrange(0, i + 1).last() == lines@[i as int]@);
        let t = trim_chars(lines[i].as_slice());
        if keyed_exec(t.as_slice(), "SSID ", sep.as_slice()) {
            let v = netsh_value_exec(t.as_slice(), sep.as_slice());
            let fresh = WifiNetwork {
                ssid: or_hidden_exec(v.as_slice()),
                security: owned("Unknown"),
                signal: None,
                frequency: None,
                channel: None,
            };
            let done = cur;
            if done.ssid.as_str().is_empty() {
            } else {
                let ghost before = nets@;
                nets.push(done);
                assert(networks_view(nets@) =~= networks_view(before).push(network_view(done)));
            }
            cur = fresh;
        } else {
            if keyed_exec(t.as_slice(), "Authentication", sep.as_slice()) {
                let v = netsh_value_exec(t.as_slice(), sep.as_slice());
                cur.security = string_of(v.as_slice());
            }
            if keyed_exec(t.as_slice(), "Signal", sep.as_slice()) {
                let v = netsh_value_exec(t.as_slice(), sep.as_slice());
                let cleaned = trim_end_char_exec(v.as_slice(), '%');
                cur.signal = parse_i32_chars(cleaned.as_slice());
            }
            if keyed_exec(t.as_slice(), "Channel", sep.as_slice()) {
                let v = netsh_value_exec(t.as_slice(), sep.as_slice());
                match parse_i32_chars(v.as_slice()) {
                    Some(c) => {
                        cur.channel = Some(c);
                        cur.frequency = channel_to_frequency(c);
                    },
                    None => {},
                }
            }
        }
        i = i + 1;
    }
    assert(sl.subrange(0, sl.len() as int) =~= sl);
    if !cur.ssid.as_str().is_empty() {
        let ghost before = nets@;
        nets.push(cur);
        assert(networks_view(nets@) =~= networks_view(before).push(network_view(cur)));
    }
    nets
}

/// The value after the first `:` of `t`, trimmed.
pub open spec fn colon_value(t: Seq<char>) -> Seq<char> {
    match after_first(t, seq![':']) {
        Some(v) => trim(v),
        None => Seq::empty(),
    }
}

fn colon_value_exec(t: &[char]) -> (r: Vec<char>)
    ensures
        r@ == colon_value(t@),
{
    let colon = [':'];
    assert(colon@ =~= seq![':']);
    match after_first_exec(t, &colon) {
        Some(v) => trim_chars(v.as_slice()),
        None => Vec::new(),
    }
}

/// `(connected, ssid)` after the lines of `netsh wlan show interfaces`:
/// the last `State` line says whether the adapter is connected, the last
/// usable `SSID` line names the network.
pub open spec fn netsh_interface_state(lines: Seq<Seq<char>>) -> (bool, Option<Seq<char>>)
    decreases lines.len(),
{
    if lines.len() == 0 {
        (false, None)
    } else {
        let (connected, ssid) = netsh_interface_state(lines.drop_last());
        let t = trim(lines.last());
        let c = if starts_with(t, "State"@) && has_char(t, ':') {
            has_part(lower_of(t), "connected"@)
        } else {
            connected
        };
        let v = colon_value(t);
        let s = if starts_with(t, "SSID"@) && has_char(t, ':') && v.len() > 0 && !has_part(v, "BSSID"@) {
            Some(v)
        } else {
            ssid
        };
        (c, s)
    }
}

pub open spec fn connected_ssid_windows_of(text: Seq<char>) -> Option<Seq<char>> {
    let (connected, ssid) = netsh_interface_state(lines_of(text));
    if connected {
        ssid
    } else {
        None
    }
}

/// Whether a `State` line, given in lower case, mentions `connected`.
pub fn says_connected(lowered: &str) -> (r: bool)
    ensures
        r == has_part(lowered@, "connected"@),
{
    let lc = chars_of(lowered);
    let word = chars_of("connected");
    has_part_exec(lc.as_slice(), word.as_slice())
}

/// The network that the adapter is connected to, from the output of
/// `netsh wlan show interfaces`.
pub fn connected_ssid_windows(output: &str) -> (r: Option<String>)
    ensures
        match connected_ssid_windows_of(output@) {
            Some(v) => r is Some && r->0@ == v,
            None => r is None,
        },
{
    let cs = chars_of(output);
    let lines = split_chars(&cs, '\n');
    let ghost sl = lines_of(output@);
    let state_key = chars_of("State");
    let ssid_key = chars_of("SSID");
    let bssid = chars_of("BSSID");
    let mut connected = false;
    let mut ssid: Option<Vec<char>> = None;
    let mut i: usize = 0;
    while i < lines.len()
        invariant
            i <= lines@.len() == sl.len(),
            sl == lines_of(output@),
            state_key@ == "State"@,
            ssid_key@ == "SSID"@,
            bssid@ == "BSSID"@,
            forall|k: int| 0 <= k < lines@.len() ==> (#[trigger] lines@[k])@ == sl[k],
            netsh_interface_state(sl.subrange(0, i as int)) == (connected, match ssid {
                Some(v) => Some(v@),
                None => None,
            }),
        decreases lines@.len() - i,
    {
        assert(sl.subrange(0, i + 1).drop_last() =~= sl.subrange(0, i as int));
        assert(sl.subrange(0, i + 1).last() == lines@[i as int]@);
        let t = trim_chars(lines[i].as_slice());
        if starts_with_exec(t.as_slice(), state_key.as_slice()) && has_char_exec(t.as_slice(), ':') {
            let lowered = lowercase(string_of(t.as_slice()).as_str());
            connected = says_connected(lowered.as_str());
        }
        let v = colon_value_exec(t.as_slice());
        if starts_with_exec(t.as_slice(), ssid_key.as_slice()) && has_char_exec(t.as_slice(), ':') && v.len() > 0
            && !has_part_exec(v.as_slice(), bssid.as_slice()) {
            ssid = Some(v);
        }
        i = i + 1;
    }
    assert(sl.subrange(0, sl.len() as int) =~= sl);
    if connected {
        match ssid {
            Some(v) => Some(string_of(v.as_slice())),
            None => None,
        }
    } else {
        None
    }
}

/// The network named by one line of `airport -I`.
pub open spec fn airport_ssid_line(line: Seq<char>) -> Option<Seq<char>> {
    let t = trim(line);
    if starts_with(t, "SSID:"@) && colon_value(t).len() > 0 {
        Some(colon_value(t))
    } else {
        None
    }
}

/// The network named by one line of `nmcli -t -f ACTIVE,SSID`.
pub open spec fn nmcli_active_line(line: Seq<char>) -> Option<Seq<char>> {
    if starts_with(line, "yes:"@) && colon_value(line).len() > 0 {
        Some(colon_value(line))
    } else {
        None
    }
}

pub open spec fn airport_ssid_fn() -> spec_fn(Seq<char>) -> Option<Seq<char>> {
    |l: Seq<char>| airport_ssid_line(l)
}

pub open spec fn nmcli_active_fn() -> spec_fn(Seq<char>) -> Option<Seq<char>> {
    |l: Seq<char>| nmcli_active_line(l)
}

/// The connected network from the output of `airport -I` (macOS) or
/// `nmcli -t -f ACTIVE,SSID dev wifi` (otherwise): the first line naming one.
pub fn connected_ssid_from(macos: bool, output: &str) -> (r: Option<String>)
    ensures
        match first_of(collect_lines(lines_of(output@), if macos {
            airport_ssid_fn()
        } else {
            nmcli_active_fn()
        })) {
            Some(v) => r is Some && r->0@ == v,
            None => r is None,
        },
{
    let cs = chars_of(output);
    let lines = split_chars(&cs, '\n');
    let ghost sl = lines_of(output@);
    let ghost f = if macos {
        airport_ssid_fn()
    } else {
        nmcli_active_fn()
    };
    let key = if macos {
        chars_of("SSID:")
    } else {
        chars_of("yes:")
    };
    let mut i: usize = 0;
    while i < lines.len()
        invariant
            i <= lines@.len() == sl.len(),
            sl == lines_of(output@),
            f == if macos {
                airport_ssid_fn()
            } else {
                nmcli_active_fn()
            },
            key@ == if macos {
                "SSID:"@
            } else {
                "yes:"@
            },
            forall|k: int| 0 <= k < lines@.len() ==> (#[trigger] lines@[k])@ == sl[k],
            collect_lines(sl.subrange(0, i as int), f).len() == 0,
        decreases lines@.len() - i,
    {
        assert(sl.subrange(0, i + 1).drop_last() =~= sl.subrange(0, i as int));
        let t = if macos {
            trim_chars(lines[i].as_slice())
        } else {
            sub_chars(lines[i].as_slice(), 0, lines[i].len())
        };
        assert(!macos ==> t@ =~= sl[i as int]);
        if starts_with_exec(t.as_slice(), key.as_slice()) {
            let v = colon_value_exec(t.as_slice());
            if v.len() > 0 {
                proof {
                    assert(f(sl[i as int]) == Some(v@));
                    assert(collect_lines(sl.subrange(0, i + 1), f) == seq![v@]);
                    crate::discovery::lemma_collect_prefix(sl, i + 1, f);
                }
                return Some(string_of(v.as_slice()));
            }
        }
        assert(f(sl[i as int]) is None);
        i = i + 1;
    }
    assert(sl.subrange(0, sl.len() as int) =~= sl);
    None
}

/// A word that `is_bssid` accepts.
pub open spec fn bssid_like(w: Seq<char>) -> bool {
    vstd::utf8::encode_utf8(w).len() as usize == 17 && count_char(w, ':') == 5
}

/// The words joined by single spaces.
pub open spec fn join_space(ws: Seq<Seq<char>>) -> Seq<char>
    decreases ws.len(),
{
    if ws.len() == 0 {
        Seq::empty()
    } else if ws.len() == 1 {
        ws[0]
    } else {
        join_space(ws.drop_last()) + seq![' '] + ws.last()
    }
}

/// The part of `line` before the first occurrence of `w`, or all of it.
pub open spec fn before_first(line: Seq<char>, w: Seq<char>) -> Seq<char> {
    if exists|i: int| first_at(line, w, i) {
        line.subrange(0, choose|i: int| first_at(line, w, i))
    } else {
        line
    }
}

/// The network that one line of `airport -s` describes: the first word
/// shaped like a hardware address splits the name before it from the
/// signal, channel and security columns after it.
pub open spec fn airport_line(line: Seq<char>) -> Option<NetworkView> {
    let w = words(line);
    if exists|k: int| 0 <= k < w.len() && bssid_like(w[k]) {
        let b = choose|k: int| 0 <= k < w.len() && bssid_like(w[k]) && forall|j: int| 0 <= j < k ==> !bssid_like(w[j]);
        let ssid = trim(before_first(line, w[b]));
        let rssi = if w.len() - b > 1 {
            parse_i32(w[b + 1])
        } else {
            None
        };
        let channel = if w.len() - b > 2 {
            parse_i32(split_on(w[b + 2], ',')[0])
        } else {
            None
        };
        let security = if w.len() - b > 5 {
            join_space(w.subrange(b + 5, w.len() as int))
        } else {
            "Unknown"@
        };
        Some((or_hidden(ssid), security, rssi, freq_opt(channel), channel))
    } else {
        None
    }
}

pub open spec fn airport_fn() -> spec_fn(Seq<char>) -> Option<NetworkView> {
    |l: Seq<char>| airport_line(l)
}

/// The networks of an `airport -s` listing: every line after the header.
pub open spec fn airport_networks(text: Seq<char>) -> Seq<NetworkView> {
    collect_lines(lines_of(text).drop_first(), airport_fn())
}

fn join_space_exec(ws: &Vec<Vec<char>>, lo: usize) -> (r: String)
    requires
        lo <= ws@.len(),
    ensures
        r@ == join_space(ws@.subrange(lo as int, ws@.len() as int).map_values(|v: Vec<char>| v@)),
{
    let mut out = String::new();
    let mut i: usize = lo;
    assert(ws@.subrange(lo as int, lo as int).map_values(|v: Vec<char>| v@) =~= Seq::<Seq<char>>::empty());
    while i < ws.len()
        invariant
            lo <= i <= ws@.len(),
            out@ == join_space(ws@.subrange(lo as int, i as int).map_values(|v: Vec<char>| v@)),
        decreases ws@.len() - i,
    {
        let ghost prev = ws@.subrange(lo as int, i as int).map_values(|v: Vec<char>| v@);
        let ghost next = ws@.subrange(lo as int, i + 1).map_values(|v: Vec<char>| v@);
        assert(next.drop_last() =~= prev);
        assert(next.last() == ws@[i as int]@);
        if i > lo {
            push_char(&mut out, ' ');
        }
        let piece = string_of(ws[i].as_slice());
        push_str(&mut out, piece.as_str());
        if i == lo {
            assert(next.len() == 1);
            assert(out@ =~= join_space(next));
        } else {
            assert(out@ =~= join_space(next));
        }
        i = i + 1;
    }
    out
}

fn airport_from_line(line: &[char]) -> (r: Option<WifiNetwork>)
    ensures
        match airport_line(line@) {
            Some(v) => r is Some && network_view(r->0) == v,
            None => r is None,
        },
{
    let w = split_words(line);
    let ghost sw = words(line@);
    assert(w@.map_values(|v: Vec<char>| v@) =~= sw);
    let mut b: usize = 0;
    let mut found = false;
    while b < w.len() && !found
        invariant
            b <= w@.len() == sw.len(),
            forall|k: int| 0 <= k < w@.len() ==> (#[trigger] w@[k])@ == sw[k],
            forall|j: int| 0 <= j < b ==> !bssid_like(sw[j]),
            found ==> b < w@.len() && bssid_like(sw[b as int]),
        decreases w@.len() - b + if found {
            0int
        } else {
            1int
        },
    {
        let token = string_of(w[b].as_slice());
        if is_bssid(token.as_str()) {
            found = true;
        } else {
            b = b + 1;
        }
    }
    if !found {
        return None;
    }
    proof {
        let c = choose|k: int| 0 <= k < sw.len() && bssid_like(sw[k]) && forall|j: int| 0 <= j < k ==> !bssid_like(sw[j]);
        if c < b {
        }
        if b < c {
        }
        assert(c == b);
    }
    let ssid_part = match first_occurrence(line, w[b].as_slice()) {
        Some(i) => {
            proof {
                let c = choose|c: int| first_at(line@, sw[b as int], c);
                if c < i {
                }
                if i < c {
                }
                assert(c == i);
            }
            sub_chars(line, 0, i)
        },
        None => {
            assert(!exists|i: int| first_at(line@, sw[b as int], i));
            sub_chars(line, 0, line.len())
        },
    };
    assert(line@.subrange(0, line@.len() as int) =~= line@);
    let ssid = trim_chars(ssid_part.as_slice());
    let rssi = if w.len() - b > 1 {
        parse_i32_chars(w[b + 1].as_slice())
    } else {
        None
    };
    let channel = if w.len() - b > 2 {
        let pieces = split_chars(w[b + 2].as_slice(), ',');
        proof {
            crate::text::lemma_split_on_len(sw[b + 2], ',');
        }
        parse_i32_chars(pieces[0].as_slice())
    } else {
        None
    };
    let security = if w.len() - b > 5 {
        let j = join_space_exec(&w, b + 5);
        assert(w@.subrange(b + 5, w@.len() as int).map_values(|v: Vec<char>| v@) =~= sw.subrange(b + 5, sw.len() as int));
        j
    } else {
        owned("Unknown")
    };
    Some(WifiNetwork {
        ssid: or_hidden_exec(ssid.as_slice()),
        security,
        signal: rssi,
        frequency: freq_opt_exec(channel),
        channel,
    })
}

/// The networks in the output of `airport -s`, in order.
pub fn parse_airport_networks(output: &str) -> (r: Vec<WifiNetwork>)
    ensures
        networks_view(r@) == airport_networks(output@),
{
    let cs = chars_of(output);
    let lines = split_chars(&cs, '\n');
    proof {
        crate::text::lemma_split_on_len(output@, '\n');
    }
    let ghost sl = lines_of(output@).drop_first();
    let ghost f = airport_fn();
    let mut out: Vec<WifiNetwork> = Vec::new();
    let mut i: usize = 1;
    assert(sl.subrange(0, 0) =~= Seq::<Seq<char>>::empty());
    while i < lines.len()
        invariant
            1 <= i <= lines@.len(),
            sl.len() + 1 == lines@.len(),
            sl == lines_of(output@).drop_first(),
            f == airport_fn(),
            forall|k: int| 0 <= k < sl.len() ==> lines@[k + 1]@ == #[trigger] sl[k],
            networks_view(out@) == collect_lines(sl.subrange(0, i - 1), f),
        decreases lines@.len() - i,
    {
        assert(sl.subrange(0, i as int).drop_last() =~= sl.subrange(0, i - 1));
        assert(sl.subrange(0, i as int).last() == sl[i - 1]);
        assert(lines@[i as int]@ == sl[i - 1]);
        match airport_from_line(lines[i].as_slice()) {
            Some(n) => {
                let ghost before = out@;
                out.push(n);
                assert(networks_view(out@) =~= networks_view(before).push(network_view(n)));
            },
            None => {},
        }
        i = i + 1;
    }
    assert(sl.subrange(0, sl.len() as int) =~= sl);
    out
}

/// What the standard base64 alphabet, with padding, makes of some bytes.
pub uninterp spec fn base64_of(b: Seq<u8>) -> Seq<char>;

/// Relies on `base64::Engine::encode` with the `STANDARD` engine: padded
/// base64, four characters for each started group of three bytes.
#[verifier::external_body]
fn base64_standard(b: &[u8]) -> (r: String)
    requires
        b@.len() <= usize::MAX / 2,
    ensures
        r@ == base64_of(b@),
        r@.len() == 4 * ((b@.len() + 2) / 3),
{
    base64::engine::general_purpose::STANDARD.encode(b)
}

/// A rendered report, as text that can travel in a JSON reply.
pub fn encode_report(pdf: &[u8]) -> (r: String)
    requires
        pdf@.len() <= usize::MAX / 2,
    ensures
        r@ == base64_of(pdf@),
        r@.len() == 4 * ((pdf@.len() + 2) / 3),
{
    base64_standard(pdf)
}

} // verus!
