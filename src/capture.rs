//! Capture set-up: the filter expression handed to the capture backend, the
//! capture tool's candidate locations and the parsing of what it prints.

use vstd::prelude::*;

use crate::dissect::FrameSummary;
use crate::text::{
    chars_of, lower_of, lowercase, occurs_at, occurs_at_exec, owned, parse_unsigned,
    parse_unsigned_chars, push_str, same_text, split_chars, split_on, string_of, sub_chars, trim,
    trim_chars,
};

verus! {

/// The filter clause for one protocol name, already in lower case.
pub open spec fn clause_of(name: Seq<char>) -> Option<Seq<char>> {
    if name == "tcp"@ {
        Some("tcp"@)
    } else if name == "udp"@ {
        Some("udp"@)
    } else if name == "icmp"@ {
        Some("icmp or icmp6"@)
    } else if name == "arp"@ {
        Some("arp"@)
    } else if name == "dns"@ {
        Some("(udp port 53 or tcp port 53)"@)
    } else {
        None
    }
}

/// The clauses of the recognised names among `names`, in order; the names
/// are compared in lower case, and others are dropped.
pub open spec fn clauses_of(names: Seq<Seq<char>>) -> Seq<Seq<char>>
    decreases names.len(),
{
    if names.len() == 0 {
        Seq::empty()
    } else {
        let p = clauses_of(names.drop_last());
        match clause_of(lower_of(names.last())) {
            Some(c) => p.push(c),
            None => p,
        }
    }
}

/// The clauses joined by ` or `.
pub open spec fn join_or(cs: Seq<Seq<char>>) -> Seq<char>
    decreases cs.len(),
{
    if cs.len() == 0 {
        Seq::empty()
    } else if cs.len() == 1 {
        cs[0]
    } else {
        join_or(cs.drop_last()) + " or "@ + cs.last()
    }
}

/// The filter for a list of protocol names: their clauses OR-joined, or
/// none when no name is recognised.
pub open spec fn protocol_filter_of(names: Seq<Seq<char>>) -> Option<Seq<char>> {
    if clauses_of(names).len() == 0 {
        None
    } else {
        Some(join_or(clauses_of(names)))
    }
}

/// The filter clause for one protocol name given in lower case.
pub fn protocol_clause(name: &str) -> (r: Option<String>)
    ensures
        match clause_of(name@) {
            Some(c) => r is Some && r->0@ == c,
            None => r is None,
        },
{
    if same_text(name, "tcp") {
        Some(owned("tcp"))
    } else if same_text(name, "udp") {
        Some(owned("udp"))
    } else if same_text(name, "icmp") {
        Some(owned("icmp or icmp6"))
    } else if same_text(name, "arp") {
        Some(owned("arp"))
    } else if same_text(name, "dns") {
        Some(owned("(udp port 53 or tcp port 53)"))
    } else {
        None
    }
}

/// The capture filter for the protocol names a user picked (`tcp`, `udp`,
/// `icmp`, `arp`, `dns`, in any case): their clauses OR-joined in the order
/// given, or `None` when none is recognised.
pub fn build_protocol_filter(protocols: &[String]) -> (r: Option<String>)
    ensures
        match protocol_filter_of(protocols@.map_values(|p: String| p@)) {
            Some(f) => r is Some && r->0@ == f,
            None => r is None,
        },
{
    let ghost names = protocols@.map_values(|p: String| p@);
    let mut out = String::new();
    let mut any = false;
    let mut i: usize = 0;
    while i < protocols.len()
        invariant
            i <= protocols@.len(),
            names == protocols@.map_values(|p: String| p@),
            any == (clauses_of(names.subrange(0, i as int)).len() > 0),
            out@ == join_or(clauses_of(names.subrange(0, i as int))),
        decreases protocols@.len() - i,
    {
        let ghost pre = names.subrange(0, i as int);
        assert(names.subrange(0, i + 1).drop_last() =~= pre);
        assert(names.subrange(0, i + 1).last() == protocols@[i as int]@);
        let lowered = lowercase(protocols[i].as_str());
        match protocol_clause(lowered.as_str()) {
            Some(c) => {
                let ghost cs = clauses_of(pre);
                if any {
                    push_str(&mut out, " or ");
                }
                push_str(&mut out, c.as_str());
                proof {
                    let ncs = cs.push(c@);
                    assert(ncs.drop_last() =~= cs);
                    if !any {
                        assert(out@ =~= c@);
                    } else {
                        assert(out@ =~= join_or(cs) + " or "@ + c@);
                    }
                }
                any = true;
            },
            None => {},
        }
        i = i + 1;
    }
    assert(names.subrange(0, protocols@.len() as int) =~= names);
    if any {
        Some(out)
    } else {
        None
    }
}

/// The expression handed to the capture backend: the protocol clause and a
/// user filter (blank counts as absent) AND-combined when both are present,
/// either alone as it is, or no filter at all.
pub open spec fn combined_filter_of(proto: Option<Seq<char>>, user: Option<Seq<char>>) -> Option<Seq<char>> {
    let u = match user {
        Some(t) => if trim(t).len() > 0 {
            Some(trim(t))
        } else {
            None
        },
        None => None,
    };
    match (proto, u) {
        (Some(p), Some(u)) => Some(p + " and ("@ + u + ")"@),
        (Some(p), None) => Some(p),
        (None, Some(u)) => Some(u),
        (None, None) => None,
    }
}

/// Combines the protocol filter with the user's raw filter.
pub fn combine_filters(proto: Option<String>, user: Option<&str>) -> (r: Option<String>)
    ensures
        match combined_filter_of(
            match proto {
                Some(p) => Some(p@),
                None => None,
            },
            match user {
                Some(u) => Some(u@),
                None => None,
            },
        ) {
            Some(f) => r is Some && r->0@ == f,
            None => r is None,
        },
{
    let u = match user {
        Some(t) => {
            let cs = chars_of(t);
            let tc = trim_chars(&cs);
            if tc.len() > 0 {
                Some(string_of(&tc))
            } else {
                None
            }
        },
        None => None,
    };
    match (proto, u) {
        (Some(p), Some(u)) => {
            let mut out = p;
            push_str(&mut out, " and (");
            push_str(&mut out, u.as_str());
            push_str(&mut out, ")");
            Some(out)
        },
        (Some(p), None) => Some(p),
        (None, Some(u)) => Some(u),
        (None, None) => None,
    }
}

/// Where the capture tool is looked for, in order.
pub fn tshark_path_candidates() -> (r: Vec<String>)
    ensures
        r@.len() == 3,
        r@[0]@ == "tshark"@,
        r@[1]@ == "C:\\\\Program Files\\\\Wireshark\\\\tshark.exe"@,
        r@[2]@ == "C:\\\\Program Files (x86)\\\\Wireshark\\\\tshark.exe"@,
{
    let mut paths: Vec<String> = Vec::new();
    paths.push(owned("tshark"));
    paths.push(owned("C:\\\\Program Files\\\\Wireshark\\\\tshark.exe"));
    paths.push(owned("C:\\\\Program Files (x86)\\\\Wireshark\\\\tshark.exe"));
    paths
}

/// Field `i` of a tab-separated record, trimmed; empty when missing.
pub open spec fn field_of(f: Seq<Seq<char>>, i: int) -> Seq<char> {
    if i < f.len() {
        trim(f[i])
    } else {
        Seq::empty()
    }
}

/// `a`, or `b` when `a` is empty.
pub open spec fn or_else(a: Seq<char>, b: Seq<char>) -> Seq<char> {
    if a.len() > 0 {
        a
    } else {
        b
    }
}

/// The summary of one record that the capture tool prints: time, IPv4
/// source, IPv4 destination, IPv6 source, IPv6 destination, protocol, length
/// and info, separated by tabs. Blank fields fall back to `now`, the IPv6
/// address, `unknown`, `UNKNOWN`, 0 and `No info`.
pub open spec fn capture_record_of(line: Seq<char>, now: Seq<char>) -> (Seq<char>, Seq<char>, Seq<char>, Seq<char>, nat, Seq<char>) {
    let f = split_on(line, '\t');
    (
        or_else(field_of(f, 0), now),
        or_else(field_of(f, 1), or_else(field_of(f, 3), "unknown"@)),
        or_else(field_of(f, 2), or_else(field_of(f, 4), "unknown"@)),
        or_else(field_of(f, 5), "UNKNOWN"@),
        match parse_unsigned(field_of(f, 6), 0xffff_ffff_ffff_ffff) {
            Some(v) => if v <= usize::MAX {
                v
            } else {
                0
            },
            None => 0,
        },
        or_else(field_of(f, 7), "No info"@),
    )
}

fn field_exec(f: &Vec<Vec<char>>, i: usize) -> (r: Vec<char>)
    ensures
        r@ == field_of(f@.map_values(|v: Vec<char>| v@), i as int),
{
    if i < f.len() {
        trim_chars(f[i].as_slice())
    } else {
        Vec::new()
    }
}

fn or_else_exec(a: Vec<char>, b: Vec<char>) -> (r: Vec<char>)
    ensures
        r@ == or_else(a@, b@),
{
    if a.len() > 0 {
        a
    } else {
        b
    }
}

/// Reads one record that the capture tool prints; `now` stands in for a
/// missing time.
pub fn parse_capture_line(line: &str, now: String) -> (r: FrameSummary)
    ensures
        (r.time@, r.src@, r.dest@, r.protocol@, r.length as nat, r.info@) == capture_record_of(line@, now@),
{
    let cs = chars_of(line);
    let f = split_chars(&cs, '\t');
    let ghost sf = split_on(line@, '\t');
    assert(f@.map_values(|v: Vec<char>| v@) =~= sf);
    let unknown = chars_of("unknown");
    let time = or_else_exec(field_exec(&f, 0), chars_of(now.as_str()));
    let src = or_else_exec(field_exec(&f, 1), or_else_exec(field_exec(&f, 3), chars_of("unknown")));
    let dest = or_else_exec(field_exec(&f, 2), or_else_exec(field_exec(&f, 4), unknown));
    let protocol = or_else_exec(field_exec(&f, 5), chars_of("UNKNOWN"));
    let len_field = field_exec(&f, 6);
    let length: usize = match parse_unsigned_chars(len_field.as_slice(), 0xffff_ffff_ffff_ffff) {
        Some(v) => if v as u128 <= usize::MAX as u128 {
            v as usize
        } else {
            0
        },
        None => 0,
    };
    let info = or_else_exec(field_exec(&f, 7), chars_of("No info"));
    FrameSummary {
        time: string_of(&time),
        src: string_of(&src),
        dest: string_of(&dest),
        protocol: string_of(&protocol),
        length,
        info: string_of(&info),
    }
}

/// Reads one record that the capture tool prints, with the local time of
/// day standing in for a missing time.
pub fn parse_tshark_line(line: &str) -> (r: FrameSummary)
    ensures
        field_of(split_on(line@, '\t'), 0).len() > 0 ==> r.time@ == field_of(split_on(line@, '\t'), 0),
        r.src@ == capture_record_of(line@, Seq::empty()).1,
        r.dest@ == capture_record_of(line@, Seq::empty()).2,
        r.protocol@ == capture_record_of(line@, Seq::empty()).3,
        r.length as nat == capture_record_of(line@, Seq::empty()).4,
        r.info@ == capture_record_of(line@, Seq::empty()).5,
{
    parse_capture_line(line, crate::dissect::local_time_text())
}

/// The first capture-tool location whose probe succeeded; `works[k]` tells
/// whether `candidates[k]` answered.
pub fn find_tshark(candidates: &Vec<String>, works: &[bool]) -> (r: Option<String>)
    requires
        candidates@.len() == works@.len(),
    ensures
        r is Some <==> exists|k: int| 0 <= k < works@.len() && works@[k],
        r is Some ==> exists|k: int| 0 <= k < works@.len() && works@[k] && r->0 == candidates@[k]
            && forall|j: int| 0 <= j < k ==> !works@[j],
{
    let mut i: usize = 0;
    while i < works.len()
        invariant
            candidates@.len() == works@.len(),
            i <= works@.len(),
            forall|j: int| 0 <= j < i ==> !works@[j],
        decreases works@.len() - i,
    {
        if works[i] {
            return Some(candidates[i].clone());
        }
        i = i + 1;
    }
    None
}

/// Whether any capture-tool location answered.
pub fn tshark_available(works: &[bool]) -> (r: bool)
    ensures
        r == exists|k: int| 0 <= k < works@.len() && works@[k],
{
    let mut i: usize = 0;
    while i < works.len()
        invariant
            i <= works@.len(),
            forall|j: int| 0 <= j < i ==> !works@[j],
        decreases works@.len() - i,
    {
        if works[i] {
            return true;
        }
        i = i + 1;
    }
    false
}

/// A capture interface as listed to the user.
#[derive(Debug, Clone)]
pub struct CaptureInterface {
    pub name: String,
    pub description: Option<String>,
}

/// `k` is the first place where `p` occurs in `s`.
pub open spec fn first_at(s: Seq<char>, p: Seq<char>, k: int) -> bool {
    occurs_at(s, p, k) && forall|j: int| 0 <= j < k ==> !occurs_at(s, p, j)
}

/// `k` is the last place where `p` occurs in `s`.
pub open spec fn last_at(s: Seq<char>, p: Seq<char>, k: int) -> bool {
    occurs_at(s, p, k) && forall|j: int| k < j ==> !occurs_at(s, p, j)
}

/// `(name, description)` from the part of a listing line after its number:
/// `name (description)` when it ends in a parenthesis opened by the last
/// ` (`, else all of it as the name.
pub open spec fn name_and_description(rest: Seq<char>) -> (Seq<char>, Option<Seq<char>>) {
    if exists|k: int| last_at(rest, " ("@, k) {
        let k = choose|k: int| last_at(rest, " ("@, k);
        if rest.len() > 0 && rest.last() == ')' && k + 2 < rest.len() {
            (trim(rest.subrange(0, k)), Some(trim(rest.subrange(k + 2, rest.len() - 1))))
        } else {
            (trim(rest), None)
        }
    } else {
        (trim(rest), None)
    }
}

/// The interface that one line `N. name (description)` of the capture
/// tool's interface listing gives.
pub open spec fn interface_line(line: Seq<char>) -> Option<(Seq<char>, Option<Seq<char>>)> {
    let t = trim(line);
    if exists|i: int| first_at(t, ". "@, i) {
        let i = choose|i: int| first_at(t, ". "@, i);
        let nd = name_and_description(t.subrange(i + 2, t.len() as int));
        if nd.0.len() > 0 {
            Some(nd)
        } else {
            None
        }
    } else {
        None
    }
}

pub open spec fn interface_fn() -> spec_fn(Seq<char>) -> Option<(Seq<char>, Option<Seq<char>>)> {
    |l: Seq<char>| interface_line(l)
}

pub open spec fn interface_view(c: CaptureInterface) -> (Seq<char>, Option<Seq<char>>) {
    (c.name@, match c.description {
        Some(d) => Some(d@),
        None => None,
    })
}

pub(crate) fn first_occurrence(s: &[char], p: &[char]) -> (r: Option<usize>)
    ensures
        match r {
            Some(i) => first_at(s@, p@, i as int),
            None => forall|i: int| !occurs_at(s@, p@, i),
        },
{
    let mut k: usize = 0;
    while k < s.len()
        invariant
            k <= s@.len(),
            forall|j: int| 0 <= j < k ==> !occurs_at(s@, p@, j),
        decreases s@.len() - k,
    {
        if occurs_at_exec(s, p, k) {
            return Some(k);
        }
        k = k + 1;
    }
    if occurs_at_exec(s, p, k) {
        return Some(k);
    }
    assert forall|i: int| !occurs_at(s@, p@, i) by {
        if 0 <= i && i + p@.len() <= s@.len() {
            assert(i <= k);
        }
    }
    None
}

fn last_occurrence(s: &[char], p: &[char]) -> (r: Option<usize>)
    ensures
        match r {
            Some(i) => last_at(s@, p@, i as int),
            None => forall|i: int| !occurs_at(s@, p@, i),
        },
{
    let mut k: usize = s.len();
    assert forall|j: int| k < j implies !occurs_at(s@, p@, j) by {}
    loop
        invariant
            k <= s@.len(),
            forall|j: int| k < j ==> !occurs_at(s@, p@, j),
        decreases k,
    {
        if occurs_at_exec(s, p, k) {
            return Some(k);
        }
        if k == 0 {
            assert forall|i: int| !occurs_at(s@, p@, i) by {
                if i == 0 {
                }
            }
            return None;
        }
        k = k - 1;
    }
}

/// Reads one line of the capture tool's interface listing.
pub fn interface_from_line(line: &[char]) -> (r: Option<CaptureInterface>)
    ensures
        match interface_line(line@) {
            Some(v) => r is Some && interface_view(r->0) == v,
            None => r is None,
        },
{
    let t = trim_chars(line);
    let dot = ['.', ' '];
    let paren = [' ', '('];
    assert(dot@ =~= ". "@) by {
        reveal_strlit(". ");
    }
    assert(paren@ =~= " ("@) by {
        reveal_strlit(" (");
    }
    let i = match first_occurrence(t.as_slice(), &dot) {
        Some(i) => i,
        None => return None,
    };
    proof {
        let c = choose|c: int| first_at(t@, ". "@, c);
        if c < i {
        }
        if i < c {
        }
        assert(c == i);
    }
    let tl = t.len();
    assert(i + 2 <= tl);
    let rest = sub_chars(t.as_slice(), i + 2, tl);
    let (name, description) = match last_occurrence(rest.as_slice(), &paren) {
        Some(k) => {
            proof {
                let c = choose|c: int| last_at(rest@, " ("@, c);
                if c < k {
                }
                if k < c {
                }
                assert(c == k);
            }
            if rest.len() > 0 && rest[rest.len() - 1] == ')' && k + 2 < rest.len() {
                let n = trim_chars(sub_chars(rest.as_slice(), 0, k).as_slice());
                let d = trim_chars(sub_chars(rest.as_slice(), k + 2, rest.len() - 1).as_slice());
                (n, Some(string_of(d.as_slice())))
            } else {
                (trim_chars(rest.as_slice()), None)
            }
        },
        None => (trim_chars(rest.as_slice()), None),
    };
    if name.len() == 0 {
        return None;
    }
    Some(CaptureInterface { name: string_of(name.as_slice()), description })
}

/// The interfaces of the capture tool's listing, in order.
pub fn parse_interface_list(text: &str) -> (r: Vec<CaptureInterface>)
    ensures
        r@.map_values(|c: CaptureInterface| interface_view(c)) == crate::discovery::collect_lines(
            crate::discovery::lines_of(text@),
            interface_fn(),
        ),
{
    let cs = chars_of(text);
    let lines = split_chars(&cs, '\n');
    let ghost sl = crate::discovery::lines_of(text@);
    let ghost f = interface_fn();
    let mut out: Vec<CaptureInterface> = Vec::new();
    let mut i: usize = 0;
    while i < lines.len()
        invariant
            i <= lines@.len() == sl.len(),
            sl == crate::discovery::lines_of(text@),
            f == interface_fn(),
            forall|k: int| 0 <= k < lines@.len() ==> (#[trigger] lines@[k])@ == sl[k],
            out@.map_values(|c: CaptureInterface| interface_view(c)) == crate::discovery::collect_lines(sl.subrange(0, i as int), f),
        decreases lines@.len() - i,
    {
        assert(sl.subrange(0, i + 1).drop_last() =~= sl.subrange(0, i as int));
        assert(sl.subrange(0, i + 1).last() == lines@[i as int]@);
        match interface_from_line(lines[i].as_slice()) {
            Some(c) => {
                let ghost before = out@;
                out.push(c);
                assert(out@.map_values(|c: CaptureInterface| interface_view(c)) =~= before.map_values(
                    |c: CaptureInterface| interface_view(c),
                ).push(interface_view(c)));
            },
            None => {},
        }
        i = i + 1;
    }
    assert(sl.subrange(0, sl.len() as int) =~= sl);
    out
}

/// What one poll of a live capture source brought.
#[derive(Debug, Clone, Copy, PartialEq, Eq, Structural)]
pub enum PollOutcome {
    /// A frame or a record arrived.
    Frame,
    /// The poll timed out with nothing to read.
    TimedOut,
    /// The source failed.
    Failed,
}

/// What the capture loop does next.
#[derive(Debug, Clone, Copy, PartialEq, Eq, Structural)]
pub enum CaptureAction {
    /// Dissect what arrived, emit it, and poll again.
    Emit,
    /// Poll again.
    Poll,
    /// Report the error, then end the capture.
    FailAndStop,
    /// End the capture: cancellation was asked for.
    Stop,
}

/// The step of the capture loop after a poll. Cancellation is checked
/// before anything else; a timeout is not an error.
pub fn capture_action(cancel_requested: bool, outcome: PollOutcome) -> (r: CaptureAction)
    ensures
        r == if cancel_requested {
            CaptureAction::Stop
        } else {
            match outcome {
                PollOutcome::Frame => CaptureAction::Emit,
                PollOutcome::TimedOut => CaptureAction::Poll,
                PollOutcome::Failed => CaptureAction::FailAndStop,
            }
        },
{
    if cancel_requested {
        return CaptureAction::Stop;
    }
    match outcome {
        PollOutcome::Frame => CaptureAction::Emit,
        PollOutcome::TimedOut => CaptureAction::Poll,
        PollOutcome::Failed => CaptureAction::FailAndStop,
    }
}

/// Whether to try the capture tool after the native capture could not be
/// opened: only when the tool was found.
pub fn try_fallback(tool_available: bool) -> (r: bool)
    ensures
        r == tool_available,
{
    tool_available
}

/// The error when no capture could be opened: the native cause, and the
/// fallback's cause when the capture tool was tried too.
pub open spec fn open_failure_text(native: Seq<char>, fallback: Option<Seq<char>>) -> Seq<char> {
    "Unable to open capture: "@ + native + match fallback {
        Some(t) => ". TShark fallback also failed: "@ + t,
        None => Seq::empty(),
    }
}

/// The error when no capture could be opened, as `open_failure_text`
/// describes.
pub fn open_failure_message(native: &str, fallback: Option<&str>) -> (r: String)
    ensures
        r@ == open_failure_text(native@, match fallback {
            Some(t) => Some(t@),
            None => None,
        }),
{
    let mut out = owned("Unable to open capture: ");
    push_str(&mut out, native);
    match fallback {
        Some(t) => {
            push_str(&mut out, ". TShark fallback also failed: ");
            push_str(&mut out, t);
        },
        None => {},
    }
    out
}

} // verus!
