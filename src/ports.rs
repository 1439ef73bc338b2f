//! Port lists such as `22,80-82,443`.

use vstd::prelude::*;

use crate::text::{
    chars_of, parse_unsigned, parse_unsigned_chars, split_chars, split_on, sub_chars, trim,
    trim_chars,
};

verus! {

/// Why a port list was refused.
#[derive(Debug, Clone, Copy, PartialEq, Eq, Structural)]
pub enum PortError {
    /// A range `a-b` whose ends are not ports, or with `b < a`.
    InvalidRange,
    /// A single port that is not a number in `1..=65535`.
    InvalidPort,
    /// No port at all.
    Empty,
}

impl PortError {
    /// A message for the user.
    pub fn message(&self) -> (r: String)
        ensures
            r@.len() > 0,
    {
        let s = match self {
            PortError::InvalidRange => String::from_str("Invalid port range."),
            PortError::InvalidPort => String::from_str("Invalid port value."),
            PortError::Empty => String::from_str("No ports to scan."),
        };
        proof {
            reveal_strlit("Invalid port range.");
            reveal_strlit("Invalid port value.");
            reveal_strlit("No ports to scan.");
        }
        s
    }
}

pub open spec fn lacks(t: Seq<char>, c: char) -> bool {
    forall|k: int| 0 <= k < t.len() ==> t[k] != c
}

/// `i` is the position of the first `-` in `t`.
pub open spec fn first_dash_at(t: Seq<char>, i: int) -> bool {
    0 <= i < t.len() && t[i] == '-' && lacks(t.subrange(0, i), '-')
}

/// The ports `a..=b`.
pub open spec fn port_span(a: nat, b: nat) -> Set<int> {
    Set::new(|p: int| a <= p <= b)
}

/// The ports that one trimmed, non-empty token names: `n`, or `a-b` split at
/// the first `-`, each side trimmed.
pub open spec fn token_ports(t: Seq<char>) -> Result<Set<int>, PortError> {
    if lacks(t, '-') {
        match parse_unsigned(t, 65535) {
            Some(p) => if p == 0 {
                Err(PortError::InvalidPort)
            } else {
                Ok(set![p as int])
            },
            None => Err(PortError::InvalidPort),
        }
    } else {
        let i = choose|i: int| first_dash_at(t, i);
        let a = parse_unsigned(trim(t.subrange(0, i)), 65535);
        let b = parse_unsigned(trim(t.subrange(i + 1, t.len() as int)), 65535);
        if a is None || b is None || a->0 == 0 || b->0 == 0 || b->0 < a->0 {
            Err(PortError::InvalidRange)
        } else {
            Ok(port_span(a->0, b->0))
        }
    }
}

/// The ports of a sequence of comma-separated tokens; blank tokens are
/// skipped, and the first bad token decides the error.
pub open spec fn tokens_ports(toks: Seq<Seq<char>>) -> Result<Set<int>, PortError>
    decreases toks.len(),
{
    if toks.len() == 0 {
        Ok(Set::empty())
    } else {
        match tokens_ports(toks.drop_last()) {
            Err(e) => Err(e),
            Ok(acc) => {
                let t = trim(toks.last());
                if t.len() == 0 {
                    Ok(acc)
                } else {
                    match token_ports(t) {
                        Err(e) => Err(e),
                        Ok(ps) => Ok(acc.union(ps)),
                    }
                }
            },
        }
    }
}

/// The set of ports that a port list names.
pub open spec fn port_list_of(s: Seq<char>) -> Result<Set<int>, PortError> {
    match tokens_ports(split_on(s, ',')) {
        Err(e) => Err(e),
        Ok(ps) => if ps.is_empty() {
            Err(PortError::Empty)
        } else {
            Ok(ps)
        },
    }
}

/// The ports held in `v`.
pub open spec fn ports_in(v: Seq<u16>) -> Set<int> {
    Set::new(|p: int| exists|k: int| 0 <= k < v.len() && v[k] as int == p)
}

/// Every element is smaller than the next: sorted without repeats.
pub open spec fn strictly_increasing(v: Seq<u16>) -> bool {
    forall|i: int, j: int| 0 <= i < j < v.len() ==> v[i] < v[j]
}

proof fn lemma_tokens_err_stays(toks: Seq<Seq<char>>, i: int, e: PortError)
    requires
        0 <= i <= toks.len(),
        tokens_ports(toks.subrange(0, i)) == Err::<Set<int>, PortError>(e),
    ensures
        tokens_ports(toks) == Err::<Set<int>, PortError>(e),
    decreases toks.len() - i,
{
    if i < toks.len() {
        assert(toks.subrange(0, i + 1).drop_last() =~= toks.subrange(0, i));
        lemma_tokens_err_stays(toks, i + 1, e);
    } else {
        assert(toks.subrange(0, i) =~= toks);
    }
}

/// Reads one trimmed, non-empty token.
fn token_ports_exec(t: &[char]) -> (r: Result<(u16, u16), PortError>)
    requires
        t@.len() > 0,
    ensures
        match token_ports(t@) {
            Ok(ps) => r matches Ok((a, b)) && 1 <= a <= b && ps == port_span(a as nat, b as nat),
            Err(e) => r == Err::<(u16, u16), PortError>(e),
        },
{
    let mut i: usize = 0;
    while i < t.len() && t[i] != '-'
        invariant
            i <= t@.len(),
            lacks(t@.subrange(0, i as int), '-'),
        decreases t@.len() - i,
    {
        assert(lacks(t@.subrange(0, i + 1), '-')) by {
            assert forall|k: int| 0 <= k < i + 1 implies #[trigger] t@.subrange(0, i + 1)[k] != '-' by {
                if k < i {
                    assert(t@.subrange(0, i + 1)[k] == t@.subrange(0, i as int)[k]);
                }
            }
        }
        i = i + 1;
    }
    if i == t.len() {
        assert(t@.subrange(0, i as int) =~= t@);
        match parse_unsigned_chars(t, 65535) {
            Some(p) => {
                let p = p as u32;
                if p == 0 {
                    return Err(PortError::InvalidPort);
                }
                assert(port_span(p as nat, p as nat) =~= set![p as int]);
                return Ok((p as u16, p as u16));
            },
            None => return Err(PortError::InvalidPort),
        }
    }
    proof {
        assert(first_dash_at(t@, i as int));
        let j = choose|j: int| first_dash_at(t@, j);
        if j < i {
            assert(t@.subrange(0, i as int)[j] == t@[j]);
        }
        if i < j {
            assert(t@.subrange(0, j)[i as int] == t@[i as int]);
        }
        assert(j == i);
        assert(!lacks(t@, '-'));
    }
    let left = trim_chars(sub_chars(t, 0, i).as_slice());
    let right = trim_chars(sub_chars(t, i + 1, t.len()).as_slice());
    let a = parse_unsigned_chars(left.as_slice(), 65535);
    let b = parse_unsigned_chars(right.as_slice(), 65535);
    match (a, b) {
        (Some(a), Some(b)) => {
            let a = a as u32;
            let b = b as u32;
            if a == 0 || b == 0 || b < a {
                Err(PortError::InvalidRange)
            } else {
                Ok((a as u16, b as u16))
            }
        },
        _ => Err(PortError::InvalidRange),
    }
}

/// Reads a port list: comma-separated tokens, each a port `n` or a range
/// `a-b` with `a <= b`; port 0 is never valid and blank tokens are skipped.
/// The ports come back sorted, each once.
pub fn parse_ports(input: &str) -> (r: Result<Vec<u16>, PortError>)
    ensures
        match port_list_of(input@) {
            Ok(ps) => r is Ok && strictly_increasing(r->Ok_0@) && ports_in(r->Ok_0@) == ps,
            Err(e) => r == Err::<Vec<u16>, PortError>(e),
        },
{
    let cs = chars_of(input);
    let toks = split_chars(&cs, ',');
    let ghost stoks = split_on(cs@, ',');
    let mut marks: Vec<bool> = vec![false; 65536];
    let ghost mut acc: Set<int> = Set::empty();
    let mut ti: usize = 0;
    while ti < toks.len()
        invariant
            ti <= toks@.len() == stoks.len(),
            stoks == split_on(input@, ','),
            forall|k: int| 0 <= k < toks@.len() ==> (#[trigger] toks@[k])@ == stoks[k],
            tokens_ports(stoks.subrange(0, ti as int)) == Ok::<Set<int>, PortError>(acc),
            marks@.len() == 65536,
            forall|p: int| 0 <= p < 65536 ==> (marks@[p] <==> acc.contains(p)),
            forall|p: int| acc.contains(p) ==> 1 <= p < 65536,
        decreases toks@.len() - ti,
    {
        let ghost pre = stoks.subrange(0, ti as int);
        assert(stoks.subrange(0, ti + 1).drop_last() =~= pre);
        assert(stoks.subrange(0, ti + 1).last() == stoks[ti as int]);
        let t = trim_chars(toks[ti].as_slice());
        if t.len() > 0 {
            match token_ports_exec(t.as_slice()) {
                Err(e) => {
                    proof {
                        lemma_tokens_err_stays(stoks, ti + 1, e);
                    }
                    return Err(e);
                },
                Ok((a, b)) => {
                    let mut p: u32 = a as u32;
                    let ghost before = acc;
                    while p <= b as u32
                        invariant
                            1 <= a <= b,
                            a <= p <= b as u32 + 1,
                            marks@.len() == 65536,
                            forall|q: int| 0 <= q < 65536 ==> (marks@[q] <==> (before.contains(q) || (a <= q < p))),
                        decreases b as u32 + 1 - p,
                    {
                        marks.set(p as usize, true);
                        p = p + 1;
                    }
                    proof {
                        acc = before.union(port_span(a as nat, b as nat));
                    }
                },
            }
        }
        ti = ti + 1;
    }
    assert(stoks.subrange(0, toks@.len() as int) =~= stoks);
    let mut out: Vec<u16> = Vec::new();
    let mut p: u32 = 0;
    while p < 65536
        invariant
            p <= 65536,
            marks@.len() == 65536,
            forall|q: int| 0 <= q < 65536 ==> (marks@[q] <==> acc.contains(q)),
            strictly_increasing(out@),
            forall|k: int| 0 <= k < out@.len() ==> out@[k] < p,
            forall|q: int| (ports_in(out@).contains(q)) <==> (acc.contains(q) && q < p),
        decreases 65536 - p,
    {
        if marks[p as usize] {
            let ghost old_out = out@;
            out.push(p as u16);
            proof {
                assert forall|q: int| (ports_in(out@).contains(q)) <==> (acc.contains(q) && q < p + 1) by {
                    if acc.contains(q) && q < p + 1 {
                        if q < p {
                            assert(ports_in(old_out).contains(q));
                            let k = choose|k: int| 0 <= k < old_out.len() && old_out[k] as int == q;
                            assert(out@[k] as int == q);
                        } else {
                            assert(out@[old_out.len() as int] as int == q);
                        }
                    }
                    if ports_in(out@).contains(q) {
                        let k = choose|k: int| 0 <= k < out@.len() && out@[k] as int == q;
                        if k < old_out.len() {
                            assert(old_out[k] as int == q);
                            assert(ports_in(old_out).contains(q));
                        }
                    }
                }
            }
        } else {
            proof {
                assert forall|q: int| (ports_in(out@).contains(q)) <==> (acc.contains(q) && q < p + 1) by {
                    if q == p {
                        if ports_in(out@).contains(q) {
                            let k = choose|k: int| 0 <= k < out@.len() && out@[k] as int == q;
                        }
                    }
                }
            }
        }
        p = p + 1;
    }
    if out.len() == 0 {
        proof {
            assert(acc =~= Set::<int>::empty()) by {
                assert forall|q: int| !acc.contains(q) by {
                    if acc.contains(q) {
                        assert(ports_in(out@).contains(q));
                        let k = choose|k: int| 0 <= k < out@.len() && out@[k] as int == q;
                    }
                }
            }
        }
        return Err(PortError::Empty);
    }
    proof {
        assert(ports_in(out@) =~= acc);
        assert(out@[0] as int >= 0);
        assert(ports_in(out@).contains(out@[0] as int));
        assert(acc.contains(out@[0] as int));
    }
    Ok(out)
}

proof fn lemma_tokens_in_range(toks: Seq<Seq<char>>)
    ensures
        tokens_ports(toks) is Ok ==> forall|p: int| #[trigger] tokens_ports(toks)->Ok_0.contains(p)
            ==> 1 <= p <= 65535,
    decreases toks.len(),
{
    if toks.len() > 0 {
        lemma_tokens_in_range(toks.drop_last());
    }
}

/// Every port of a port list lies in `1..=65535`, and a list that names
/// none is refused.
pub proof fn lemma_port_list_in_range(s: Seq<char>)
    ensures
        port_list_of(s) is Ok ==> {
            &&& !port_list_of(s)->Ok_0.is_empty()
            &&& forall|p: int| #[trigger] port_list_of(s)->Ok_0.contains(p) ==> 1 <= p <= 65535
        },
{
    lemma_tokens_in_range(split_on(s, ','));
}

/// What `parse_ports` returns is sorted, holds each port once, and holds
/// only ports in `1..=65535`.
pub proof fn lemma_parsed_ports_sorted_unique(s: Seq<char>, v: Seq<u16>)
    requires
        port_list_of(s) is Ok,
        ports_in(v) == port_list_of(s)->Ok_0,
        strictly_increasing(v),
    ensures
        forall|i: int, j: int| 0 <= i < v.len() && 0 <= j < v.len() && i != j ==> v[i] != v[j],
        forall|i: int, j: int| 0 <= i <= j < v.len() ==> v[i] <= v[j],
        forall|k: int| 0 <= k < v.len() ==> 1 <= #[trigger] v[k] <= 65535,
        v.len() > 0,
{
    lemma_port_list_in_range(s);
    assert forall|k: int| 0 <= k < v.len() implies 1 <= #[trigger] v[k] <= 65535 by {
        assert(ports_in(v).contains(v[k] as int));
    }
    let ps = port_list_of(s)->Ok_0;
    let p = ps.choose();
    assert(ps.contains(p));
    assert(ports_in(v).contains(p));
    assert forall|i: int, j: int| 0 <= i < v.len() && 0 <= j < v.len() && i != j implies v[i] != v[j] by {
        if i < j {
            assert(v[i] < v[j]);
        } else {
            assert(v[j] < v[i]);
        }
    }
}

} // verus!
