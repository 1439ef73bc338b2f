//! The decoy services of the honeypot listener: the banner each one sends
//! and the label it is logged under.

use vstd::prelude::*;

use crate::text::{chars_of, lower_of, lowercase, same_text};

verus! {

/// The decoy service that a profile name picks, given in lower case; any
/// other name is the web server.
pub open spec fn profile_index(name: Seq<char>) -> nat {
    if name == "ssh"@ {
        0
    } else if name == "rdp"@ {
        1
    } else if name == "ftp"@ {
        2
    } else if name == "telnet"@ {
        3
    } else if name == "database"@ {
        4
    } else {
        5
    }
}

/// The banner text of each decoy service; every character stands for one byte.
pub open spec fn banner_text(i: nat) -> Seq<char> {
    if i == 0 {
        "SSH-2.0-OpenSSH_8.9p1\r\n"@
    } else if i == 1 {
        "\u{3}\u{0}\u{0}\u{b}\u{6}\u{d0}\u{0}\u{0}\u{12}\u{34}\u{0}"@
    } else if i == 2 {
        "220 ProFTPD 1.3.6 Server ready\r\n"@
    } else if i == 3 {
        "Welcome to Embedded Telnet\r\nlogin: "@
    } else if i == 4 {
        "-ERR invalid protocol\r\n"@
    } else {
        "HTTP/1.1 200 OK\r\nServer: Apache/2.4.57\r\nContent-Type: text/html\r\nContent-Length: 20\r\n\r\nService available.\r\n"@
    }
}

/// The label of each decoy service.
pub open spec fn label_text(i: nat) -> Seq<char> {
    if i == 0 {
        "SSH"@
    } else if i == 1 {
        "RDP"@
    } else if i == 2 {
        "FTP"@
    } else if i == 3 {
        "TELNET"@
    } else if i == 4 {
        "DB"@
    } else {
        "WEB"@
    }
}

/// Characters below 256 as bytes.
pub open spec fn latin1_bytes(s: Seq<char>) -> Seq<u8> {
    s.map_values(|c: char| c as u8)
}

/// The decoy service that a lower-case profile name picks.
pub fn profile_of_lowered(name: &str) -> (r: usize)
    ensures
        r == profile_index(name@),
{
    if same_text(name, "ssh") {
        0
    } else if same_text(name, "rdp") {
        1
    } else if same_text(name, "ftp") {
        2
    } else if same_text(name, "telnet") {
        3
    } else if same_text(name, "database") {
        4
    } else {
        5
    }
}

fn latin1_of(s: &str) -> (r: Vec<u8>)
    ensures
        r@ == latin1_bytes(s@),
{
    let cs = chars_of(s);
    let mut out: Vec<u8> = Vec::new();
    let mut i: usize = 0;
    while i < cs.len()
        invariant
            cs@ == s@,
            i <= cs@.len(),
            out@ == latin1_bytes(cs@.subrange(0, i as int)),
        decreases cs@.len() - i,
    {
        out.push(cs[i] as u8);
        i = i + 1;
        assert(out@ =~= latin1_bytes(cs@.subrange(0, i as int)));
    }
    assert(cs@.subrange(0, cs@.len() as int) =~= cs@);
    out
}

/// The bytes that the decoy service `index` sends first.
pub fn banner_for(index: usize) -> (r: Vec<u8>)
    ensures
        r@ == latin1_bytes(banner_text(index as nat)),
{
    if index == 0 {
        latin1_of("SSH-2.0-OpenSSH_8.9p1\r\n")
    } else if index == 1 {
        latin1_of("\u{3}\u{0}\u{0}\u{b}\u{6}\u{d0}\u{0}\u{0}\u{12}\u{34}\u{0}")
    } else if index == 2 {
        latin1_of("220 ProFTPD 1.3.6 Server ready\r\n")
    } else if index == 3 {
        latin1_of("Welcome to Embedded Telnet\r\nlogin: ")
    } else if index == 4 {
        latin1_of("-ERR invalid protocol\r\n")
    } else {
        latin1_of(
            "HTTP/1.1 200 OK\r\nServer: Apache/2.4.57\r\nContent-Type: text/html\r\nContent-Length: 20\r\n\r\nService available.\r\n",
        )
    }
}

/// The label of the decoy service `index`.
pub fn label_for(index: usize) -> (r: &'static str)
    ensures
        r@ == label_text(index as nat),
{
    if index == 0 {
        "SSH"
    } else if index == 1 {
        "RDP"
    } else if index == 2 {
        "FTP"
    } else if index == 3 {
        "TELNET"
    } else if index == 4 {
        "DB"
    } else {
        "WEB"
    }
}

/// The banner of the decoy service that `profile` names, in any case.
pub fn honey_banner(profile: &str) -> (r: Vec<u8>)
    ensures
        r@ == latin1_bytes(banner_text(profile_index(lower_of(profile@)))),
{
    let lowered = lowercase(profile);
    banner_for(profile_of_lowered(lowered.as_str()))
}

/// The label of the decoy service that `profile` names, in any case.
pub fn honey_profile_label(profile: &str) -> (r: &'static str)
    ensures
        r@ == label_text(profile_index(lower_of(profile@))),
{
    let lowered = lowercase(profile);
    label_for(profile_of_lowered(lowered.as_str()))
}

} // verus!
