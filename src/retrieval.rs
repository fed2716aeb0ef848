//! The decisions of a certificate retrieval: what a failed connection and
//! what a peer chain come to.

use vstd::prelude::*;
use vstd::string::*;
use crate::certificate::{der_chain, last_match, CertError, CertificateRecord, SimpleCertificate};

verus! {

/// The decimal digit `d`.
pub open spec fn digit_char(d: nat) -> char {
    if d == 0 {
        '0'
    } else if d == 1 {
        '1'
    } else if d == 2 {
        '2'
    } else if d == 3 {
        '3'
    } else if d == 4 {
        '4'
    } else if d == 5 {
        '5'
    } else if d == 6 {
        '6'
    } else if d == 7 {
        '7'
    } else if d == 8 {
        '8'
    } else {
        '9'
    }
}

/// `n` in decimal, without leading zeros.
pub open spec fn decimal(n: nat) -> Seq<char>
    decreases n,
{
    if n < 10 {
        seq![digit_char(n)]
    } else {
        decimal(n / 10).push(digit_char(n % 10))
    }
}

/// The message of an unreachable target: `Target <host>:<port> is unreachable`.
pub open spec fn unreachable_text(host: Seq<char>, port: nat) -> Seq<char> {
    "Target "@ + host + ":"@ + decimal(port) + " is unreachable"@
}

fn digit_text(d: u32) -> (r: &'static str)
    requires
        d < 10,
    ensures
        r@ == seq![digit_char(d as nat)],
{
    proof {
        reveal_strlit("0");
        reveal_strlit("1");
        reveal_strlit("2");
        reveal_strlit("3");
        reveal_strlit("4");
        reveal_strlit("5");
        reveal_strlit("6");
        reveal_strlit("7");
        reveal_strlit("8");
        reveal_strlit("9");
    }
    if d == 0 {
        "0"
    } else if d == 1 {
        "1"
    } else if d == 2 {
        "2"
    } else if d == 3 {
        "3"
    } else if d == 4 {
        "4"
    } else if d == 5 {
        "5"
    } else if d == 6 {
        "6"
    } else if d == 7 {
        "7"
    } else if d == 8 {
        "8"
    } else {
        "9"
    }
}

fn append_decimal(s: &mut String, n: u32)
    ensures
        final(s)@ == old(s)@ + decimal(n as nat),
    decreases n,
{
    if n >= 10 {
        append_decimal(s, n / 10);
    }
    s.append(digit_text(n % 10));
    proof {
        if n >= 10 {
            assert(old(s)@ + decimal((n / 10) as nat) + seq![digit_char((n % 10) as nat)] =~= old(s)@
                + decimal(n as nat));
        } else {
            assert(n % 10 == n);
        }
    }
}

/// The error for a target that could not be connected to.
pub fn unreachable_target(target_name: &str, target_port: u32) -> (r: CertError)
    ensures
        r is TargetNotReachable,
        r->TargetNotReachable_0@ == unreachable_text(target_name@, target_port as nat),
{
    let mut msg = "Target ".to_owned();
    msg.append(target_name);
    msg.append(":");
    append_decimal(&mut msg, target_port);
    msg.append(" is unreachable");
    CertError::TargetNotReachable(msg)
}

/// What a completed handshake comes to: the record of the last certificate
/// of the peer chain that matches `target_name`, or `TargetHasNoCertMatch`
/// naming the target where none does or no chain was presented.
pub fn evaluate_peer_chain(target_name: &str, peer_chain: Option<&[Vec<u8>]>) -> (r: Result<
    SimpleCertificate,
    CertError,
>)
    ensures
        ({
            let expected = match peer_chain {
                Some(cs) => last_match(target_name@, der_chain(cs@)),
                None => None,
            };
            &&& expected is Some ==> r is Ok && r->Ok_0@ == expected->0
            &&& expected is None ==> r is Err && r->Err_0 is TargetHasNoCertMatch
                && r->Err_0->TargetHasNoCertMatch_0@ == target_name@
        }),
{
    match SimpleCertificate::find_matching_certificate(target_name, peer_chain) {
        Some(c) => Ok(c),
        None => Err(CertError::TargetHasNoCertMatch(target_name.to_owned())),
    }
}

/// What the peer chain of a completed handshake comes to: the record of its
/// last entry that matches `name`, if any.
pub open spec fn chain_match(name: Seq<char>, peer_chain: Option<&[Vec<u8>]>) -> Option<
    CertificateRecord,
> {
    match peer_chain {
        Some(cs) => last_match(name, der_chain(cs@)),
        None => None,
    }
}

/// What a connection attempt comes to once the TCP connection stood: a
/// handshake that did not complete (refused trust, broken session) makes the
/// target unreachable; after a completed one the peer chain decides.
pub fn conclude_connection(
    target_name: &str,
    target_port: u32,
    handshake_completed: bool,
    peer_chain: Option<&[Vec<u8>]>,
) -> (r: Result<SimpleCertificate, CertError>)
    ensures
        !handshake_completed ==> r is Err && r->Err_0 is TargetNotReachable
            && r->Err_0->TargetNotReachable_0@ == unreachable_text(target_name@, target_port as nat),
        handshake_completed && chain_match(target_name@, peer_chain) is Some ==> r is Ok
            && r->Ok_0@ == chain_match(target_name@, peer_chain)->0,
        handshake_completed && chain_match(target_name@, peer_chain) is None ==> r is Err
            && r->Err_0 is TargetHasNoCertMatch && r->Err_0->TargetHasNoCertMatch_0@
            == target_name@,
{
    if !handshake_completed {
        return Err(unreachable_target(target_name, target_port));
    }
    evaluate_peer_chain(target_name, peer_chain)
}

} // verus!
