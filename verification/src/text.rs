//! Textual rendering of the plain values that cross the wire: canonical
//! decimal numbers, dotted-quad IPv4 addresses, and the checked conversion
//! of a stored port column into a real port.

use vstd::prelude::*;

use crate::daemon::IpV4;
use crate::errors::FleetError;

verus! {

/// The decimal digit character for `d` (meaningful for `d < 10`).
pub open spec fn digit_char(d: nat) -> char {
    if d == 0 {
        '0'
    } else if d == 1 {
        '1'
    } else if d == 2 {
        '2'
    } else if d == 3 {
        '3'
    } else if d == 4 {
        '4'
    } else if d == 5 {
        '5'
    } else if d == 6 {
        '6'
    } else if d == 7 {
        '7'
    } else if d == 8 {
        '8'
    } else {
        '9'
    }
}

/// The canonical decimal rendering of `n`: no sign, no leading zero (except
/// the single digit of zero itself).
pub open spec fn dec_chars(n: nat) -> Seq<char>
    decreases n,
{
    if n < 10 {
        seq![digit_char(n)]
    } else {
        dec_chars(n / 10).push(digit_char(n % 10))
    }
}

/// The dotted-quad rendering of an IPv4 address: the four octets in decimal,
/// separated by dots.
pub open spec fn ipv4_chars(ip: IpV4) -> Seq<char> {
    dec_chars(ip.a as nat) + seq!['.'] + dec_chars(ip.b as nat) + seq!['.'] + dec_chars(
        ip.c as nat,
    ) + seq!['.'] + dec_chars(ip.d as nat)
}

/// The one-character string for the decimal digit `d`.
fn digit_to_str(d: u64) -> (r: &'static str)
    requires
        d < 10,
    ensures
        r@ == seq![digit_char(d as nat)],
{
    let r: &'static str = if d == 0 {
        "0"
    } else if d == 1 {
        "1"
    } else if d == 2 {
        "2"
    } else if d == 3 {
        "3"
    } else if d == 4 {
        "4"
    } else if d == 5 {
        "5"
    } else if d == 6 {
        "6"
    } else if d == 7 {
        "7"
    } else if d == 8 {
        "8"
    } else {
        "9"
    };
    proof {
        reveal_strlit("0");
        reveal_strlit("1");
        reveal_strlit("2");
        reveal_strlit("3");
        reveal_strlit("4");
        reveal_strlit("5");
        reveal_strlit("6");
        reveal_strlit("7");
        reveal_strlit("8");
        reveal_strlit("9");
        assert(r@ =~= seq![digit_char(d as nat)]);
    }
    r
}

/// Renders `n` as its canonical decimal string.
pub fn u64_to_string(n: u64) -> (r: String)
    ensures
        r@ == dec_chars(n as nat),
    decreases n,
{
    if n < 10 {
        String::from_str(digit_to_str(n))
    } else {
        let mut s = u64_to_string(n / 10);
        s.append(digit_to_str(n % 10));
        proof {
            assert(s@ =~= dec_chars(n as nat));
        }
        s
    }
}

/// Renders an IPv4 address as its dotted-quad string.
pub fn format_ipv4(ip: IpV4) -> (r: String)
    ensures
        r@ == ipv4_chars(ip),
{
    let mut s = u64_to_string(ip.a as u64);
    s.append(".");
    let b = u64_to_string(ip.b as u64);
    s.append(b.as_str());
    s.append(".");
    let c = u64_to_string(ip.c as u64);
    s.append(c.as_str());
    s.append(".");
    let d = u64_to_string(ip.d as u64);
    s.append(d.as_str());
    proof {
        reveal_strlit(".");
        assert(s@ =~= ipv4_chars(ip));
    }
    s
}

/// Converts a stored port column into a real port. A stored value outside
/// the port range is a malformed record, surfaced as `SerializationFailure`,
/// exactly when `v` does not fit a sixteen-bit port.
pub fn port_from_i64(v: i64) -> (r: Result<u16, FleetError>)
    ensures
        0 <= v <= 65535 ==> r == Ok::<u16, FleetError>(v as u16),
        !(0 <= v <= 65535) ==> r == Err::<u16, FleetError>(FleetError::SerializationFailure),
{
    if 0 <= v && v <= 65535 {
        Ok(v as u16)
    } else {
        Err(FleetError::SerializationFailure)
    }
}

} // verus!
