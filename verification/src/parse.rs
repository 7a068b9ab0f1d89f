//! Reading a stored dotted-quad address back into its octets. The stored
//! form is exactly what `format_ipv4` writes — canonical decimal octets,
//! dots between them — and the parser accepts precisely that: a string is
//! accepted if and only if it is the rendering of some address, so reading
//! back what was stored can never fail, and anything else is a malformed
//! record.

use vstd::prelude::*;

use crate::daemon::IpV4;
use crate::errors::FleetError;
use crate::text::dec_chars;
use crate::text::digit_char;
use crate::text::ipv4_chars;

verus! {

/// The character is a decimal digit.
pub open spec fn is_digit(c: char) -> bool {
    48 <= c as int <= 57
}

/// The numeric value of a digit character.
pub open spec fn digit_of(c: char) -> nat {
    (c as int - 48) as nat
}

/// Every character of `t` is a decimal digit.
pub open spec fn all_digits(t: Seq<char>) -> bool {
    forall|i: int| 0 <= i < t.len() ==> is_digit(#[trigger] t[i])
}

/// The number a digit string denotes, most significant digit first.
pub open spec fn text_val(t: Seq<char>) -> nat
    decreases t.len(),
{
    if t.len() == 0 {
        0
    } else {
        text_val(t.drop_last()) * 10 + digit_of(t.last())
    }
}

/// `t` is the canonical text of one octet: one to three digits, no leading
/// zero (except the single digit of zero itself), value within a byte.
pub open spec fn is_octet_text(t: Seq<char>) -> bool {
    &&& 1 <= t.len() <= 3
    &&& all_digits(t)
    &&& (t.len() > 1 ==> t[0] != '0')
    &&& text_val(t) <= 255
}

/// A digit's character denotes the digit back.
proof fn lemma_digit_roundtrip(c: char)
    requires
        is_digit(c),
    ensures
        digit_of(c) < 10,
        digit_char(digit_of(c)) == c,
{
}

/// The canonical decimal text of `n` is made of digits, denotes `n`, has no
/// leading zero, and for a byte-sized `n` is one to three digits long.
proof fn lemma_dec_chars_props(n: nat)
    ensures
        dec_chars(n).len() >= 1,
        all_digits(dec_chars(n)),
        text_val(dec_chars(n)) == n,
        n >= 10 ==> dec_chars(n)[0] != '0',
        n < 10 ==> dec_chars(n).len() == 1,
        n < 100 ==> dec_chars(n).len() <= 2,
        n < 1000 ==> dec_chars(n).len() <= 3,
    decreases n,
{
    if n < 10 {
        let t = dec_chars(n);
        assert(t == seq![digit_char(n)]);
        assert(t.drop_last() =~= Seq::<char>::empty());
        assert(text_val(Seq::<char>::empty()) == 0);
        assert(is_digit(digit_char(n)) && digit_of(digit_char(n)) == n);
    } else {
        lemma_dec_chars_props(n / 10);
        let h = dec_chars(n / 10);
        let t = dec_chars(n);
        assert(t == h.push(digit_char(n % 10)));
        assert(t.drop_last() =~= h);
        assert(t.last() == digit_char(n % 10));
        assert(is_digit(digit_char(n % 10)) && digit_of(digit_char(n % 10)) == n % 10);
        assert(text_val(t) == (n / 10) * 10 + n % 10);
        assert((n / 10) * 10 + n % 10 == n) by (nonlinear_arith);
        assert(t[0] == h[0]);
        assert(n >= 10 ==> n / 10 >= 1);
        if n / 10 < 10 {
            assert(h[0] == digit_char(n / 10));
            assert(n / 10 >= 1 ==> digit_char(n / 10) != '0');
        }
        assert forall|i: int| 0 <= i < t.len() implies is_digit(#[trigger] t[i]) by {
            if i < h.len() {
                assert(t[i] == h[i]);
            }
        }
    }
}

/// Canonicity: an octet text is exactly the canonical decimal text of its
/// value. (So two different texts never denote the same octet.)
proof fn lemma_octet_text_canonical(t: Seq<char>)
    requires
        is_octet_text(t),
    ensures
        t == dec_chars(text_val(t)),
{
    if t.len() == 1 {
        assert(t.drop_last() =~= Seq::<char>::empty());
        assert(text_val(Seq::<char>::empty()) == 0);
        let v = text_val(t);
        assert(v == digit_of(t[0]));
        lemma_digit_roundtrip(t[0]);
        assert(t =~= dec_chars(v));
    } else if t.len() == 2 {
        let d1 = digit_of(t[0]);
        let d0 = digit_of(t[1]);
        let h = t.drop_last();
        assert(h.len() == 1 && h[0] == t[0]);
        assert(h.drop_last() =~= Seq::<char>::empty());
        assert(text_val(Seq::<char>::empty()) == 0);
        assert(h.last() == t[0] && t.last() == t[1]);
        let v = text_val(t);
        assert(text_val(h) == d1);
        assert(v == d1 * 10 + d0);
        assert(t[0] != '0');
        lemma_digit_roundtrip(t[0]);
        lemma_digit_roundtrip(t[1]);
        assert(d1 >= 1);
        assert(v >= 10 && v < 100);
        assert(v / 10 == d1 && v % 10 == d0) by (nonlinear_arith)
            requires
                v == d1 * 10 + d0,
                d0 < 10,
                d1 >= 1,
        ;
        assert(dec_chars(v) == dec_chars(d1).push(digit_char(d0)));
        assert(t =~= dec_chars(v));
    } else {
        let d2 = digit_of(t[0]);
        let d1 = digit_of(t[1]);
        let d0 = digit_of(t[2]);
        let h = t.drop_last();
        let hh = h.drop_last();
        assert(h.len() == 2 && h[0] == t[0] && h[1] == t[1]);
        assert(hh.len() == 1 && hh[0] == t[0]);
        assert(hh.drop_last() =~= Seq::<char>::empty());
        assert(text_val(Seq::<char>::empty()) == 0);
        assert(hh.last() == t[0] && h.last() == t[1] && t.last() == t[2]);
        let v = text_val(t);
        assert(text_val(hh) == d2);
        assert(text_val(h) == d2 * 10 + d1);
        assert(v == (d2 * 10 + d1) * 10 + d0);
        assert(t[0] != '0');
        lemma_digit_roundtrip(t[0]);
        lemma_digit_roundtrip(t[1]);
        lemma_digit_roundtrip(t[2]);
        assert(d2 >= 1);
        let w = d2 * 10 + d1;
        assert(v == w * 10 + d0);
        assert(w >= 10 && w < 100) by (nonlinear_arith)
            requires
                w == d2 * 10 + d1,
                1 <= d2 < 10,
                d1 < 10,
        ;
        assert(v >= 100) by (nonlinear_arith)
            requires
                v == w * 10 + d0,
                w >= 10,
        ;
        assert(v / 10 == w && v % 10 == d0) by (nonlinear_arith)
            requires
                v == w * 10 + d0,
                d0 < 10,
                w >= 1,
        ;
        assert(w / 10 == d2 && w % 10 == d1) by (nonlinear_arith)
            requires
                w == d2 * 10 + d1,
                d1 < 10,
                d2 >= 1,
        ;
        assert(dec_chars(v) == dec_chars(w).push(digit_char(d0)));
        assert(dec_chars(w) == dec_chars(d2).push(digit_char(d1)));
        assert(t =~= dec_chars(v));
    }
}

/// The piece of text from `start` to `e` is a maximal digit run: digits
/// throughout, ended by a non-digit or the end of the text.
pub open spec fn digit_run(t: Seq<char>, start: int, e: int) -> bool {
    &&& 0 <= start <= e <= t.len()
    &&& (forall|k: int| start <= k < e ==> is_digit(#[trigger] t[k]))
    &&& (e == t.len() || !is_digit(t[e]))
}

/// Two maximal digit runs from the same start end at the same place.
proof fn lemma_run_end_unique(t: Seq<char>, start: int, e1: int, e2: int)
    requires
        digit_run(t, start, e1),
        digit_run(t, start, e2),
    ensures
        e1 == e2,
{
    if e1 < e2 {
        assert(is_digit(t[e1]));
        assert(false);
    }
    if e2 < e1 {
        assert(is_digit(t[e2]));
        assert(false);
    }
}

/// Executable twin of `is_digit`.
fn is_digit_char(c: char) -> (r: bool)
    ensures
        r == is_digit(c),
{
    let u = c as u32;
    48 <= u && u <= 57
}

/// Scans the digit run of `s` that starts at `start`: returns where the run
/// ends, and the octet it canonically denotes if it is an octet text.
fn scan_octet(s: &str, start: usize) -> (r: (Option<u8>, usize))
    requires
        start <= s@.len(),
    ensures
        digit_run(s@, start as int, r.1 as int),
        start <= r.1,
        match r.0 {
            Some(v) => s@.subrange(start as int, r.1 as int) == dec_chars(v as nat),
            None => !is_octet_text(s@.subrange(start as int, r.1 as int)),
        },
{
    let n = s.unicode_len();
    let mut e = start;
    while e < n && is_digit_char(s.get_char(e))
        invariant
            start <= e <= n,
            n == s@.len(),
            forall|k: int| start <= k < e ==> is_digit(#[trigger] s@[k]),
        decreases n - e,
    {
        e = e + 1;
    }
    let ghost seg = s@.subrange(start as int, e as int);

    if e == start {
        assert(seg.len() == 0);
        return (None, e);
    }
    if e - start > 3 {
        assert(seg.len() > 3);
        return (None, e);
    }
    if e - start > 1 && s.get_char(start) == '0' {
        assert(seg[0] == '0');
        return (None, e);
    }

    let mut v: u32 = 0;
    let mut k = start;
    while k < e
        invariant
            start <= k <= e <= n,
            n == s@.len(),
            e - start <= 3,
            forall|j: int| start <= j < e ==> is_digit(#[trigger] s@[j]),
            v == text_val(s@.subrange(start as int, k as int)),
            k - start == 0 ==> v == 0,
            k - start == 1 ==> v < 10,
            k - start == 2 ==> v < 100,
            k - start == 3 ==> v < 1000,
        decreases e - k,
    {
        let c = s.get_char(k);
        assert(is_digit(s@[k as int]));
        let d = (c as u32) - 48;
        v = v * 10 + d;
        proof {
            let t0 = s@.subrange(start as int, k as int);
            let t1 = s@.subrange(start as int, k as int + 1);
            assert(t1.drop_last() =~= t0);
            assert(t1.last() == s@[k as int]);
        }
        k = k + 1;
    }
    assert(seg.len() >= 1 && all_digits(seg) && (seg.len() > 1 ==> seg[0] != '0'));

    if v > 255 {
        assert(text_val(seg) > 255);
        return (None, e);
    }
    proof {
        assert(is_octet_text(seg));
        lemma_octet_text_canonical(seg);
    }
    (Some(v as u8), e)
}

/// The rendered address decomposes into its four canonical octet texts with
/// a dot between each pair: the positions of the dots, the digit runs, and
/// the octet texts are all pinned by the octets alone.
proof fn lemma_ipv4_chars_structure(ip: IpV4)
    ensures
        ({
            let t = ipv4_chars(ip);
            let la = dec_chars(ip.a as nat).len() as int;
            let lb = dec_chars(ip.b as nat).len() as int;
            let lc = dec_chars(ip.c as nat).len() as int;
            let ld = dec_chars(ip.d as nat).len() as int;
            &&& 1 <= la <= 3 && 1 <= lb <= 3 && 1 <= lc <= 3 && 1 <= ld <= 3
            &&& t.len() == la + lb + lc + ld + 3
            &&& t.subrange(0, la) == dec_chars(ip.a as nat)
            &&& t[la] == '.'
            &&& t.subrange(la + 1, la + 1 + lb) == dec_chars(ip.b as nat)
            &&& t[la + 1 + lb] == '.'
            &&& t.subrange(la + lb + 2, la + lb + 2 + lc) == dec_chars(ip.c as nat)
            &&& t[la + lb + 2 + lc] == '.'
            &&& t.subrange(la + lb + lc + 3, t.len() as int) == dec_chars(ip.d as nat)
            &&& digit_run(t, 0, la)
            &&& digit_run(t, la + 1, la + 1 + lb)
            &&& digit_run(t, la + lb + 2, la + lb + 2 + lc)
            &&& digit_run(t, la + lb + lc + 3, t.len() as int)
            &&& is_octet_text(t.subrange(0, la))
            &&& is_octet_text(t.subrange(la + 1, la + 1 + lb))
            &&& is_octet_text(t.subrange(la + lb + 2, la + lb + 2 + lc))
            &&& is_octet_text(t.subrange(la + lb + lc + 3, t.len() as int))
        }),
{
    lemma_dec_chars_props(ip.a as nat);
    lemma_dec_chars_props(ip.b as nat);
    lemma_dec_chars_props(ip.c as nat);
    lemma_dec_chars_props(ip.d as nat);
    let t = ipv4_chars(ip);
    let la = dec_chars(ip.a as nat).len() as int;
    let lb = dec_chars(ip.b as nat).len() as int;
    let lc = dec_chars(ip.c as nat).len() as int;
    let ld = dec_chars(ip.d as nat).len() as int;
    assert(t.subrange(0, la) =~= dec_chars(ip.a as nat));
    assert(t.subrange(la + 1, la + 1 + lb) =~= dec_chars(ip.b as nat));
    assert(t.subrange(la + lb + 2, la + lb + 2 + lc) =~= dec_chars(ip.c as nat));
    assert(t.subrange(la + lb + lc + 3, t.len() as int) =~= dec_chars(ip.d as nat));
    assert(t[la] == '.' && t[la + 1 + lb] == '.' && t[la + lb + 2 + lc] == '.');
    assert forall|k: int| 0 <= k < la implies is_digit(#[trigger] t[k]) by {
        assert(t[k] == dec_chars(ip.a as nat)[k]);
    }
    assert forall|k: int| la + 1 <= k < la + 1 + lb implies is_digit(#[trigger] t[k]) by {
        assert(t[k] == dec_chars(ip.b as nat)[k - (la + 1)]);
    }
    assert forall|k: int| la + lb + 2 <= k < la + lb + 2 + lc implies is_digit(
        #[trigger] t[k],
    ) by {
        assert(t[k] == dec_chars(ip.c as nat)[k - (la + lb + 2)]);
    }
    assert forall|k: int| la + lb + lc + 3 <= k < t.len() implies is_digit(#[trigger] t[k]) by {
        assert(t[k] == dec_chars(ip.d as nat)[k - (la + lb + lc + 3)]);
    }
}

/// Under the hypothesis that `t` renders `ip`, the first scanned run is
/// exactly the first octet text, followed by a dot.
proof fn lemma_pin_first(t: Seq<char>, ip: IpV4, e1: int)
    requires
        t == ipv4_chars(ip),
        digit_run(t, 0, e1),
    ensures
        e1 == dec_chars(ip.a as nat).len() as int,
        t.subrange(0, e1) == dec_chars(ip.a as nat),
        is_octet_text(t.subrange(0, e1)),
        e1 < t.len(),
        t[e1] == '.',
{
    lemma_ipv4_chars_structure(ip);
    let la = dec_chars(ip.a as nat).len() as int;
    lemma_run_end_unique(t, 0, e1, la);
}

/// Under the same hypothesis, the second scanned run (after the first dot)
/// is exactly the second octet text, followed by a dot.
proof fn lemma_pin_second(t: Seq<char>, ip: IpV4, e1: int, e2: int)
    requires
        t == ipv4_chars(ip),
        digit_run(t, 0, e1),
        digit_run(t, e1 + 1, e2),
    ensures
        e2 == e1 + 1 + dec_chars(ip.b as nat).len() as int,
        t.subrange(e1 + 1, e2) == dec_chars(ip.b as nat),
        is_octet_text(t.subrange(e1 + 1, e2)),
        e2 < t.len(),
        t[e2] == '.',
{
    lemma_pin_first(t, ip, e1);
    lemma_ipv4_chars_structure(ip);
    let la = dec_chars(ip.a as nat).len() as int;
    let lb = dec_chars(ip.b as nat).len() as int;
    lemma_run_end_unique(t, la + 1, e2, la + 1 + lb);
}

/// Under the same hypothesis, the third scanned run is exactly the third
/// octet text, followed by a dot.
proof fn lemma_pin_third(t: Seq<char>, ip: IpV4, e1: int, e2: int, e3: int)
    requires
        t == ipv4_chars(ip),
        digit_run(t, 0, e1),
        digit_run(t, e1 + 1, e2),
        digit_run(t, e2 + 1, e3),
    ensures
        e3 == e2 + 1 + dec_chars(ip.c as nat).len() as int,
        t.subrange(e2 + 1, e3) == dec_chars(ip.c as nat),
        is_octet_text(t.subrange(e2 + 1, e3)),
        e3 < t.len(),
        t[e3] == '.',
{
    lemma_pin_second(t, ip, e1, e2);
    lemma_ipv4_chars_structure(ip);
    let la = dec_chars(ip.a as nat).len() as int;
    let lb = dec_chars(ip.b as nat).len() as int;
    let lc = dec_chars(ip.c as nat).len() as int;
    lemma_run_end_unique(t, la + lb + 2, e3, la + lb + 2 + lc);
}

/// Under the same hypothesis, the fourth scanned run is exactly the last
/// octet text, and it reaches the end of the text.
proof fn lemma_pin_fourth(t: Seq<char>, ip: IpV4, e1: int, e2: int, e3: int, e4: int)
    requires
        t == ipv4_chars(ip),
        digit_run(t, 0, e1),
        digit_run(t, e1 + 1, e2),
        digit_run(t, e2 + 1, e3),
        digit_run(t, e3 + 1, e4),
    ensures
        e4 == t.len(),
        t.subrange(e3 + 1, e4) == dec_chars(ip.d as nat),
        is_octet_text(t.subrange(e3 + 1, e4)),
{
    lemma_pin_third(t, ip, e1, e2, e3);
    lemma_ipv4_chars_structure(ip);
    let la = dec_chars(ip.a as nat).len() as int;
    let lb = dec_chars(ip.b as nat).len() as int;
    let lc = dec_chars(ip.c as nat).len() as int;
    lemma_run_end_unique(t, la + lb + lc + 3, e4, t.len() as int);
}

/// Four canonical octet texts with dots between them assemble back into the
/// rendering of the address they denote.
proof fn lemma_assemble(t: Seq<char>, ip: IpV4, e1: int, e2: int, e3: int)
    requires
        0 <= e1 && e1 + 1 <= e2 && e2 + 1 <= e3 && e3 + 1 <= t.len(),
        t.subrange(0, e1) == dec_chars(ip.a as nat),
        t[e1] == '.',
        t.subrange(e1 + 1, e2) == dec_chars(ip.b as nat),
        t[e2] == '.',
        t.subrange(e2 + 1, e3) == dec_chars(ip.c as nat),
        t[e3] == '.',
        t.subrange(e3 + 1, t.len() as int) == dec_chars(ip.d as nat),
    ensures
        t == ipv4_chars(ip),
{
    lemma_ipv4_chars_structure(ip);
    let u = ipv4_chars(ip);
    let la = dec_chars(ip.a as nat).len() as int;
    let lb = dec_chars(ip.b as nat).len() as int;
    let lc = dec_chars(ip.c as nat).len() as int;
    let ld = dec_chars(ip.d as nat).len() as int;
    assert(e1 == la);
    assert(e2 == la + 1 + lb);
    assert(e3 == la + lb + 2 + lc);
    assert(t.len() == e3 + 1 + ld);
    assert forall|i: int| 0 <= i < t.len() implies t[i] == u[i] by {
        if i < e1 {
            assert(t[i] == t.subrange(0, e1)[i]);
            assert(u[i] == u.subrange(0, la)[i]);
        } else if i == e1 {
        } else if i < e2 {
            assert(t[i] == t.subrange(e1 + 1, e2)[i - (e1 + 1)]);
            assert(u[i] == u.subrange(la + 1, la + 1 + lb)[i - (la + 1)]);
        } else if i == e2 {
        } else if i < e3 {
            assert(t[i] == t.subrange(e2 + 1, e3)[i - (e2 + 1)]);
            assert(u[i] == u.subrange(la + lb + 2, la + lb + 2 + lc)[i - (la + lb + 2)]);
        } else if i == e3 {
        } else {
            assert(t[i] == t.subrange(e3 + 1, t.len() as int)[i - (e3 + 1)]);
            assert(u[i] == u.subrange(la + lb + lc + 3, u.len() as int)[i - (la + lb + lc + 3)]);
        }
    }
    assert(t =~= u);
}

/// Reads a dotted-quad address back from its stored text. Succeeds, with the
/// octets the text denotes, exactly when the text is the canonical rendering
/// of an address (what `format_ipv4` writes); any other text is a malformed
/// record, surfaced as `SerializationFailure`.
pub fn parse_ipv4(s: &str) -> (r: Result<IpV4, FleetError>)
    ensures
        r matches Ok(ip) ==> s@ == ipv4_chars(ip),
        r is Err ==> r == Err::<IpV4, FleetError>(FleetError::SerializationFailure) && (forall|
            ip: IpV4,
        |
            s@ != ipv4_chars(ip)),
{
    let n = s.unicode_len();

    let (oa, e1) = scan_octet(s, 0);
    let va = match oa {
        Some(v) => v,
        None => {
            proof {
                assert forall|ip: IpV4| s@ != ipv4_chars(ip) by {
                    if s@ == ipv4_chars(ip) {
                        lemma_pin_first(s@, ip, e1 as int);
                    }
                }
            }
            return Err(FleetError::SerializationFailure);
        },
    };
    if e1 >= n || s.get_char(e1) != '.' {
        proof {
            assert forall|ip: IpV4| s@ != ipv4_chars(ip) by {
                if s@ == ipv4_chars(ip) {
                    lemma_pin_first(s@, ip, e1 as int);
                }
            }
        }
        return Err(FleetError::SerializationFailure);
    }

    let (ob, e2) = scan_octet(s, e1 + 1);
    let vb = match ob {
        Some(v) => v,
        None => {
            proof {
                assert forall|ip: IpV4| s@ != ipv4_chars(ip) by {
                    if s@ == ipv4_chars(ip) {
                        lemma_pin_second(s@, ip, e1 as int, e2 as int);
                    }
                }
            }
            return Err(FleetError::SerializationFailure);
        },
    };
    if e2 >= n || s.get_char(e2) != '.' {
        proof {
            assert forall|ip: IpV4| s@ != ipv4_chars(ip) by {
                if s@ == ipv4_chars(ip) {
                    lemma_pin_second(s@, ip, e1 as int, e2 as int);
                }
            }
        }
        return Err(FleetError::SerializationFailure);
    }

    let (oc, e3) = scan_octet(s, e2 + 1);
    let vc = match oc {
        Some(v) => v,
        None => {
            proof {
                assert forall|ip: IpV4| s@ != ipv4_chars(ip) by {
                    if s@ == ipv4_chars(ip) {
                        lemma_pin_third(s@, ip, e1 as int, e2 as int, e3 as int);
                    }
                }
            }
            return Err(FleetError::SerializationFailure);
        },
    };
    if e3 >= n || s.get_char(e3) != '.' {
        proof {
            assert forall|ip: IpV4| s@ != ipv4_chars(ip) by {
                if s@ == ipv4_chars(ip) {
                    lemma_pin_third(s@, ip, e1 as int, e2 as int, e3 as int);
                }
            }
        }
        return Err(FleetError::SerializationFailure);
    }

    let (od, e4) = scan_octet(s, e3 + 1);
    let vd = match od {
        Some(v) => v,
        None => {
            proof {
                assert forall|ip: IpV4| s@ != ipv4_chars(ip) by {
                    if s@ == ipv4_chars(ip) {
                        lemma_pin_fourth(s@, ip, e1 as int, e2 as int, e3 as int, e4 as int);
                    }
                }
            }
            return Err(FleetError::SerializationFailure);
        },
    };
    if e4 != n {
        proof {
            assert forall|ip: IpV4| s@ != ipv4_chars(ip) by {
                if s@ == ipv4_chars(ip) {
                    lemma_pin_fourth(s@, ip, e1 as int, e2 as int, e3 as int, e4 as int);
                }
            }
        }
        return Err(FleetError::SerializationFailure);
    }

    let ip = IpV4 { a: va, b: vb, c: vc, d: vd };
    proof {
        lemma_assemble(s@, ip, e1 as int, e2 as int, e3 as int);
    }
    Ok(ip)
}

} // verus!
