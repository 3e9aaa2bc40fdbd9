//! Verified text building blocks: decimal rendering of integers, dotted-quad
//! rendering of IPv4 addresses, and the character discipline that keeps
//! rendered configuration text well-formed.

use vstd::prelude::*;

verus! {

/// The decimal digit character for a value below ten.
pub open spec fn digit_char(d: nat) -> char {
    if d == 0 {
        '0'
    } else if d == 1 {
        '1'
    } else if d == 2 {
        '2'
    } else if d == 3 {
        '3'
    } else if d == 4 {
        '4'
    } else if d == 5 {
        '5'
    } else if d == 6 {
        '6'
    } else if d == 7 {
        '7'
    } else if d == 8 {
        '8'
    } else {
        '9'
    }
}

/// The canonical decimal rendering of a natural number: no leading zeros,
/// most significant digit first.
pub open spec fn dec_rep(n: nat) -> Seq<char>
    decreases n,
{
    if n < 10 {
        seq![digit_char(n)]
    } else {
        dec_rep(n / 10).push(digit_char(n % 10))
    }
}

/// The one-character string for a decimal digit.
fn digit_str(d: u32) -> (r: String)
    requires
        d < 10,
    ensures
        r@ =~= seq![digit_char(d as nat)],
{
    let r = match d {
        0u32 => String::from_str("0"),
        1u32 => String::from_str("1"),
        2u32 => String::from_str("2"),
        3u32 => String::from_str("3"),
        4u32 => String::from_str("4"),
        5u32 => String::from_str("5"),
        6u32 => String::from_str("6"),
        7u32 => String::from_str("7"),
        8u32 => String::from_str("8"),
        _ => String::from_str("9"),
    };
    proof {
        reveal_strlit("0");
        reveal_strlit("1");
        reveal_strlit("2");
        reveal_strlit("3");
        reveal_strlit("4");
        reveal_strlit("5");
        reveal_strlit("6");
        reveal_strlit("7");
        reveal_strlit("8");
        reveal_strlit("9");
    }
    r
}

/// Renders a value in canonical decimal.
pub fn u32_to_dec(n: u32) -> (r: String)
    ensures
        r@ == dec_rep(n as nat),
    decreases n,
{
    if n < 10 {
        digit_str(n)
    } else {
        let mut s = u32_to_dec(n / 10);
        let d = digit_str(n % 10);
        s.append(d.as_str());
        proof {
            assert(s@ =~= dec_rep(n as nat));
        }
        s
    }
}

/// The four octets of an IPv4 address held as one 32-bit value,
/// most significant first.
pub open spec fn oct0(ip: u32) -> nat {
    (ip as nat) / 0x1000000
}

pub open spec fn oct1(ip: u32) -> nat {
    ((ip as nat) / 0x10000) % 256
}

pub open spec fn oct2(ip: u32) -> nat {
    ((ip as nat) / 256) % 256
}

pub open spec fn oct3(ip: u32) -> nat {
    (ip as nat) % 256
}

/// The canonical dotted-quad rendering of an IPv4 address.
pub open spec fn ipv4_rep(ip: u32) -> Seq<char> {
    dec_rep(oct0(ip)) + "."@ + dec_rep(oct1(ip)) + "."@ + dec_rep(oct2(ip)) + "."@ + dec_rep(
        oct3(ip),
    )
}

/// Renders an IPv4 address as a dotted quad.
pub fn format_ipv4(ip: u32) -> (r: String)
    ensures
        r@ == ipv4_rep(ip),
{
    let mut s = u32_to_dec(ip / 0x1000000);
    let o1 = u32_to_dec(ip / 0x10000 % 256);
    let o2 = u32_to_dec(ip / 256 % 256);
    let o3 = u32_to_dec(ip % 256);
    s.append(".");
    s.append(o1.as_str());
    s.append(".");
    s.append(o2.as_str());
    s.append(".");
    s.append(o3.as_str());
    proof {
        assert(s@ =~= ipv4_rep(ip));
    }
    s
}

/// A character that cannot corrupt the rendered configuration text:
/// printable ASCII, so in particular no line breaks and no control
/// characters.
pub open spec fn safe_char(c: char) -> bool {
    32 <= (c as u32) <= 126
}

/// A field value that may be embedded verbatim in configuration text.
pub open spec fn safe_text(s: Seq<char>) -> bool {
    forall|i: int| 0 <= i < s.len() ==> safe_char(#[trigger] s[i])
}

/// Decides whether a field value may be embedded in configuration text.
pub fn is_safe_text(s: &str) -> (r: bool)
    ensures
        r == safe_text(s@),
{
    let len = s.unicode_len();
    let mut i: usize = 0;
    while i < len
        invariant
            len == s@.len(),
            i <= len,
            forall|j: int| 0 <= j < i ==> safe_char(#[trigger] s@[j]),
        decreases len - i,
    {
        let c = s.get_char(i);
        let v = c as u32;
        if v < 32 || v > 126 {
            return false;
        }
        i = i + 1;
    }
    true
}


/// Every character of the sequence is a decimal digit.
pub open spec fn all_digits(s: Seq<char>) -> bool {
    forall|i: int| 0 <= i < s.len() ==> 48 <= ((#[trigger] s[i]) as u32) <= 57
}

/// The numeric value of a digit sequence, most significant first.
pub open spec fn val_of(s: Seq<char>) -> int
    decreases s.len(),
{
    if s.len() == 0 {
        0
    } else {
        val_of(s.drop_last()) * 10 + ((s.last() as u32) - 48)
    }
}

/// The canonical decimal rendering consists of digits, is never empty,
/// evaluates back to its value, and a value up to 255 takes at most
/// three digits.
pub proof fn lemma_dec_rep_props(n: nat)
    ensures
        all_digits(dec_rep(n)),
        dec_rep(n).len() >= 1,
        val_of(dec_rep(n)) == n,
        n <= 9 ==> dec_rep(n).len() == 1,
        n <= 99 ==> dec_rep(n).len() <= 2,
        n <= 255 ==> dec_rep(n).len() <= 3,
    decreases n,
{
    if n < 10 {
        assert(dec_rep(n) == seq![digit_char(n)]);
        assert((digit_char(n) as u32) == 48 + n);
        assert(dec_rep(n).len() == 1);
        assert(dec_rep(n).last() == digit_char(n));
        assert(dec_rep(n).drop_last() =~= Seq::<char>::empty());
        assert(val_of(Seq::<char>::empty()) == 0);
        assert(val_of(dec_rep(n)) == val_of(dec_rep(n).drop_last()) * 10 + ((dec_rep(
            n,
        ).last() as u32) - 48));
        assert(val_of(dec_rep(n)) == n);
    } else {
        lemma_dec_rep_props(n / 10);
        let front = dec_rep(n / 10);
        let d = digit_char(n % 10);
        assert((d as u32) == 48 + n % 10);
        assert(dec_rep(n) == front.push(d));
        assert(front.push(d).drop_last() =~= front);
        assert(front.push(d).last() == d);
        assert(val_of(dec_rep(n)) == val_of(front) * 10 + (n % 10));
        assert(val_of(dec_rep(n)) == n);
        assert forall|i: int| 0 <= i < dec_rep(n).len() implies 48 <= ((
        #[trigger] dec_rep(n)[i]) as u32) <= 57 by {
            if i < front.len() {
                assert(dec_rep(n)[i] == front[i]);
            } else {
                assert(dec_rep(n)[i] == d);
            }
        }
    }
}

/// A digit sequence has a non-negative value.
pub proof fn lemma_val_nonneg(s: Seq<char>)
    requires
        all_digits(s),
    ensures
        val_of(s) >= 0,
    decreases s.len(),
{
    if s.len() > 0 {
        assert(all_digits(s.drop_last())) by {
            assert(forall|i: int|
                0 <= i < s.len() - 1 ==> #[trigger] s.drop_last()[i] == s[i]);
        }
        lemma_val_nonneg(s.drop_last());
    }
}

/// A prefix of a digit sequence is worth no more than the whole.
pub proof fn lemma_val_prefix(s: Seq<char>, j: int)
    requires
        all_digits(s),
        0 <= j <= s.len(),
    ensures
        val_of(s.take(j)) <= val_of(s),
    decreases s.len(),
{
    if j == s.len() {
        assert(s.take(j) =~= s);
    } else {
        assert(all_digits(s.drop_last())) by {
            assert(forall|i: int|
                0 <= i < s.len() - 1 ==> #[trigger] s.drop_last()[i] == s[i]);
        }
        lemma_val_prefix(s.drop_last(), j);
        assert(s.drop_last().take(j) =~= s.take(j));
        lemma_val_nonneg(s.drop_last());
        assert(48 <= (s.last() as u32) <= 57);
        assert(val_of(s) >= val_of(s.drop_last()));
    }
}

/// Reads a decimal octet value.  Accepts at most three digits and a
/// value up to 255; in particular it accepts every canonical rendering
/// of such a value, and returns exactly that value for it.
fn dec_parse(s: &str) -> (r: Option<u32>)
    ensures
        r matches Some(v) ==> v <= 255,
        forall|v0: nat| v0 <= 255 && s@ == dec_rep(v0) ==> r == Some(v0 as u32),
{
    let len = s.unicode_len();
    if len == 0 {
        proof {
            assert forall|v0: nat| v0 <= 255 && s@ == dec_rep(v0) implies false by {
                lemma_dec_rep_props(v0);
            }
        }
        return None;
    }
    let mut value: u32 = 0;
    let mut i: usize = 0;
    while i < len
        invariant
            len == s@.len(),
            1 <= len,
            i <= len,
            i <= 3,
            value <= 255,
            all_digits(s@.take(i as int)),
            value == val_of(s@.take(i as int)),
        decreases len - i,
    {
        let c = s.get_char(i);
        let v = c as u32;
        if v < 48 || v > 57 {
            // A non-digit: no canonical rendering contains one.
            proof {
                assert forall|v0: nat| v0 <= 255 && s@ == dec_rep(v0) implies false by {
                    lemma_dec_rep_props(v0);
                    assert(48 <= (s@[i as int] as u32) <= 57);
                }
            }
            return None;
        }
        if i >= 3 {
            // A fourth digit: canonical renderings up to 255 have three.
            proof {
                assert forall|v0: nat| v0 <= 255 && s@ == dec_rep(v0) implies false by {
                    lemma_dec_rep_props(v0);
                }
            }
            return None;
        }
        let next = value * 10 + (v - 48);
        proof {
            let tk = s@.take(i as int + 1);
            assert(tk.drop_last() =~= s@.take(i as int));
            assert(tk.last() == s@[i as int]);
            assert(all_digits(tk)) by {
                assert(forall|j: int| 0 <= j < tk.len() ==> #[trigger] tk[j] == s@[j]);
            }
            assert(val_of(tk) == value * 10 + (v - 48));
        }
        if next > 255 {
            // The prefix already exceeds an octet: the whole would too.
            proof {
                assert forall|v0: nat| v0 <= 255 && s@ == dec_rep(v0) implies false by {
                    lemma_dec_rep_props(v0);
                    lemma_val_prefix(s@, i as int + 1);
                }
            }
            return None;
        }
        value = next;
        i = i + 1;
    }
    proof {
        assert(s@.take(len as int) =~= s@);
        assert forall|v0: nat| v0 <= 255 && s@ == dec_rep(v0) implies value == v0 by {
            lemma_dec_rep_props(v0);
        }
    }
    Some(value)
}

/// The octets of an address recombine to the address, and each is at
/// most 255.
pub proof fn lemma_ip_octets(ip: u32)
    ensures
        oct0(ip) <= 255,
        oct1(ip) <= 255,
        oct2(ip) <= 255,
        oct3(ip) <= 255,
        oct0(ip) * 0x1000000 + oct1(ip) * 0x10000 + oct2(ip) * 256 + oct3(ip) == ip,
{
    let a = ip as nat;
    assert(a < 0x100000000);
    vstd::arithmetic::div_mod::lemma_fundamental_div_mod(a as int, 256);
    vstd::arithmetic::div_mod::lemma_fundamental_div_mod(a as int / 256, 256);
    vstd::arithmetic::div_mod::lemma_fundamental_div_mod(a as int / 65536, 256);
    vstd::arithmetic::div_mod::lemma_div_denominator(a as int, 256, 256);
    vstd::arithmetic::div_mod::lemma_div_denominator(a as int, 65536, 256);
    assert(a as int / 256 / 256 == a as int / 65536);
    assert(a as int / 65536 / 256 == a as int / 0x1000000);
    assert(a as int / 0x1000000 <= 255) by (nonlinear_arith)
        requires
            a < 0x100000000,
    ;
    assert(a as int == (a as int / 0x1000000) * 0x1000000 + ((a as int / 65536) % 256) * 0x10000
        + ((a as int / 256) % 256) * 256 + a as int % 256) by (nonlinear_arith)
        requires
            a as int == 256 * (a as int / 256) + a as int % 256,
            a as int / 256 == 256 * (a as int / 256 / 256) + (a as int / 256) % 256,
            a as int / 65536 == 256 * (a as int / 65536 / 256) + (a as int / 65536) % 256,
            a as int / 256 / 256 == a as int / 65536,
            a as int / 65536 / 256 == a as int / 0x1000000,
    ;
}

/// The shape of a dotted quad built from four digit groups: the three
/// dots stand exactly at the group boundaries, and the four subranges
/// between them are the groups.
pub proof fn lemma_quad_structure(d0: Seq<char>, d1: Seq<char>, d2: Seq<char>, d3: Seq<char>)
    requires
        all_digits(d0),
        all_digits(d1),
        all_digits(d2),
        all_digits(d3),
        d0.len() >= 1,
        d1.len() >= 1,
        d2.len() >= 1,
        d3.len() >= 1,
    ensures
        ({
            let t = d0 + "."@ + d1 + "."@ + d2 + "."@ + d3;
            let b0 = d0.len() as int;
            let b1 = b0 + 1 + d1.len();
            let b2 = b1 + 1 + d2.len();
            &&& t.len() == d0.len() + d1.len() + d2.len() + d3.len() + 3
            &&& t[b0] == '.'
            &&& t[b1] == '.'
            &&& t[b2] == '.'
            &&& forall|j: int|
                0 <= j < t.len() && j != b0 && j != b1 && j != b2 ==> 48 <= ((#[trigger] t[j]) as u32)
                    <= 57
            &&& t.subrange(0, b0) == d0
            &&& t.subrange(b0 + 1, b1) == d1
            &&& t.subrange(b1 + 1, b2) == d2
            &&& t.subrange(b2 + 1, t.len() as int) == d3
        }),
{
    reveal_strlit(".");
    let dot = "."@;
    assert(dot.len() == 1);
    assert(dot[0] == '.');
    let t = d0 + dot + d1 + dot + d2 + dot + d3;
    let b0 = d0.len() as int;
    let b1 = b0 + 1 + d1.len();
    let b2 = b1 + 1 + d2.len();
    assert(t.subrange(0, b0) =~= d0);
    assert(t.subrange(b0 + 1, b1) =~= d1);
    assert(t.subrange(b1 + 1, b2) =~= d2);
    assert(t.subrange(b2 + 1, t.len() as int) =~= d3);
    assert forall|j: int|
        0 <= j < t.len() && j != b0 && j != b1 && j != b2 implies 48 <= ((#[trigger] t[j]) as u32)
        <= 57 by {
        if j < b0 {
            assert(t[j] == d0[j]);
        } else if j < b1 {
            assert(t[j] == d1[j - b0 - 1]);
        } else if j < b2 {
            assert(t[j] == d2[j - b1 - 1]);
        } else {
            assert(t[j] == d3[j - b2 - 1]);
        }
    }
}


/// Splitting the canonical rendering of `ip` at its dot positions
/// yields exactly the canonical renderings of its four octets: there
/// are exactly three dots, and they stand at the group boundaries.
proof fn quad_parts(t: Seq<char>, ip: u32, ds: Seq<usize>)
    requires
        t == ipv4_rep(ip),
        forall|k: int| 0 <= k < ds.len() ==> (#[trigger] ds[k]) < t.len() && t[ds[k] as int] == '.',
        forall|k1: int, k2: int|
            0 <= k1 < k2 < ds.len() ==> (#[trigger] ds[k1]) < (#[trigger] ds[k2]),
        forall|j: int|
            0 <= j < t.len() && (#[trigger] t[j]) == '.' ==> exists|k: int|
                0 <= k < ds.len() && ds[k] == j,
    ensures
        ds.len() == 3,
        oct0(ip) <= 255,
        oct1(ip) <= 255,
        oct2(ip) <= 255,
        oct3(ip) <= 255,
        t.subrange(0, ds[0] as int) == dec_rep(oct0(ip)),
        t.subrange(ds[0] as int + 1, ds[1] as int) == dec_rep(oct1(ip)),
        t.subrange(ds[1] as int + 1, ds[2] as int) == dec_rep(oct2(ip)),
        t.subrange(ds[2] as int + 1, t.len() as int) == dec_rep(oct3(ip)),
{
    lemma_dec_rep_props(oct0(ip));
    lemma_dec_rep_props(oct1(ip));
    lemma_dec_rep_props(oct2(ip));
    lemma_dec_rep_props(oct3(ip));
    lemma_ip_octets(ip);
    lemma_quad_structure(
        dec_rep(oct0(ip)),
        dec_rep(oct1(ip)),
        dec_rep(oct2(ip)),
        dec_rep(oct3(ip)),
    );
    let b0 = dec_rep(oct0(ip)).len() as int;
    let b1 = b0 + 1 + dec_rep(oct1(ip)).len();
    let b2 = b1 + 1 + dec_rep(oct2(ip)).len();
    assert(0 < b0 < b1 < b2 < t.len());
    // A dot can stand only at a boundary: everywhere else is a digit.
    assert forall|k: int| 0 <= k < ds.len() implies ds[k] == b0 || ds[k] == b1 || ds[k] == b2 by {
        let j = ds[k] as int;
        if j != b0 && j != b1 && j != b2 {
            assert(48 <= (t[j] as u32) <= 57);
            assert(('.' as u32) == 46);
        }
    }
    // Each boundary dot is collected.
    assert(t[b0] == '.');
    assert(t[b1] == '.');
    assert(t[b2] == '.');
    let k0 = choose|k: int| 0 <= k < ds.len() && ds[k] == b0;
    let k1 = choose|k: int| 0 <= k < ds.len() && ds[k] == b1;
    let k2 = choose|k: int| 0 <= k < ds.len() && ds[k] == b2;
    assert(k0 != k1 && k0 != k2 && k1 != k2);
    assert(ds.len() >= 3);
    if ds.len() > 3 {
        assert(ds[1] > ds[0]);
        assert(ds[2] > ds[1]);
        assert(ds[3] > ds[2]);
        assert(false);
    }
    assert(ds[0] as int == b0) by {
        if ds[0] as int != b0 {
            assert(k0 > 0);
            assert(ds[k0] > ds[0]);
            assert(ds[0] as int == b1 || ds[0] as int == b2);
        }
    }
    assert(ds[1] as int == b1) by {
        if ds[1] as int != b1 {
            assert(ds[1] as int == b2);
            assert(k1 == 2);
            assert(ds[2] > ds[1]);
        }
    }
    assert(ds[2] as int == b2);
}

/// Reads a dotted-quad IPv4 address back into its 32-bit value.
///
/// Accepts exactly the canonical renderings: `Some(ip)` comes back if
/// and only if the input equals `ipv4_rep(ip)` (so leading zeros and
/// out-of-range octets are rejected).  Soundness holds because the
/// scanned candidate is re-rendered and compared with the input;
/// completeness because the canonical text splits at its three dots
/// into the four canonical octet renderings.
pub fn parse_ipv4(s: &str) -> (r: Option<u32>)
    ensures
        r matches Some(ip) ==> s@ == ipv4_rep(ip),
        forall|ip0: u32| s@ == ipv4_rep(ip0) ==> r == Some(ip0),
{
    let len = s.unicode_len();
    let mut dots: Vec<usize> = Vec::new();
    let mut i: usize = 0;
    while i < len
        invariant
            len == s@.len(),
            i <= len,
            forall|k: int|
                0 <= k < dots@.len() ==> (#[trigger] dots@[k]) < i && s@[dots@[k] as int] == '.',
            forall|k1: int, k2: int|
                0 <= k1 < k2 < dots@.len() ==> (#[trigger] dots@[k1]) < (#[trigger] dots@[k2]),
            forall|j: int|
                0 <= j < i && (#[trigger] s@[j]) == '.' ==> exists|k: int|
                    0 <= k < dots@.len() && dots@[k] == j,
        decreases len - i,
    {
        let c = s.get_char(i);
        if c == '.' {
            let ghost pre = dots@;
            dots.push(i);
            proof {
                assert forall|j: int|
                    0 <= j < i + 1 && (#[trigger] s@[j]) == '.' implies exists|k: int|
                    0 <= k < dots@.len() && dots@[k] == j by {
                    if j == i {
                        assert(dots@[pre.len() as int] == i);
                    } else {
                        let k = choose|k: int| 0 <= k < pre.len() && pre[k] == j;
                        assert(dots@[k] == j);
                    }
                }
            }
        }
        i = i + 1;
    }
    if dots.len() != 3 {
        proof {
            assert forall|ip0: u32| s@ == ipv4_rep(ip0) implies false by {
                quad_parts(s@, ip0, dots@);
            }
        }
        return None;
    }
    let i1 = dots[0];
    let i2 = dots[1];
    let i3 = dots[2];
    let p0 = s.substring_char(0, i1);
    let p1 = s.substring_char(i1 + 1, i2);
    let p2 = s.substring_char(i2 + 1, i3);
    let p3 = s.substring_char(i3 + 1, len);
    proof {
        assert forall|ip0: u32| s@ == ipv4_rep(ip0) implies p0@ == dec_rep(oct0(ip0)) && p1@
            == dec_rep(oct1(ip0)) && p2@ == dec_rep(oct2(ip0)) && p3@ == dec_rep(oct3(ip0))
            && oct0(ip0) <= 255 && oct1(ip0) <= 255 && oct2(ip0) <= 255 && oct3(ip0) <= 255 by {
            quad_parts(s@, ip0, dots@);
        }
    }
    let v0 = match dec_parse(p0) {
        Some(v) => v,
        None => {
            return None;
        },
    };
    let v1 = match dec_parse(p1) {
        Some(v) => v,
        None => {
            return None;
        },
    };
    let v2 = match dec_parse(p2) {
        Some(v) => v,
        None => {
            return None;
        },
    };
    let v3 = match dec_parse(p3) {
        Some(v) => v,
        None => {
            return None;
        },
    };
    let cand: u32 = v0 * 0x1000000 + v1 * 0x10000 + v2 * 256 + v3;
    proof {
        assert forall|ip0: u32| s@ == ipv4_rep(ip0) implies cand == ip0 by {
            lemma_ip_octets(ip0);
        }
    }
    let rendered = format_ipv4(cand);
    let owned = s.to_owned();
    if rendered.eq(&owned) {
        Some(cand)
    } else {
        proof {
            assert forall|ip0: u32| s@ == ipv4_rep(ip0) implies false by {
                lemma_ip_octets(ip0);
            }
        }
        None
    }
}

} // verus!
