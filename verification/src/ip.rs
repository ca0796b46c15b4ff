use crate::numbers::{
    all_dec_digits, all_hex_digits, dec_chars_of, dec_value, hex_chars_of, hex_value,
    parse_dec_u32, parse_hex_u16, u16_to_dec_chars, u16_to_hex_chars,
};
use crate::text::{split_chars, split_on};
use vstd::prelude::*;

verus! {

/// A numeric internet address, v4 or v6, held as plain integers.
#[derive(Debug, Clone, Copy, PartialEq, Eq, Structural)]
pub enum IpAddr {
    /// Four octets, most significant first.
    V4(u8, u8, u8, u8),
    /// Eight sixteen-bit groups, most significant first.
    V6(u16, u16, u16, u16, u16, u16, u16, u16),
}

/// `p` is a valid dotted-quad octet: one to three decimal digits whose value
/// is at most 255.
pub open spec fn octet_ok(p: Seq<char>) -> bool {
    1 <= p.len() <= 3 && all_dec_digits(p) && dec_value(p) <= 255
}

/// Reads `s` as a dotted-quad v4 address: exactly four octets separated by
/// dots.
pub open spec fn spec_parse_ipv4(s: Seq<char>) -> Option<IpAddr> {
    let parts = split_on(s, '.');
    if parts.len() == 4 && octet_ok(parts[0]) && octet_ok(parts[1]) && octet_ok(parts[2])
        && octet_ok(parts[3]) {
        Some(
            IpAddr::V4(
                dec_value(parts[0]) as u8,
                dec_value(parts[1]) as u8,
                dec_value(parts[2]) as u8,
                dec_value(parts[3]) as u8,
            ),
        )
    } else {
        None
    }
}

/// Reads one dotted-quad octet.
fn parse_octet(p: &Vec<char>) -> (r: Option<u8>)
    ensures
        r is Some <==> octet_ok(p@),
        r matches Some(n) ==> n == dec_value(p@),
{
    if p.len() > 3 {
        return None;
    }
    match parse_dec_u32(p) {
        None => None,
        Some(n) => {
            if n <= 255 {
                Some(n as u8)
            } else {
                None
            }
        },
    }
}

/// Reads `v` as a dotted-quad v4 address.
pub fn parse_ipv4_chars(v: &Vec<char>) -> (r: Option<IpAddr>)
    ensures
        r == spec_parse_ipv4(v@),
{
    let parts = split_chars(v, '.');
    let ghost sparts = split_on(v@, '.');
    if parts.len() != 4 {
        return None;
    }
    let a = parse_octet(&parts[0]);
    let b = parse_octet(&parts[1]);
    let c = parse_octet(&parts[2]);
    let d = parse_octet(&parts[3]);
    match (a, b, c, d) {
        (Some(a), Some(b), Some(c), Some(d)) => Some(IpAddr::V4(a, b, c, d)),
        _ => None,
    }
}

/// `p` is a valid v6 group: one to four hexadecimal digits.
pub open spec fn h16_ok(p: Seq<char>) -> bool {
    1 <= p.len() <= 4 && all_hex_digits(p)
}

/// Every field of `parts` in `[from, to)` is a valid v6 group.
pub open spec fn groups_ok(parts: Seq<Seq<char>>, from: int, to: int) -> bool {
    forall|k: int| from <= k < to ==> h16_ok(#[trigger] parts[k])
}

/// The numeric values of the fields of `parts`.
pub open spec fn group_vals(parts: Seq<Seq<char>>) -> Seq<u16> {
    parts.map_values(|p: Seq<char>| (hex_value(p) as u16))
}

/// `n` zero groups.
pub open spec fn zero_groups(n: int) -> Seq<u16> {
    Seq::new(n as nat, |i: int| 0u16)
}

/// The address made of the eight groups of `g`.
pub open spec fn v6_of(g: Seq<u16>) -> IpAddr {
    IpAddr::V6(g[0], g[1], g[2], g[3], g[4], g[5], g[6], g[7])
}

/// Reads `s` as a textual v6 address: colon-separated groups of one to four
/// hexadecimal digits, with at most one `::` standing for the missing zero
/// groups.  Embedded dotted-quad endings and zone suffixes are not part of
/// this grammar.
pub open spec fn spec_parse_ipv6(s: Seq<char>) -> Option<IpAddr> {
    let parts = split_on(s, ':');
    let n = parts.len() as int;
    if forall|k: int| 0 <= k < n ==> (#[trigger] parts[k]).len() > 0 {
        // no compression: exactly eight groups
        if n == 8 && groups_ok(parts, 0, 8) {
            Some(v6_of(group_vals(parts)))
        } else {
            None
        }
    } else if n == 3 && parts[0].len() == 0 && parts[1].len() == 0 && parts[2].len() == 0 {
        // the whole address is `::`
        Some(v6_of(zero_groups(8)))
    } else if n >= 3 && parts[0].len() == 0 && parts[1].len() == 0 && (forall|k: int|
        2 <= k < n ==> (#[trigger] parts[k]).len() > 0) {
        // leading `::`
        if n - 2 <= 7 && groups_ok(parts, 2, n) {
            Some(v6_of(zero_groups(8 - (n - 2)) + group_vals(parts.skip(2))))
        } else {
            None
        }
    } else if n >= 3 && parts[n - 1].len() == 0 && parts[n - 2].len() == 0 && (forall|k: int|
        0 <= k < n - 2 ==> (#[trigger] parts[k]).len() > 0) {
        // trailing `::`
        if n - 2 <= 7 && groups_ok(parts, 0, n - 2) {
            Some(v6_of(group_vals(parts.take(n - 2)) + zero_groups(8 - (n - 2))))
        } else {
            None
        }
    } else if n <= 8 && (exists|i: int|
        0 < i < n - 1 && (#[trigger] parts[i]).len() == 0 && (forall|k: int|
            0 <= k < n && k != i ==> (#[trigger] parts[k]).len() > 0)) {
        // `::` between two runs of groups
        let i = choose|i: int|
            0 < i < n - 1 && (#[trigger] parts[i]).len() == 0 && (forall|k: int|
                0 <= k < n && k != i ==> (#[trigger] parts[k]).len() > 0);
        if groups_ok(parts, 0, i) && groups_ok(parts, i + 1, n) {
            Some(
                v6_of(
                    group_vals(parts.take(i)) + zero_groups(8 - (n - 1)) + group_vals(
                        parts.skip(i + 1),
                    ),
                ),
            )
        } else {
            None
        }
    } else {
        None
    }
}

/// Every field of `parts` in `[from, to)` is non-empty.
fn all_nonempty(parts: &Vec<Vec<char>>, from: usize, to: usize) -> (r: bool)
    requires
        from <= to <= parts@.len(),
    ensures
        r == (forall|k: int| from <= k < to ==> (#[trigger] parts@[k]@).len() > 0),
{
    let mut i: usize = from;
    while i < to
        invariant
            from <= i <= to <= parts@.len(),
            forall|k: int| from <= k < i ==> (#[trigger] parts@[k]@).len() > 0,
        decreases to - i,
    {
        if parts[i].len() == 0 {
            return false;
        }
        i += 1;
    }
    true
}

/// Index of the first empty field of `parts`, or its length when every field
/// is non-empty.
fn first_empty(parts: &Vec<Vec<char>>) -> (r: usize)
    ensures
        r <= parts@.len(),
        forall|k: int| 0 <= k < r ==> (#[trigger] parts@[k]@).len() > 0,
        r < parts@.len() ==> parts@[r as int]@.len() == 0,
{
    let mut i: usize = 0;
    while i < parts.len()
        invariant
            i <= parts@.len(),
            forall|k: int| 0 <= k < i ==> (#[trigger] parts@[k]@).len() > 0,
        decreases parts@.len() - i,
    {
        if parts[i].len() == 0 {
            return i;
        }
        i += 1;
    }
    i
}

/// Reads the fields of `parts` in `[from, to)` as v6 groups and appends
/// their values to `dst`.
fn append_groups(dst: &mut Vec<u16>, parts: &Vec<Vec<char>>, from: usize, to: usize) -> (r: bool)
    requires
        from <= to <= parts@.len(),
    ensures
        r == groups_ok(parts@.map_values(|p: Vec<char>| p@), from as int, to as int),
        r ==> final(dst)@ == old(dst)@ + group_vals(
            parts@.map_values(|p: Vec<char>| p@).subrange(from as int, to as int),
        ),
        !r ==> final(dst)@ == old(dst)@,
{
    let ghost sparts = parts@.map_values(|p: Vec<char>| p@);
    let ghost orig = dst@;
    let mut i: usize = from;
    let mut vals: Vec<u16> = Vec::new();
    while i < to
        invariant
            from <= i <= to <= parts@.len(),
            sparts == parts@.map_values(|p: Vec<char>| p@),
            forall|k: int| from <= k < i ==> h16_ok(#[trigger] sparts[k]),
            vals@.len() == i - from,
            forall|j: int| 0 <= j < vals@.len() ==> vals@[j] == (hex_value(
                sparts[from + j],
            ) as u16),
        decreases to - i,
    {
        match parse_hex_u16(&parts[i]) {
            None => {
                proof {
                    assert(sparts[i as int] == parts@[i as int]@);
                    assert(!h16_ok(sparts[i as int]));
                }
                return false;
            },
            Some(g) => {
                proof {
                    assert(sparts[i as int] == parts@[i as int]@);
                }
                vals.push(g);
            },
        }
        i += 1;
    }
    let ghost added = vals@;
    dst.append(&mut vals);
    proof {
        assert(dst@ =~= orig + added);
        assert(added =~= group_vals(sparts.subrange(from as int, to as int)));
    }
    true
}

/// Appends `count` zero groups to `dst`.
fn append_zero_groups(dst: &mut Vec<u16>, count: usize)
    ensures
        final(dst)@ == old(dst)@ + zero_groups(count as int),
{
    let ghost orig = dst@;
    let mut i: usize = 0;
    while i < count
        invariant
            i <= count,
            dst@ == orig + zero_groups(i as int),
        decreases count - i,
    {
        let ghost before = dst@;
        dst.push(0);
        i += 1;
        proof {
            assert(dst@ =~= orig + zero_groups(i as int));
        }
    }
}

/// Turns exactly eight collected groups into an address.
fn v6_from_groups(g: &Vec<u16>) -> (r: IpAddr)
    requires
        g@.len() == 8,
    ensures
        r == v6_of(g@),
{
    IpAddr::V6(g[0], g[1], g[2], g[3], g[4], g[5], g[6], g[7])
}

/// Reads `v` as a textual v6 address.
pub fn parse_ipv6_chars(v: &Vec<char>) -> (r: Option<IpAddr>)
    ensures
        r == spec_parse_ipv6(v@),
{
    let parts = split_chars(v, ':');
    let ghost sparts = split_on(v@, ':');
    proof {
        assert(sparts =~= parts@.map_values(|p: Vec<char>| p@));
    }
    let n = parts.len();
    if all_nonempty(&parts, 0, n) {
        if n != 8 {
            return None;
        }
        let mut g: Vec<u16> = Vec::new();
        if append_groups(&mut g, &parts, 0, 8) {
            proof {
                assert(sparts.subrange(0, 8) =~= sparts);
                assert(g@ =~= group_vals(sparts));
            }
            Some(v6_from_groups(&g))
        } else {
            None
        }
    } else if n == 3 && parts[0].len() == 0 && parts[1].len() == 0 && parts[2].len() == 0 {
        let mut g: Vec<u16> = Vec::new();
        append_zero_groups(&mut g, 8);
        proof {
            assert(g@ =~= zero_groups(8));
        }
        Some(v6_from_groups(&g))
    } else if n >= 3 && parts[0].len() == 0 && parts[1].len() == 0 && all_nonempty(&parts, 2, n) {
        if n - 2 > 7 {
            return None;
        }
        let mut g: Vec<u16> = Vec::new();
        append_zero_groups(&mut g, 8 - (n - 2));
        if append_groups(&mut g, &parts, 2, n) {
            proof {
                assert(sparts.skip(2) =~= sparts.subrange(2, n as int));
                assert(g@ =~= zero_groups(8 - (n - 2)) + group_vals(sparts.skip(2)));
            }
            Some(v6_from_groups(&g))
        } else {
            None
        }
    } else if n >= 3 && parts[n - 1].len() == 0 && parts[n - 2].len() == 0 && all_nonempty(
        &parts,
        0,
        n - 2,
    ) {
        if n - 2 > 7 {
            return None;
        }
        let mut g: Vec<u16> = Vec::new();
        if append_groups(&mut g, &parts, 0, n - 2) {
            append_zero_groups(&mut g, 8 - (n - 2));
            proof {
                assert(sparts.take(n - 2) =~= sparts.subrange(0, n - 2));
                assert(g@ =~= group_vals(sparts.take(n - 2)) + zero_groups(8 - (n - 2)));
            }
            Some(v6_from_groups(&g))
        } else {
            None
        }
    } else if n <= 8 {
        let fe = first_empty(&parts);
        proof {
            assert(fe < n);
        }
        let ghost pred = |i: int|
            0 < i < n - 1 && (sparts[i]).len() == 0 && (forall|k: int|
                0 <= k < n && k != i ==> (#[trigger] sparts[k]).len() > 0);
        if 0 < fe && fe < n - 1 && all_nonempty(&parts, fe + 1, n) {
            proof {
                assert(forall|k: int|
                    0 <= k < n && k != fe ==> (#[trigger] sparts[k]).len() > 0);
                assert(0 < fe < n - 1 && (sparts[fe as int]).len() == 0 && (forall|k: int|
                    0 <= k < n && k != fe ==> (#[trigger] sparts[k]).len() > 0));
                let i = choose|i: int|
                    0 < i < n - 1 && (#[trigger] sparts[i]).len() == 0 && (forall|k: int|
                        0 <= k < n && k != i ==> (#[trigger] sparts[k]).len() > 0);
                if i != fe {
                    assert((sparts[fe as int]).len() > 0);
                    assert(false);
                }
                assert(i == fe);
            }
            let mut g: Vec<u16> = Vec::new();
            if append_groups(&mut g, &parts, 0, fe) {
                append_zero_groups(&mut g, 8 - (n - 1));
                if append_groups(&mut g, &parts, fe + 1, n) {
                    proof {
                        assert(sparts.take(fe as int) =~= sparts.subrange(0, fe as int));
                        assert(sparts.skip(fe + 1) =~= sparts.subrange(fe + 1, n as int));
                        assert(g@ =~= group_vals(sparts.take(fe as int)) + zero_groups(
                            8 - (n - 1),
                        ) + group_vals(sparts.skip(fe + 1)));
                    }
                    Some(v6_from_groups(&g))
                } else {
                    None
                }
            } else {
                proof {
                    assert(!groups_ok(sparts, 0, fe as int));
                }
                None
            }
        } else {
            proof {
                if exists|i: int|
                    0 < i < n - 1 && (#[trigger] sparts[i]).len() == 0 && (forall|k: int|
                        0 <= k < n && k != i ==> (#[trigger] sparts[k]).len() > 0) {
                    let i = choose|i: int|
                        0 < i < n - 1 && (#[trigger] sparts[i]).len() == 0 && (forall|k: int|
                            0 <= k < n && k != i ==> (#[trigger] sparts[k]).len() > 0);
                    if fe < i {
                        assert((sparts[fe as int]).len() > 0);
                        assert(false);
                    }
                    assert(i == fe);
                    assert(forall|k: int|
                        fe + 1 <= k < n ==> (#[trigger] sparts[k]).len() > 0);
                    assert(false);
                }
            }
            None
        }
    } else {
        None
    }
}

/// Reads `s` as a numeric address: dotted-quad first, then the v6 grammar,
/// as the device announcements carry either form.
pub open spec fn spec_parse_ip(s: Seq<char>) -> Option<IpAddr> {
    match spec_parse_ipv4(s) {
        Some(a) => Some(a),
        None => spec_parse_ipv6(s),
    }
}

/// Reads `v` as a numeric v4 or v6 address.
pub fn parse_ip_chars(v: &Vec<char>) -> (r: Option<IpAddr>)
    ensures
        r == spec_parse_ip(v@),
{
    match parse_ipv4_chars(v) {
        Some(a) => Some(a),
        None => parse_ipv6_chars(v),
    }
}

/// Textual form of an address: dotted decimal for v4; all eight groups in
/// lower-case hexadecimal without leading zeros, colon-separated and never
/// compressed, for v6.
pub open spec fn ip_display(ip: IpAddr) -> Seq<char> {
    match ip {
        IpAddr::V4(a, b, c, d) => dec_chars_of(a as nat) + seq!['.'] + dec_chars_of(b as nat)
            + seq!['.'] + dec_chars_of(c as nat) + seq!['.'] + dec_chars_of(d as nat),
        IpAddr::V6(g0, g1, g2, g3, g4, g5, g6, g7) => hex_chars_of(g0 as nat) + seq![':']
            + hex_chars_of(g1 as nat) + seq![':'] + hex_chars_of(g2 as nat) + seq![':']
            + hex_chars_of(g3 as nat) + seq![':'] + hex_chars_of(g4 as nat) + seq![':']
            + hex_chars_of(g5 as nat) + seq![':'] + hex_chars_of(g6 as nat) + seq![':']
            + hex_chars_of(g7 as nat),
    }
}

/// Writes `ip` in its textual form.
pub fn ip_to_chars(ip: &IpAddr) -> (r: Vec<char>)
    ensures
        r@ == ip_display(*ip),
{
    match ip {
        IpAddr::V4(a, b, c, d) => {
            let mut r = u16_to_dec_chars(*a as u16);
            r.push('.');
            let mut t = u16_to_dec_chars(*b as u16);
            r.append(&mut t);
            r.push('.');
            let mut t = u16_to_dec_chars(*c as u16);
            r.append(&mut t);
            r.push('.');
            let mut t = u16_to_dec_chars(*d as u16);
            r.append(&mut t);
            proof {
                assert(r@ =~= ip_display(*ip));
            }
            r
        },
        IpAddr::V6(g0, g1, g2, g3, g4, g5, g6, g7) => {
            let mut r = u16_to_hex_chars(*g0);
            r.push(':');
            let mut t = u16_to_hex_chars(*g1);
            r.append(&mut t);
            r.push(':');
            let mut t = u16_to_hex_chars(*g2);
            r.append(&mut t);
            r.push(':');
            let mut t = u16_to_hex_chars(*g3);
            r.append(&mut t);
            r.push(':');
            let mut t = u16_to_hex_chars(*g4);
            r.append(&mut t);
            r.push(':');
            let mut t = u16_to_hex_chars(*g5);
            r.append(&mut t);
            r.push(':');
            let mut t = u16_to_hex_chars(*g6);
            r.append(&mut t);
            r.push(':');
            let mut t = u16_to_hex_chars(*g7);
            r.append(&mut t);
            proof {
                assert(r@ =~= ip_display(*ip));
            }
            r
        },
    }
}

} // verus!
