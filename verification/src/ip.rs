//! Verified recognizers for textual IP addresses: dotted-quad IPv4 and
//! colon-hex IPv6 (with `::` compression and an embedded IPv4 tail), and
//! the loopback / link-local classification built on them.

use vstd::prelude::*;

use crate::text::all_digits;
use crate::text::dec_val;
use crate::text::digit_val;
use crate::text::is_digit;
use crate::text::parse_u16;
use crate::text::sep_pieces;
use crate::text::seq_views;
use crate::text::split_on;

verus! {

/// Powers of ten, for digit-string bounds.
pub open spec fn pow10(n: nat) -> nat
    decreases n,
{
    if n == 0 {
        1
    } else {
        10 * pow10((n - 1) as nat)
    }
}

/// A digit string's value is below ten to its length.
pub proof fn lemma_dec_val_bound(s: Seq<char>)
    requires
        all_digits(s),
    ensures
        dec_val(s) < pow10(s.len()),
    decreases s.len(),
{
    if s.len() > 0 {
        assert(all_digits(s.drop_last()));
        lemma_dec_val_bound(s.drop_last());
        assert(is_digit(s.last()));
        assert(digit_val(s.last()) <= 9);
    }
}

/// One decimal octet of a dotted-quad address: one to three digits, no
/// leading zero, value at most 255.
pub open spec fn is_dec_octet(p: Seq<char>) -> bool {
    1 <= p.len() <= 3 && all_digits(p) && dec_val(p) <= 255 && (p.len() > 1 ==> p[0] != '0')
}

/// A dotted-quad IPv4 address: exactly four decimal octets.
pub open spec fn spec_is_ipv4(s: Seq<char>) -> bool {
    let ps = sep_pieces(s, '.');
    ps.len() == 4 && is_dec_octet(ps[0]) && is_dec_octet(ps[1]) && is_dec_octet(ps[2])
        && is_dec_octet(ps[3])
}

/// The value of one octet of a dotted-quad address.
pub open spec fn spec_ipv4_octet(s: Seq<char>, i: int) -> nat {
    dec_val(sep_pieces(s, '.')[i])
}

/// An IPv4 loopback address: first octet 127.
pub open spec fn spec_ipv4_loopback(s: Seq<char>) -> bool {
    spec_is_ipv4(s) && spec_ipv4_octet(s, 0) == 127
}

/// An IPv4 link-local address: first octets 169.254.
pub open spec fn spec_ipv4_link_local(s: Seq<char>) -> bool {
    spec_is_ipv4(s) && spec_ipv4_octet(s, 0) == 169 && spec_ipv4_octet(s, 1) == 254
}

/// Parses one decimal octet.
fn parse_octet(p: &str) -> (r: Option<u8>)
    ensures
        match r {
            Some(v) => is_dec_octet(p@) && v as nat == dec_val(p@),
            None => !is_dec_octet(p@),
        },
{
    let n = p.unicode_len();
    if n == 0 || n > 3 {
        return None;
    }
    if n > 1 && p.get_char(0) == '0' {
        return None;
    }
    match parse_u16(p) {
        Some(v) => {
            if v <= 255 {
                Some(v as u8)
            } else {
                None
            }
        },
        None => {
            proof {
                if all_digits(p@) {
                    lemma_dec_val_bound(p@);
                    assert(pow10(0) == 1);
                    assert(pow10(1) == 10);
                    assert(pow10(2) == 100);
                    assert(pow10(3) == 1000);
                    assert(dec_val(p@) < 1000);
                }
            }
            None
        },
    }
}

/// Parses a dotted-quad IPv4 address into its four octets.
pub fn parse_ipv4(s: &str) -> (r: Option<(u8, u8, u8, u8)>)
    ensures
        match r {
            Some(o) => spec_is_ipv4(s@) && o.0 as nat == spec_ipv4_octet(s@, 0) && o.1 as nat
                == spec_ipv4_octet(s@, 1) && o.2 as nat == spec_ipv4_octet(s@, 2) && o.3 as nat
                == spec_ipv4_octet(s@, 3),
            None => !spec_is_ipv4(s@),
        },
{
    let ps = split_on(s, '.');
    if ps.len() != 4 {
        return None;
    }
    let a = match parse_octet(ps[0].as_str()) {
        Some(v) => v,
        None => {
            return None;
        },
    };
    let b = match parse_octet(ps[1].as_str()) {
        Some(v) => v,
        None => {
            return None;
        },
    };
    let c = match parse_octet(ps[2].as_str()) {
        Some(v) => v,
        None => {
            return None;
        },
    };
    let d = match parse_octet(ps[3].as_str()) {
        Some(v) => v,
        None => {
            return None;
        },
    };
    Some((a, b, c, d))
}

/// A hexadecimal digit, either case.
pub open spec fn is_hex_digit(c: char) -> bool {
    is_digit(c) || ('a' <= c && c <= 'f') || ('A' <= c && c <= 'F')
}

/// The value of a hexadecimal digit character.
pub open spec fn hex_digit_val(c: char) -> nat {
    if is_digit(c) {
        digit_val(c)
    } else if 'a' <= c && c <= 'f' {
        (c as u32 - 'a' as u32 + 10) as nat
    } else {
        (c as u32 - 'A' as u32 + 10) as nat
    }
}

/// The value of a hex-digit string read in base sixteen.
pub open spec fn hex_val(s: Seq<char>) -> nat
    decreases s.len(),
{
    if s.len() == 0 {
        0
    } else {
        hex_val(s.drop_last()) * 16 + hex_digit_val(s.last())
    }
}

/// One group of a colon-hex IPv6 address: one to four hex digits.
pub open spec fn is_hex_group(p: Seq<char>) -> bool {
    1 <= p.len() <= 4 && (forall|i: int| 0 <= i < p.len() ==> is_hex_digit(#[trigger] p[i]))
}

/// Powers of sixteen, for hex-string bounds.
pub open spec fn pow16(n: nat) -> nat
    decreases n,
{
    if n == 0 {
        1
    } else {
        16 * pow16((n - 1) as nat)
    }
}

/// A hex string's value is below sixteen to its length.
pub proof fn lemma_hex_val_bound(s: Seq<char>)
    requires
        forall|i: int| 0 <= i < s.len() ==> is_hex_digit(#[trigger] s[i]),
    ensures
        hex_val(s) < pow16(s.len()),
    decreases s.len(),
{
    if s.len() > 0 {
        lemma_hex_val_bound(s.drop_last());
        assert(is_hex_digit(s.last()));
        assert(hex_digit_val(s.last()) <= 15);
    }
}

/// The value of one hexadecimal digit character.
fn hex_digit_value(c: char) -> (r: Option<u8>)
    ensures
        match r {
            Some(v) => is_hex_digit(c) && v as nat == hex_digit_val(c),
            None => !is_hex_digit(c),
        },
{
    if c >= '0' && c <= '9' {
        Some((c as u32 - 48) as u8)
    } else if c >= 'a' && c <= 'f' {
        Some((c as u32 - 87) as u8)
    } else if c >= 'A' && c <= 'F' {
        Some((c as u32 - 55) as u8)
    } else {
        None
    }
}

/// Parses one IPv6 group of one to four hex digits.
fn parse_hex_group(p: &str) -> (r: Option<u16>)
    ensures
        match r {
            Some(v) => is_hex_group(p@) && v as nat == hex_val(p@),
            None => !is_hex_group(p@),
        },
{
    let n = p.unicode_len();
    if n == 0 || n > 4 {
        return None;
    }
    let mut val: u32 = 0;
    let mut i: usize = 0;
    proof {
        assert(p@.subrange(0, 0) =~= Seq::<char>::empty());
        assert(pow16(0) == 1);
        assert(pow16(1) == 16);
        assert(pow16(2) == 256);
        assert(pow16(3) == 4096);
        assert(pow16(4) == 65536);
    }
    while i < n
        invariant
            i <= n,
            n == p@.len(),
            n <= 4,
            forall|j: int| 0 <= j < i ==> is_hex_digit(#[trigger] p@[j]),
            val as nat == hex_val(p@.subrange(0, i as int)),
            val < 65536,
            pow16(0) == 1 && pow16(1) == 16 && pow16(2) == 256 && pow16(3) == 4096 && pow16(4)
                == 65536,
        decreases n - i,
    {
        let ghost pre = p@.subrange(0, i as int);
        proof {
            assert(p@.subrange(0, i as int + 1).drop_last() =~= pre);
            assert(p@.subrange(0, i as int + 1).last() == p@[i as int]);
            assert(forall|j: int| 0 <= j < i ==> is_hex_digit(#[trigger] pre[j]));
            lemma_hex_val_bound(pre);
            assert(pow16(i as nat) <= 4096);
        }
        let c = p.get_char(i);
        match hex_digit_value(c) {
            Some(d) => {
                val = val * 16 + d as u32;
            },
            None => {
                return None;
            },
        }
        i += 1;
    }
    proof {
        assert(p@.subrange(0, n as int) =~= p@);
    }
    Some(val as u16)
}

/// The values of a piece list in which every piece must be a hex group.
pub open spec fn hex_group_vals(ps: Seq<Seq<char>>) -> Option<Seq<u16>>
    decreases ps.len(),
{
    if ps.len() == 0 {
        Some(Seq::empty())
    } else if is_hex_group(ps.last()) {
        match hex_group_vals(ps.drop_last()) {
            Some(v) => Some(v.push((hex_val(ps.last()) as u16))),
            None => None,
        }
    } else {
        None
    }
}

/// The two groups an embedded IPv4 tail stands for.
pub open spec fn spec_ipv4_group_pair(s: Seq<char>) -> Seq<u16> {
    seq![
        ((spec_ipv4_octet(s, 0) * 256 + spec_ipv4_octet(s, 1)) as u16),
        ((spec_ipv4_octet(s, 2) * 256 + spec_ipv4_octet(s, 3)) as u16),
    ]
}

/// The values of a piece list whose last piece may instead be an
/// embedded IPv4 address, counting as two groups.
pub open spec fn tail_group_vals(ps: Seq<Seq<char>>) -> Option<Seq<u16>> {
    if ps.len() > 0 && spec_is_ipv4(ps.last()) {
        match hex_group_vals(ps.drop_last()) {
            Some(v) => Some(v + spec_ipv4_group_pair(ps.last())),
            None => None,
        }
    } else {
        hex_group_vals(ps)
    }
}

/// `n` zero groups.
pub open spec fn zero_groups(n: nat) -> Seq<u16> {
    Seq::new(n, |i: int| 0u16)
}

/// The index of the first occurrence of `p` in `s` at or after `i`.
pub open spec fn find_sub_from(s: Seq<char>, p: Seq<char>, i: int) -> Option<int>
    decreases s.len() - i
        when 0 <= i
{
    if i + p.len() > s.len() {
        None
    } else if p.len() == 0 {
        Some(i)
    } else if s.subrange(i, i + p.len()) == p {
        Some(i)
    } else {
        find_sub_from(s, p, i + 1)
    }
}

/// A found occurrence lies inside the string and matches.
pub proof fn lemma_find_sub_bounds(s: Seq<char>, p: Seq<char>, i: int, k: int)
    requires
        0 <= i,
        find_sub_from(s, p, i) == Some(k),
    ensures
        i <= k,
        k + p.len() <= s.len(),
        s.subrange(k, k + p.len()) == p,
    decreases s.len() - i,
{
    if i + p.len() > s.len() {
    } else if p.len() == 0 {
        assert(s.subrange(k, k + p.len()) =~= p);
    } else if s.subrange(i, i + p.len()) == p {
    } else {
        lemma_find_sub_bounds(s, p, i + 1, k);
    }
}

/// Finds the first occurrence of `p` in `s`.
fn find_substr(s: &str, p: &str) -> (r: Option<usize>)
    ensures
        match r {
            Some(i) => find_sub_from(s@, p@, 0) == Some(i as int),
            None => find_sub_from(s@, p@, 0) is None,
        },
{
    let n = s.unicode_len();
    let m = p.unicode_len();
    if m > n {
        return None;
    }
    if m == 0 {
        return Some(0);
    }
    let mut i: usize = 0;
    loop
        invariant
            i <= n - m,
            1 <= m <= n,
            n == s@.len(),
            m == p@.len(),
            find_sub_from(s@, p@, 0) == find_sub_from(s@, p@, i as int),
        decreases n - m - i,
    {
        if crate::text::match_at(s, p, i, n, m) {
            return Some(i);
        }
        if i == n - m {
            proof {
                assert(find_sub_from(s@, p@, i as int + 1) is None);
                assert(find_sub_from(s@, p@, i as int) is None);
            }
            return None;
        }
        i += 1;
    }
}

/// The group values of a textual IPv6 address: without `::`, exactly
/// eight groups; with one `::`, the groups on either side with zeros
/// between, at most seven in all. The last group may be an embedded
/// IPv4 address, counting as two.
pub open spec fn spec_ipv6_groups(s: Seq<char>) -> Option<Seq<u16>> {
    match find_sub_from(s, "::"@, 0) {
        None => match tail_group_vals(sep_pieces(s, ':')) {
            Some(v) => if v.len() == 8 {
                Some(v)
            } else {
                None
            },
            None => None,
        },
        Some(i) => {
            let left = s.take(i);
            let right = s.skip(i + 2);
            let front = if left.len() == 0 {
                Some(Seq::<u16>::empty())
            } else {
                hex_group_vals(sep_pieces(left, ':'))
            };
            let back = if right.len() == 0 {
                Some(Seq::<u16>::empty())
            } else {
                tail_group_vals(sep_pieces(right, ':'))
            };
            match (front, back) {
                (Some(f), Some(b)) => if f.len() + b.len() <= 7 {
                    Some(f + zero_groups((8 - f.len() - b.len()) as nat) + b)
                } else {
                    None
                },
                _ => None,
            }
        },
    }
}

/// A string this library accepts as an IPv6 address.
pub open spec fn spec_is_ipv6(s: Seq<char>) -> bool {
    spec_ipv6_groups(s) is Some
}

/// The IPv6 loopback address: all groups zero but the last, which is one.
pub open spec fn spec_ipv6_loopback(s: Seq<char>) -> bool {
    spec_ipv6_groups(s) == Some(zero_groups(7).push(1u16))
}

/// A valid IPv6 address has exactly eight groups.
pub proof fn lemma_ipv6_eight_groups(s: Seq<char>, v: Seq<u16>)
    requires
        spec_ipv6_groups(s) == Some(v),
    ensures
        v.len() == 8,
{
}

/// A piece list with an unusable prefix has no group values.
proof fn lemma_hex_groups_none(ps: Seq<Seq<char>>, k: int)
    requires
        0 <= k <= ps.len(),
        hex_group_vals(ps.take(k)) is None,
    ensures
        hex_group_vals(ps) is None,
    decreases ps.len() - k,
{
    if k < ps.len() {
        assert(ps.take(k + 1).drop_last() =~= ps.take(k));
        assert(ps.take(k + 1).last() == ps[k]);
        lemma_hex_groups_none(ps, k + 1);
    } else {
        assert(ps.take(k) =~= ps);
    }
}

/// Parses a prefix of a piece list as hex groups.
fn hex_groups_prefix(ps: &Vec<String>, hi: usize) -> (r: Option<Vec<u16>>)
    requires
        hi <= ps@.len(),
    ensures
        match r {
            Some(v) => hex_group_vals(seq_views(ps@).take(hi as int)) == Some(v@),
            None => hex_group_vals(seq_views(ps@).take(hi as int)) is None,
        },
{
    let ghost qs = seq_views(ps@);
    let mut out: Vec<u16> = Vec::new();
    let mut j: usize = 0;
    proof {
        assert(qs.take(0) =~= Seq::<Seq<char>>::empty());
        assert(hex_group_vals(qs.take(0)) == Some(out@));
    }
    while j < hi
        invariant
            j <= hi <= ps@.len(),
            qs == seq_views(ps@),
            hex_group_vals(qs.take(j as int)) == Some(out@),
        decreases hi - j,
    {
        proof {
            assert(qs.take(j as int + 1).drop_last() =~= qs.take(j as int));
            assert(qs.take(j as int + 1).last() == qs[j as int]);
        }
        match parse_hex_group(ps[j].as_str()) {
            Some(v) => {
                let ghost old_out = out@;
                out.push(v);
                proof {
                    assert(out@ =~= old_out.push(v));
                }
            },
            None => {
                proof {
                    assert(hex_group_vals(qs.take(j as int + 1)) is None);
                    assert(qs.take(hi as int).take(j as int + 1) =~= qs.take(j as int + 1));
                    lemma_hex_groups_none(qs.take(hi as int), j as int + 1);
                }
                return None;
            },
        }
        j += 1;
    }
    Some(out)
}

/// Parses a whole piece list, allowing an embedded IPv4 tail.
fn tail_groups_of(ps: &Vec<String>) -> (r: Option<Vec<u16>>)
    ensures
        match r {
            Some(v) => tail_group_vals(seq_views(ps@)) == Some(v@),
            None => tail_group_vals(seq_views(ps@)) is None,
        },
{
    let ghost qs = seq_views(ps@);
    if ps.len() == 0 {
        proof {
            assert(qs.take(0) =~= qs);
        }
        return hex_groups_prefix(ps, 0);
    }
    proof {
        assert(qs.take(qs.len() as int) =~= qs);
        assert(qs.take(qs.len() - 1) =~= qs.drop_last());
    }
    match parse_ipv4(ps[ps.len() - 1].as_str()) {
        Some(o) => {
            match hex_groups_prefix(ps, ps.len() - 1) {
                Some(mut v) => {
                    let g0: u16 = (o.0 as u16) * 256 + (o.1 as u16);
                    let g1: u16 = (o.2 as u16) * 256 + (o.3 as u16);
                    let ghost old_v = v@;
                    v.push(g0);
                    v.push(g1);
                    proof {
                        assert(v@ =~= old_v + spec_ipv4_group_pair(qs.last()));
                    }
                    Some(v)
                },
                None => None,
            }
        },
        None => hex_groups_prefix(ps, ps.len()),
    }
}

/// Parses a textual IPv6 address into its eight group values.
pub fn parse_ipv6_groups(s: &str) -> (r: Option<Vec<u16>>)
    ensures
        match r {
            Some(v) => spec_ipv6_groups(s@) == Some(v@),
            None => spec_ipv6_groups(s@) is None,
        },
{
    let n = s.unicode_len();
    proof {
        reveal_strlit("::");
    }
    match find_substr(s, "::") {
        None => {
            let ps = split_on(s, ':');
            match tail_groups_of(&ps) {
                Some(v) => {
                    if v.len() == 8 {
                        Some(v)
                    } else {
                        None
                    }
                },
                None => None,
            }
        },
        Some(i) => {
            proof {
                lemma_find_sub_bounds(s@, "::"@, 0, i as int);
            }
            let left = s.substring_char(0, i);
            let right = s.substring_char(i + 2, n);
            proof {
                assert(left@ =~= s@.take(i as int));
                assert(right@ =~= s@.skip(i as int + 2));
            }
            let front: Option<Vec<u16>> = if left.unicode_len() == 0 {
                Some(Vec::new())
            } else {
                let lp = split_on(left, ':');
                let ghost lqs = seq_views(lp@);
                proof {
                    assert(lqs.take(lqs.len() as int) =~= lqs);
                }
                hex_groups_prefix(&lp, lp.len())
            };
            let back: Option<Vec<u16>> = if right.unicode_len() == 0 {
                Some(Vec::new())
            } else {
                let rp = split_on(right, ':');
                tail_groups_of(&rp)
            };
            match (front, back) {
                (Some(f), Some(b)) => {
                    if f.len() <= 7 && b.len() <= 7 - f.len() {
                        let zn = 8 - f.len() - b.len();
                        let mut out = f;
                        let ghost fv = out@;
                        let mut z: usize = 0;
                        while z < zn
                            invariant
                                z <= zn,
                                out@ == fv + zero_groups(z as nat),
                            decreases zn - z,
                        {
                            out.push(0u16);
                            proof {
                                assert(out@ =~= fv + zero_groups(z as nat + 1));
                            }
                            z += 1;
                        }
                        let mut k: usize = 0;
                        let ghost mid = out@;
                        while k < b.len()
                            invariant
                                k <= b@.len(),
                                out@ == mid + b@.take(k as int),
                            decreases b@.len() - k,
                        {
                            out.push(b[k]);
                            proof {
                                assert(out@ =~= mid + b@.take(k as int + 1));
                            }
                            k += 1;
                        }
                        proof {
                            assert(b@.take(b@.len() as int) =~= b@);
                            assert(out@ =~= fv + zero_groups((8 - fv.len() - b@.len()) as nat)
                                + b@);
                        }
                        Some(out)
                    } else {
                        None
                    }
                },
                _ => None,
            }
        },
    }
}

/// An address that qualifies an interface as primary: a valid IPv4
/// address that is neither loopback nor link-local, or a valid IPv6
/// address that is not loopback.
pub open spec fn spec_ip_qualifies(ip: Seq<char>) -> bool {
    ||| (spec_is_ipv4(ip) && !spec_ipv4_loopback(ip) && !spec_ipv4_link_local(ip))
    ||| (spec_is_ipv6(ip) && !spec_ipv6_loopback(ip))
}

/// Whether an address string qualifies an interface as primary.
pub fn ip_qualifies(ip: &str) -> (r: bool)
    ensures
        r == spec_ip_qualifies(ip@),
{
    let v4q = match parse_ipv4(ip) {
        Some(o) => !(o.0 == 127) && !(o.0 == 169 && o.1 == 254),
        None => false,
    };
    let v6q = match parse_ipv6_groups(ip) {
        Some(g) => {
            proof {
                lemma_ipv6_eight_groups(ip@, g@);
            }
            let lb = g[0] == 0 && g[1] == 0 && g[2] == 0 && g[3] == 0 && g[4] == 0 && g[5] == 0
                && g[6] == 0 && g[7] == 1;
            proof {
                if lb {
                    assert(g@ =~= zero_groups(7).push(1u16));
                } else {
                    assert(g@ != zero_groups(7).push(1u16)) by {
                        if g@ =~= zero_groups(7).push(1u16) {
                            assert(false);
                        }
                    }
                }
            }
            !lb
        },
        None => false,
    };
    v4q || v6q
}

} // verus!
