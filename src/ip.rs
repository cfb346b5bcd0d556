use crate::text::{lemma_split_on_nonempty, split_chars, split_on, sub_chars, views};
use vstd::prelude::*;

verus! {

/// An IP address held as plain numbers: four octets, or eight 16-bit groups.
#[derive(Clone, Copy, Debug, PartialEq, Eq)]
pub enum IpAddress {
    V4([u8; 4]),
    V6([u16; 8]),
}

/// Private IPv4 ranges: 10/8, 172.16/12 and 192.168/16.
pub open spec fn v4_is_private(o: Seq<u8>) -> bool {
    o[0] == 10 || (o[0] == 172 && 16 <= o[1] <= 31) || (o[0] == 192 && o[1] == 168)
}

/// IPv4 documentation ranges: 192.0.2/24, 198.51.100/24 and 203.0.113/24.
pub open spec fn v4_is_documentation(o: Seq<u8>) -> bool {
    (o[0] == 192 && o[1] == 0 && o[2] == 2) || (o[0] == 198 && o[1] == 51 && o[2] == 100) || (
    o[0] == 203 && o[1] == 0 && o[2] == 113)
}

/// Whether an address may be sent to the GeoIP service: for IPv4 neither private,
/// loopback, link-local, broadcast, documentation nor unspecified; for IPv6
/// neither loopback nor unspecified.
pub open spec fn is_global(ip: IpAddress) -> bool {
    match ip {
        IpAddress::V4(a) => {
            let o = a@;
            &&& !v4_is_private(o)
            &&& o[0] != 127
            &&& !(o[0] == 169 && o[1] == 254)
            &&& !(o[0] == 255 && o[1] == 255 && o[2] == 255 && o[3] == 255)
            &&& !v4_is_documentation(o)
            &&& !(o[0] == 0 && o[1] == 0 && o[2] == 0 && o[3] == 0)
        },
        IpAddress::V6(g) => {
            let s = g@;
            let zero_prefix = forall|i: int| 0 <= i < 7 ==> s[i] == 0;
            !(zero_prefix && s[7] == 1) && !(zero_prefix && s[7] == 0)
        },
    }
}

pub fn ip_is_global(ip: &IpAddress) -> (r: bool)
    ensures
        r == is_global(*ip),
{
    match ip {
        IpAddress::V4(a) => {
            let private = a[0] == 10 || (a[0] == 172 && 16 <= a[1] && a[1] <= 31) || (a[0] == 192
                && a[1] == 168);
            let documentation = (a[0] == 192 && a[1] == 0 && a[2] == 2) || (a[0] == 198 && a[1]
                == 51 && a[2] == 100) || (a[0] == 203 && a[1] == 0 && a[2] == 113);
            let loopback = a[0] == 127;
            let link_local = a[0] == 169 && a[1] == 254;
            let broadcast = a[0] == 255 && a[1] == 255 && a[2] == 255 && a[3] == 255;
            let unspecified = a[0] == 0 && a[1] == 0 && a[2] == 0 && a[3] == 0;
            !private && !loopback && !link_local && !broadcast && !documentation && !unspecified
        },
        IpAddress::V6(g) => {
            let zero_prefix = g[0] == 0 && g[1] == 0 && g[2] == 0 && g[3] == 0 && g[4] == 0 && g[5]
                == 0 && g[6] == 0;
            assert(zero_prefix == forall|i: int| 0 <= i < 7 ==> g@[i] == 0);
            !(zero_prefix && g[7] == 1) && !(zero_prefix && g[7] == 0)
        },
    }
}


pub open spec fn is_dec_digit(c: char) -> bool {
    '0' <= c <= '9'
}

pub open spec fn is_hex_digit(c: char) -> bool {
    ('0' <= c <= '9') || ('a' <= c <= 'f') || ('A' <= c <= 'F')
}

pub open spec fn hex_digit_value(c: char) -> int {
    if '0' <= c <= '9' {
        c as int - '0' as int
    } else if 'a' <= c <= 'f' {
        c as int - 'a' as int + 10
    } else {
        c as int - 'A' as int + 10
    }
}

/// The number written by the digits of `s` in base `base`.
pub open spec fn digits_value(s: Seq<char>, base: int) -> int
    decreases s.len(),
{
    if s.len() == 0 {
        0
    } else {
        digits_value(s.drop_last(), base) * base + hex_digit_value(s.last())
    }
}

/// A decimal octet: one to three digits, no leading zero, at most 255.
pub open spec fn octet_ok(p: Seq<char>) -> bool {
    &&& 1 <= p.len() <= 3
    &&& forall|i: int| 0 <= i < p.len() ==> is_dec_digit(#[trigger] p[i])
    &&& p.len() > 1 ==> p[0] != '0'
    &&& digits_value(p, 10) <= 255
}

/// A group of an IPv6 address: one to four hexadecimal digits.
pub open spec fn group_ok(p: Seq<char>) -> bool {
    &&& 1 <= p.len() <= 4
    &&& forall|i: int| 0 <= i < p.len() ==> is_hex_digit(#[trigger] p[i])
}

/// The octets of a dotted-quad IPv4 address text.
pub open spec fn parse_ipv4(s: Seq<char>) -> Option<Seq<u8>> {
    let parts = split_on(s, '.');
    if parts.len() == 4 && forall|i: int| 0 <= i < 4 ==> octet_ok(#[trigger] parts[i]) {
        Some(parts.map_values(|p: Seq<char>| digits_value(p, 10) as u8))
    } else {
        None
    }
}

pub open spec fn group_values(parts: Seq<Seq<char>>) -> Seq<u16> {
    parts.map_values(|p: Seq<char>| digits_value(p, 16) as u16)
}

/// The groups written on one side of a `::` (or in a whole address without
/// one): colon-separated groups, the last of which may be an IPv4 address
/// standing for two groups when `allow_v4`.
pub open spec fn side_groups(t: Seq<char>, allow_v4: bool) -> Option<Seq<u16>> {
    if t.len() == 0 {
        Some(Seq::empty())
    } else {
        let parts = split_on(t, ':');
        let n = parts.len();
        if forall|i: int| 0 <= i < n - 1 ==> group_ok(#[trigger] parts[i]) {
            if group_ok(parts[n - 1]) {
                Some(group_values(parts))
            } else if allow_v4 && parse_ipv4(parts[n - 1]) is Some {
                let o = parse_ipv4(parts[n - 1])->0;
                Some(group_values(parts.drop_last()).push((o[0] * 256 + o[1]) as u16).push(
                    (o[2] * 256 + o[3]) as u16,
                ))
            } else {
                None
            }
        } else {
            None
        }
    }
}

/// `k` is the position of the first `::` in `s`.
pub open spec fn first_double_colon(s: Seq<char>, k: int) -> bool {
    &&& 0 <= k < s.len() - 1
    &&& s[k] == ':' && s[k + 1] == ':'
    &&& forall|j: int| 0 <= j < k ==> !(s[j] == ':' && #[trigger] s[j + 1] == ':')
}

/// The groups of an IPv6 address text: eight groups, or fewer around a single
/// `::` that stands for at least one zero group.
pub open spec fn parse_ipv6(s: Seq<char>) -> Option<Seq<u16>> {
    if exists|k: int| first_double_colon(s, k) {
        let k = choose|k: int| first_double_colon(s, k);
        let head = side_groups(s.take(k), false);
        let tail = side_groups(s.skip(k + 2), true);
        if head is Some && tail is Some && head->0.len() + tail->0.len() <= 7 {
            let h = head->0;
            let t = tail->0;
            Some(h + Seq::new((8 - h.len() - t.len()) as nat, |i: int| 0u16) + t)
        } else {
            None
        }
    } else {
        match side_groups(s, true) {
            Some(g) => if g.len() == 8 {
                Some(g)
            } else {
                None
            },
            None => None,
        }
    }
}

/// The address that a text denotes, read as IPv4 first and then as IPv6.
pub open spec fn denotes(s: Seq<char>, ip: IpAddress) -> bool {
    match ip {
        IpAddress::V4(a) => parse_ipv4(s) == Some(a@),
        IpAddress::V6(g) => parse_ipv4(s) is None && parse_ipv6(s) == Some(g@),
    }
}

proof fn lemma_digits_bound(s: Seq<char>, base: int)
    requires
        base == 10 || base == 16,
        forall|i: int| 0 <= i < s.len() ==> 0 <= hex_digit_value(#[trigger] s[i]) < base,
    ensures
        0 <= digits_value(s, base),
        s.len() <= 1 ==> digits_value(s, base) < base,
        s.len() <= 2 ==> digits_value(s, base) < base * base,
        s.len() <= 3 ==> digits_value(s, base) < base * base * base,
        s.len() <= 4 ==> digits_value(s, base) < base * base * base * base,
    decreases s.len(),
{
    if s.len() > 0 {
        lemma_digits_bound(s.drop_last(), base);
    }
}

/// Reads a number of at most four digits in base 10 or 16.
fn read_digits(p: &Vec<char>, base: u32) -> (r: Option<u32>)
    requires
        base == 10 || base == 16,
        p@.len() <= 4,
    ensures
        r is Some <==> forall|i: int| 0 <= i < p@.len() ==> (if base == 10 {
            is_dec_digit(#[trigger] p@[i])
        } else {
            is_hex_digit(p@[i])
        }),
        r matches Some(v) ==> v == digits_value(p@, base as int),
{
    let mut v: u32 = 0;
    let mut i: usize = 0;
    while i < p.len()
        invariant
            base == 10 || base == 16,
            p@.len() <= 4,
            i <= p.len(),
            forall|j: int| 0 <= j < i ==> (if base == 10 {
                is_dec_digit(#[trigger] p@[j])
            } else {
                is_hex_digit(p@[j])
            }),
            v == digits_value(p@.take(i as int), base as int),
            v < 65536,
        decreases p.len() - i,
    {
        let c = p[i];
        let d: u32 = if '0' <= c && c <= '9' {
            (c as u32) - ('0' as u32)
        } else if base == 16 && 'a' <= c && c <= 'f' {
            (c as u32) - ('a' as u32) + 10
        } else if base == 16 && 'A' <= c && c <= 'F' {
            (c as u32) - ('A' as u32) + 10
        } else {
            return None;
        };
        proof {
            assert(p@.take(i + 1).drop_last() =~= p@.take(i as int));
            assert(forall|j: int| 0 <= j < i + 1 ==> 0 <= hex_digit_value(#[trigger] p@.take(i + 1)[j]) < base);
            lemma_digits_bound(p@.take(i + 1), base as int);
        }
        v = v * base + d;
        i = i + 1;
    }
    assert(p@.take(i as int) =~= p@);
    Some(v)
}

fn parse_octet(p: &Vec<char>) -> (r: Option<u8>)
    ensures
        r is Some <==> octet_ok(p@),
        r matches Some(v) ==> v == digits_value(p@, 10),
{
    if p.len() < 1 || p.len() > 3 {
        return None;
    }
    if p.len() > 1 && p[0] == '0' {
        return None;
    }
    match read_digits(p, 10) {
        Some(v) => if v <= 255 {
            Some(v as u8)
        } else {
            None
        },
        None => None,
    }
}

fn parse_group(p: &Vec<char>) -> (r: Option<u16>)
    ensures
        r is Some <==> group_ok(p@),
        r matches Some(v) ==> v == digits_value(p@, 16),
{
    if p.len() < 1 || p.len() > 4 {
        return None;
    }
    match read_digits(p, 16) {
        Some(v) => {
            proof {
                assert forall|i: int| 0 <= i < p@.len() implies 0 <= hex_digit_value(#[trigger] p@[i]) < 16 by {}
                lemma_digits_bound(p@, 16);
            }
            Some(v as u16)
        },
        None => None,
    }
}

/// Reads a dotted-quad IPv4 address.
pub fn parse_ipv4_chars(s: &Vec<char>) -> (r: Option<[u8; 4]>)
    ensures
        r is Some <==> parse_ipv4(s@) is Some,
        r matches Some(a) ==> parse_ipv4(s@) == Some(a@),
{
    let parts = split_chars(s, '.');
    if parts.len() != 4 {
        return None;
    }
    let ghost ps = views(parts@);
    assert(ps[0] == parts@[0]@ && ps[1] == parts@[1]@ && ps[2] == parts@[2]@ && ps[3] == parts@[3]@);
    let a = match parse_octet(&parts[0]) {
        Some(v) => v,
        None => return None,
    };
    let b = match parse_octet(&parts[1]) {
        Some(v) => v,
        None => return None,
    };
    let c = match parse_octet(&parts[2]) {
        Some(v) => v,
        None => return None,
    };
    let d = match parse_octet(&parts[3]) {
        Some(v) => v,
        None => return None,
    };
    let r = [a, b, c, d];
    proof {
        assert(forall|i: int| 0 <= i < 4 ==> octet_ok(#[trigger] ps[i]));
        assert(r@ =~= ps.map_values(|p: Seq<char>| digits_value(p, 10) as u8));
    }
    Some(r)
}


fn read_side(t: &Vec<char>, allow_v4: bool) -> (r: Option<Vec<u16>>)
    ensures
        r is Some <==> side_groups(t@, allow_v4) is Some,
        r matches Some(g) ==> g@ == side_groups(t@, allow_v4)->0,
{
    if t.len() == 0 {
        return Some(Vec::new());
    }
    let parts = split_chars(t, ':');
    let ghost ps = views(parts@);
    proof {
        lemma_split_on_nonempty(t@, ':');
    }
    let n = parts.len();
    let mut groups: Vec<u16> = Vec::new();
    let mut i: usize = 0;
    while i < n - 1
        invariant
            n == parts@.len() == ps.len() >= 1,
            ps == views(parts@),
            ps == split_on(t@, ':'),
            i <= n - 1,
            forall|j: int| 0 <= j < i ==> group_ok(#[trigger] ps[j]),
            groups@ == group_values(ps.take(i as int)),
        decreases n - 1 - i,
    {
        assert(ps[i as int] == parts@[i as int]@);
        match parse_group(&parts[i]) {
            Some(g) => {
                groups.push(g);
                proof {
                    assert(groups@ =~= group_values(ps.take(i + 1)));
                }
            },
            None => {
                return None;
            },
        }
        i = i + 1;
    }
    assert(ps[n - 1] == parts@[n - 1]@);
    match parse_group(&parts[n - 1]) {
        Some(g) => {
            groups.push(g);
            proof {
                assert(ps.take(n - 1).push(ps[n - 1]) =~= ps);
                assert(groups@ =~= group_values(ps));
            }
            Some(groups)
        },
        None => {
            if allow_v4 {
                match parse_ipv4_chars(&parts[n - 1]) {
                    Some(o) => {
                        groups.push((o[0] as u16) * 256 + (o[1] as u16));
                        groups.push((o[2] as u16) * 256 + (o[3] as u16));
                        proof {
                            assert(ps.take(n - 1) =~= ps.drop_last());
                        }
                        Some(groups)
                    },
                    None => None,
                }
            } else {
                None
            }
        },
    }
}

/// Reads an IPv6 address text.
pub fn parse_ipv6_chars(s: &Vec<char>) -> (r: Option<[u16; 8]>)
    ensures
        r is Some <==> parse_ipv6(s@) is Some,
        r matches Some(g) ==> parse_ipv6(s@) == Some(g@),
{
    let mut k: usize = 0;
    let mut found = false;
    while k < s.len() && k + 1 < s.len() && !found
        invariant
            k <= s@.len(),
            found ==> k + 1 < s@.len() && s@[k as int] == ':' && s@[k + 1] == ':',
            forall|j: int| 0 <= j < k && j + 1 < s@.len() ==> !(s@[j] == ':' && #[trigger] s@[j + 1] == ':'),
        decreases s.len() - k + (if found { 0int } else { 1int }),
    {
        if s[k] == ':' && s[k + 1] == ':' {
            found = true;
        } else {
            k = k + 1;
        }
    }
    let full: Vec<u16>;
    if found {
        let ghost kk = choose|kk: int| first_double_colon(s@, kk);
        assert(first_double_colon(s@, k as int));
        assert(kk == k) by {
            if kk < k {
                assert(!(s@[kk] == ':' && s@[kk + 1] == ':'));
            } else if kk > k {
                assert(!(s@[k as int] == ':' && s@[k + 1] == ':'));
            }
        }
        let head = sub_chars(s, 0, k);
        let tail = sub_chars(s, k + 2, s.len());
        assert(head@ =~= s@.take(k as int));
        assert(tail@ =~= s@.skip(k + 2));
        let h = match read_side(&head, false) {
            Some(h) => h,
            None => return None,
        };
        let t = match read_side(&tail, true) {
            Some(t) => t,
            None => return None,
        };
        if h.len() > 7 || t.len() > 7 - h.len() {
            return None;
        }
        let mut g: Vec<u16> = h;
        let zeros: usize = 8 - g.len() - t.len();
        let ghost h0 = g@;
        let mut z: usize = 0;
        while z < zeros
            invariant
                z <= zeros,
                g@ == h0 + Seq::new(z as nat, |i: int| 0u16),
            decreases zeros - z,
        {
            g.push(0);
            z = z + 1;
            assert(g@ =~= h0 + Seq::new(z as nat, |i: int| 0u16));
        }
        let mut j: usize = 0;
        let ghost g0 = g@;
        while j < t.len()
            invariant
                j <= t@.len(),
                g@ == g0 + t@.take(j as int),
            decreases t.len() - j,
        {
            g.push(t[j]);
            j = j + 1;
            assert(g@ =~= g0 + t@.take(j as int));
        }
        assert(t@.take(j as int) =~= t@);
        full = g;
    } else {
        assert(!exists|kk: int| first_double_colon(s@, kk)) by {
            if exists|kk: int| first_double_colon(s@, kk) {
                let kk = choose|kk: int| first_double_colon(s@, kk);
                assert(!(s@[kk] == ':' && s@[kk + 1] == ':'));
            }
        }
        let g = match read_side(s, true) {
            Some(g) => g,
            None => return None,
        };
        if g.len() != 8 {
            return None;
        }
        full = g;
    }
    let r = [full[0], full[1], full[2], full[3], full[4], full[5], full[6], full[7]];
    assert(r@ =~= full@);
    Some(r)
}

/// Reads an IP address text: as IPv4 when it is one, else as IPv6.
pub fn parse_ip(s: &Vec<char>) -> (r: Option<IpAddress>)
    ensures
        r is Some <==> (parse_ipv4(s@) is Some || parse_ipv6(s@) is Some),
        r matches Some(ip) ==> denotes(s@, ip),
{
    match parse_ipv4_chars(s) {
        Some(a) => Some(IpAddress::V4(a)),
        None => match parse_ipv6_chars(s) {
            Some(g) => Some(IpAddress::V6(g)),
            None => None,
        },
    }
}


/// Whether two addresses are the same.
pub fn same_address(a: &IpAddress, b: &IpAddress) -> (r: bool)
    ensures
        r == (*a == *b),
{
    match (a, b) {
        (IpAddress::V4(x), IpAddress::V4(y)) => {
            let r = x[0] == y[0] && x[1] == y[1] && x[2] == y[2] && x[3] == y[3];
            proof {
                if r {
                    assert(*x =~= *y);
                }
            }
            r
        },
        (IpAddress::V6(x), IpAddress::V6(y)) => {
            let r = x[0] == y[0] && x[1] == y[1] && x[2] == y[2] && x[3] == y[3] && x[4] == y[4]
                && x[5] == y[5] && x[6] == y[6] && x[7] == y[7];
            proof {
                if r {
                    assert(*x =~= *y);
                }
            }
            r
        },
        _ => false,
    }
}
} // verus!
