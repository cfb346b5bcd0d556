use crate::ip::IpAddress;
use vstd::prelude::*;
use vstd::string::StringExecFns;

verus! {

/// The digit character for `d` (0 to 15), lower case.
pub open spec fn digit_char(d: int) -> char {
    if d < 10 {
        ('0' as int + d) as char
    } else {
        ('a' as int + d - 10) as char
    }
}

/// `n` written without leading zeros in base 16 when `base` is 16, else in base 10.
pub open spec fn num_text(n: nat, base: nat) -> Seq<char>
    decreases n,
{
    if base == 16 {
        if n < 16 {
            seq![digit_char(n as int)]
        } else {
            num_text(n / 16, base).push(digit_char((n % 16) as int))
        }
    } else {
        if n < 10 {
            seq![digit_char(n as int)]
        } else {
            num_text(n / 10, base).push(digit_char((n % 10) as int))
        }
    }
}

/// The dotted-quad text of four octets.
pub open spec fn v4_text(o: Seq<u8>) -> Seq<char> {
    num_text(o[0] as nat, 10) + "."@ + num_text(o[1] as nat, 10) + "."@ + num_text(o[2] as nat, 10)
        + "."@ + num_text(o[3] as nat, 10)
}

/// Groups in lower-case hexadecimal, separated by colons.
pub open spec fn groups_text(g: Seq<u16>) -> Seq<char>
    decreases g.len(),
{
    if g.len() == 0 {
        Seq::empty()
    } else if g.len() == 1 {
        num_text(g[0] as nat, 16)
    } else {
        groups_text(g.drop_last()) + ":"@ + num_text(g.last() as nat, 16)
    }
}

/// The number of zero groups starting at position `i`.
pub open spec fn zero_run(g: Seq<u16>, i: int) -> nat
    decreases g.len() - i,
{
    if 0 <= i < g.len() && g[i] == 0 {
        1 + zero_run(g, i + 1)
    } else {
        0
    }
}

/// `s` starts the first of the longest runs of zero groups.
pub open spec fn first_longest_run(g: Seq<u16>, s: int) -> bool {
    &&& 0 <= s < g.len()
    &&& forall|j: int| 0 <= j < g.len() ==> zero_run(g, j) <= zero_run(g, s)
    &&& forall|j: int| 0 <= j < s ==> zero_run(g, j) < zero_run(g, s)
}

/// An IPv4-mapped IPv6 address, `::ffff:a.b.c.d`.
pub open spec fn is_v4_mapped(g: Seq<u16>) -> bool {
    g[0] == 0 && g[1] == 0 && g[2] == 0 && g[3] == 0 && g[4] == 0 && g[5] == 0xffff
}

/// The canonical text of eight groups: an IPv4-mapped address as
/// `::ffff:` and a dotted quad; otherwise lower-case hexadecimal groups, the
/// first of the longest runs of two or more zero groups written as `::`.
pub open spec fn v6_text(g: Seq<u16>) -> Seq<char> {
    if is_v4_mapped(g) {
        "::ffff:"@ + v4_text(seq![(g[6] / 256) as u8, (g[6] % 256) as u8, (g[7] / 256) as u8, (g[7] % 256) as u8])
    } else {
        let s = choose|s: int| first_longest_run(g, s);
        let l = zero_run(g, s);
        if l > 1 {
            groups_text(g.take(s)) + "::"@ + groups_text(g.skip(s + l))
        } else {
            groups_text(g)
        }
    }
}

pub open spec fn ip_canonical(ip: IpAddress) -> Seq<char> {
    match ip {
        IpAddress::V4(a) => v4_text(a@),
        IpAddress::V6(g) => v6_text(g@),
    }
}

fn digit_str(d: u32) -> (r: &'static str)
    requires
        d < 16,
    ensures
        r@ == seq![digit_char(d as int)],
{
    proof {
        reveal_strlit("0");
        reveal_strlit("1");
        reveal_strlit("2");
        reveal_strlit("3");
        reveal_strlit("4");
        reveal_strlit("5");
        reveal_strlit("6");
        reveal_strlit("7");
        reveal_strlit("8");
        reveal_strlit("9");
        reveal_strlit("a");
        reveal_strlit("b");
        reveal_strlit("c");
        reveal_strlit("d");
        reveal_strlit("e");
        reveal_strlit("f");
    }
    let r = match d {
        0 => "0",
        1 => "1",
        2 => "2",
        3 => "3",
        4 => "4",
        5 => "5",
        6 => "6",
        7 => "7",
        8 => "8",
        9 => "9",
        10 => "a",
        11 => "b",
        12 => "c",
        13 => "d",
        14 => "e",
        _ => "f",
    };
    assert(r@ =~= seq![digit_char(d as int)]);
    r
}

/// Appends `n` in base 10 or 16.
fn append_num(out: &mut String, n: u32, base: u32)
    requires
        base == 10 || base == 16,
    ensures
        final(out)@ == old(out)@ + num_text(n as nat, base as nat),
    decreases n,
{
    if n < base {
        out.append(digit_str(n));
    } else {
        append_num(out, n / base, base);
        out.append(digit_str(n % base));
    }
}

fn append_v4(out: &mut String, a: u8, b: u8, c: u8, d: u8)
    ensures
        final(out)@ == old(out)@ + v4_text(seq![a, b, c, d]),
{
    proof {
        reveal_strlit(".");
    }
    let ghost o = old(out)@;
    append_num(out, a as u32, 10);
    out.append(".");
    append_num(out, b as u32, 10);
    out.append(".");
    append_num(out, c as u32, 10);
    out.append(".");
    append_num(out, d as u32, 10);
    assert(out@ =~= o + v4_text(seq![a, b, c, d]));
}

/// Appends the groups from `from` up to `to`.
fn append_groups(out: &mut String, g: &[u16; 8], from: usize, to: usize)
    requires
        from <= to <= 8,
    ensures
        final(out)@ == old(out)@ + groups_text(g@.subrange(from as int, to as int)),
{
    let ghost o = old(out)@;
    let mut k: usize = from;
    assert(g@.subrange(from as int, from as int) =~= Seq::<u16>::empty());
    assert(out@ =~= o + groups_text(g@.subrange(from as int, from as int)));
    while k < to
        invariant
            from <= k <= to <= 8,
            out@ == o + groups_text(g@.subrange(from as int, k as int)),
        decreases to - k,
    {
        let ghost before = out@;
        if k > from {
            out.append(":");
        }
        append_num(out, g[k] as u32, 16);
        proof {
            let t = g@.subrange(from as int, k + 1);
            assert(t.drop_last() =~= g@.subrange(from as int, k as int));
            assert(t.last() == g@[k as int]);
            if k == from {
                assert(t.len() == 1);
            }
            assert(out@ =~= o + groups_text(t));
        }
        k = k + 1;
    }
}

fn zero_run_at(g: &[u16; 8], i: usize) -> (r: usize)
    requires
        i <= 8,
    ensures
        r == zero_run(g@, i as int),
        r <= 8 - i,
{
    let mut j: usize = i;
    while j < 8 && g[j] == 0
        invariant
            i <= j <= 8,
            forall|t: int| i <= t < j ==> g@[t] == 0,
            zero_run(g@, i as int) == (j - i) + zero_run(g@, j as int),
        decreases 8 - j,
    {
        j = j + 1;
    }
    j - i
}

/// The canonical text of an address, as std writes it.
pub fn canonical_text(ip: &IpAddress) -> (r: String)
    ensures
        r@ == ip_canonical(*ip),
{
    let mut out = String::new();
    match ip {
        IpAddress::V4(a) => {
            append_v4(&mut out, a[0], a[1], a[2], a[3]);
            assert(seq![a[0], a[1], a[2], a[3]] =~= a@);
        },
        IpAddress::V6(g) => {
            if g[0] == 0 && g[1] == 0 && g[2] == 0 && g[3] == 0 && g[4] == 0 && g[5] == 0xffff {
                proof {
                    reveal_strlit("::ffff:");
                }
                out.append("::ffff:");
                append_v4(
                    &mut out,
                    (g[6] / 256) as u8,
                    (g[6] % 256) as u8,
                    (g[7] / 256) as u8,
                    (g[7] % 256) as u8,
                );
            } else {
                let mut best: usize = 0;
                let mut best_len: usize = zero_run_at(g, 0);
                let mut i: usize = 1;
                while i < 8
                    invariant
                        1 <= i <= 8,
                        best < i,
                        best_len == zero_run(g@, best as int),
                        best_len <= 8 - best,
                        forall|j: int| 0 <= j < i ==> zero_run(g@, j) <= best_len,
                        forall|j: int| 0 <= j < best ==> zero_run(g@, j) < best_len,
                    decreases 8 - i,
                {
                    let l = zero_run_at(g, i);
                    if l > best_len {
                        best = i;
                        best_len = l;
                    }
                    i = i + 1;
                }
                let ghost s = choose|s: int| first_longest_run(g@, s);
                assert(first_longest_run(g@, best as int));
                assert(s == best) by {
                    if s < best {
                        assert(zero_run(g@, s) < zero_run(g@, best as int));
                    } else if s > best {
                        assert(zero_run(g@, best as int) < zero_run(g@, s));
                    }
                }
                if best_len > 1 {
                    proof {
                        reveal_strlit("::");
                    }
                    append_groups(&mut out, g, 0, best);
                    out.append("::");
                    append_groups(&mut out, g, best + best_len, 8);
                    assert(g@.subrange(0, best as int) =~= g@.take(best as int));
                    assert(g@.subrange((best + best_len) as int, 8) =~= g@.skip((best + best_len) as int));
                } else {
                    append_groups(&mut out, g, 0, 8);
                    assert(g@.subrange(0, 8) =~= g@);
                }
            }
        },
    }
    out
}

} // verus!
