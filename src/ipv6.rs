use vstd::prelude::*;

use crate::ipv4::{ipv4_of, parse_ipv4_chars};
use crate::text::{chars_of, split_chars, split_on};

verus! {

pub open spec fn is_hex_digit(c: char) -> bool {
    ('0' <= c && c <= '9') || ('a' <= c && c <= 'f') || ('A' <= c && c <= 'F')
}

pub open spec fn hex_digit_value(c: char) -> nat {
    if '0' <= c && c <= '9' {
        ((c as nat) - ('0' as nat)) as nat
    } else if 'a' <= c && c <= 'f' {
        ((c as nat) - ('a' as nat) + 10) as nat
    } else {
        ((c as nat) - ('A' as nat) + 10) as nat
    }
}

/// The number that a text of hexadecimal digits writes.
pub open spec fn hex_value(t: Seq<char>) -> nat
    decreases t.len(),
{
    if t.len() == 0 {
        0
    } else {
        hex_value(t.drop_last()) * 16 + hex_digit_value(t.last())
    }
}

/// One group of an IPv6 address: one to four hexadecimal digits.
pub open spec fn hex_group(t: Seq<char>) -> bool {
    1 <= t.len() <= 4 && forall|i: int| 0 <= i < t.len() ==> is_hex_digit(#[trigger] t[i])
}

/// A run of groups; where `v4_last` holds, the last may be a dotted-decimal IPv4
/// address, which stands for two groups.
pub open spec fn run_ok(ps: Seq<Seq<char>>, v4_last: bool) -> bool {
    forall|i: int|
        0 <= i < ps.len() ==> hex_group(#[trigger] ps[i]) || (v4_last && i == ps.len() - 1
            && ipv4_of(ps[i]).is_some())
}

/// How many 16-bit groups a run stands for.
pub open spec fn run_width(ps: Seq<Seq<char>>) -> nat {
    if ps.len() > 0 && !hex_group(ps.last()) {
        ps.len() + 1
    } else {
        ps.len()
    }
}

/// The 16-bit groups that a run stands for.
pub open spec fn run_values(ps: Seq<Seq<char>>) -> Seq<u16>
    decreases ps.len(),
{
    if ps.len() == 0 {
        Seq::empty()
    } else if hex_group(ps.last()) {
        run_values(ps.drop_last()).push(hex_value(ps.last()) as u16)
    } else {
        let x = ipv4_of(ps.last()).unwrap();
        run_values(ps.drop_last()).push((x.a as nat * 256 + x.b as nat) as u16).push(
            (x.c as nat * 256 + x.d as nat) as u16,
        )
    }
}

pub open spec fn zeros(n: nat) -> Seq<u16> {
    Seq::new(n, |i: int| 0u16)
}

/// The eight groups of an address with `::` between a head run and a tail run.
pub open spec fn compressed(head: Seq<Seq<char>>, tail: Seq<Seq<char>>) -> Option<Seq<u16>> {
    if run_ok(head, false) && run_ok(tail, true) && run_width(head) + run_width(tail) <= 7 {
        Some(run_values(head) + zeros((8 - run_width(head) - run_width(tail)) as nat) + run_values(tail))
    } else {
        None
    }
}

/// The eight groups of the IPv6 address that `s` writes in text form, if it is one.
pub open spec fn ipv6_of(s: Seq<char>) -> Option<Seq<u16>> {
    let p = split_on(s, ':');
    let n = p.len();
    if n == 3 && p[0].len() == 0 && p[1].len() == 0 && p[2].len() == 0 {
        Some(zeros(8))
    } else if n >= 3 && p[0].len() == 0 && p[1].len() == 0 {
        compressed(Seq::empty(), p.subrange(2, n as int))
    } else if n >= 3 && p[n - 1].len() == 0 && p[n - 2].len() == 0 {
        compressed(p.subrange(0, n - 2), Seq::empty())
    } else if exists|j: int| 0 < j < n - 1 && (#[trigger] p[j]).len() == 0 {
        let j = choose|j: int| 0 < j < n - 1 && (#[trigger] p[j]).len() == 0;
        compressed(p.subrange(0, j), p.subrange(j + 1, n as int))
    } else if run_ok(p, true) && run_width(p) == 8 {
        Some(run_values(p))
    } else {
        None
    }
}

/// The loopback address `::1`.
pub open spec fn loopback_groups() -> Seq<u16> {
    zeros(7).push(1u16)
}

pub open spec fn views(ps: Seq<Vec<char>>) -> Seq<Seq<char>> {
    ps.map_values(|v: Vec<char>| v@)
}

pub open spec fn pow16(n: nat) -> nat
    decreases n,
{
    if n == 0 {
        1
    } else {
        16 * pow16((n - 1) as nat)
    }
}

fn hex_group_value(t: &Vec<char>) -> (r: Option<u16>)
    ensures
        r == (if hex_group(t@) {
            Some(hex_value(t@) as u16)
        } else {
            None::<u16>
        }),
        hex_group(t@) ==> hex_value(t@) < 65536,
{
    if t.len() == 0 || t.len() > 4 {
        return None;
    }
    let mut v: u32 = 0;
    let mut i: usize = 0;
    assert(t@.subrange(0, 0) =~= Seq::<char>::empty());
    while i < t.len()
        invariant
            1 <= t@.len() <= 4,
            i <= t@.len(),
            v as nat == hex_value(t@.subrange(0, i as int)),
            (v as nat) < pow16(i as nat),
            pow16(i as nat) <= 65536,
            forall|k: int| 0 <= k < i ==> is_hex_digit(#[trigger] t@[k]),
        decreases t@.len() - i,
    {
        let c = t[i];
        let ghost pre = t@.subrange(0, i as int);
        let ghost next = t@.subrange(0, i + 1);
        assert(next.drop_last() =~= pre);
        let d: u32 = if '0' <= c && c <= '9' {
            (c as u32) - ('0' as u32)
        } else if 'a' <= c && c <= 'f' {
            (c as u32) - ('a' as u32) + 10
        } else if 'A' <= c && c <= 'F' {
            (c as u32) - ('A' as u32) + 10
        } else {
            assert(!hex_group(t@));
            return None;
        };
        assert(d as nat == hex_digit_value(c));
        assert(d < 16);
        let ghost p = pow16(i as nat);
        assert(v * 16 + d < 16 * p) by (nonlinear_arith)
            requires
                (v as nat) < p,
                d < 16,
        ;
        assert(pow16((i + 1) as nat) == 16 * p);
        assert(i + 1 <= 4);
        assert(pow16((i + 1) as nat) <= 65536) by {
            assert(pow16(0) == 1);
            assert(pow16(1) == 16);
            assert(pow16(2) == 256);
            assert(pow16(3) == 4096);
            assert(pow16(4) == 65536);
        }
        v = v * 16 + d;
        i += 1;
    }
    assert(t@.subrange(0, t@.len() as int) =~= t@);
    Some(v as u16)
}

proof fn lemma_empty_not_ipv4()
    ensures
        ipv4_of(Seq::<char>::empty()).is_none(),
{
    assert(split_on(Seq::<char>::empty(), '.').len() == 1);
}

proof fn lemma_run_len(ps: Seq<Seq<char>>, v4_last: bool)
    requires
        run_ok(ps, v4_last),
    ensures
        run_values(ps).len() == run_width(ps),
    decreases ps.len(),
{
    if ps.len() > 0 {
        let q = ps.drop_last();
        assert forall|i: int| 0 <= i < q.len() implies hex_group(#[trigger] q[i]) || (false && i == q.len() - 1) by {
            assert(q[i] == ps[i]);
        }
        lemma_run_len(q, false);
    }
}

/// The groups of the run `ps[lo..hi]`, if it is a well-formed run.
fn run_groups(ps: &Vec<Vec<char>>, lo: usize, hi: usize, v4_last: bool) -> (r: Option<Vec<u16>>)
    requires
        lo <= hi <= ps@.len(),
    ensures
        r.is_some() == run_ok(views(ps@).subrange(lo as int, hi as int), v4_last),
        r.is_some() ==> r.unwrap()@ == run_values(views(ps@).subrange(lo as int, hi as int)),
{
    let ghost vs = views(ps@);
    let mut out: Vec<u16> = Vec::new();
    if lo == hi {
        assert(vs.subrange(lo as int, hi as int) =~= Seq::<Seq<char>>::empty());
        return Some(out);
    }
    let mut i: usize = lo;
    assert(vs.subrange(lo as int, lo as int) =~= Seq::<Seq<char>>::empty());
    while i < hi - 1
        invariant
            lo <= i <= hi - 1,
            hi <= ps@.len(),
            vs == views(ps@),
            out@ == run_values(vs.subrange(lo as int, i as int)),
            forall|k: int| lo <= k < i ==> hex_group(#[trigger] vs[k]),
        decreases hi - i,
    {
        let ghost pre = vs.subrange(lo as int, i as int);
        let ghost next = vs.subrange(lo as int, i + 1);
        assert(next.drop_last() =~= pre);
        assert(next.last() == vs[i as int]);
        assert(vs[i as int] == ps@[i as int]@);
        match hex_group_value(&ps[i]) {
            Some(g) => {
                out.push(g);
            },
            None => {
                let ghost whole = vs.subrange(lo as int, hi as int);
                assert(whole[i - lo] == vs[i as int]);
                return None;
            },
        }
        i += 1;
    }
    let ghost pre = vs.subrange(lo as int, i as int);
    let ghost whole = vs.subrange(lo as int, hi as int);
    assert(whole.drop_last() =~= pre);
    assert(whole.last() == vs[i as int]);
    assert(vs[i as int] == ps@[i as int]@);
    assert forall|k: int| 0 <= k < whole.len() - 1 implies hex_group(#[trigger] whole[k]) by {
        assert(whole[k] == vs[lo + k]);
    }
    match hex_group_value(&ps[i]) {
        Some(g) => {
            out.push(g);
            Some(out)
        },
        None => {
            if v4_last {
                match parse_ipv4_chars(&ps[i]) {
                    Some(x) => {
                        let hi16: u16 = (x.a as u16) * 256 + (x.b as u16);
                        let lo16: u16 = (x.c as u16) * 256 + (x.d as u16);
                        out.push(hi16);
                        out.push(lo16);
                        Some(out)
                    },
                    None => None,
                }
            } else {
                None
            }
        },
    }
}

fn compressed_groups(ps: &Vec<Vec<char>>, head_end: usize, tail_start: usize) -> (r: Option<Vec<u16>>)
    requires
        head_end <= tail_start <= ps@.len(),
    ensures
        match r {
            Some(g) => compressed(
                views(ps@).subrange(0, head_end as int),
                views(ps@).subrange(tail_start as int, ps@.len() as int),
            ) == Some(g@),
            None => compressed(
                views(ps@).subrange(0, head_end as int),
                views(ps@).subrange(tail_start as int, ps@.len() as int),
            ).is_none(),
        },
{
    let ghost head = views(ps@).subrange(0, head_end as int);
    let ghost tail = views(ps@).subrange(tail_start as int, ps@.len() as int);
    let h = run_groups(ps, 0, head_end, false);
    let t = run_groups(ps, tail_start, ps.len(), true);
    match (h, t) {
        (Some(h), Some(t)) => {
            proof {
                lemma_run_len(head, false);
                lemma_run_len(tail, true);
            }
            if h.len() > 7 || t.len() > 7 - h.len() {
                return None;
            }
            let fill: usize = 8 - h.len() - t.len();
            let mut out = h;
            let mut k: usize = 0;
            while k < fill
                invariant
                    k <= fill,
                    out@ == run_values(head) + zeros(k as nat),
                decreases fill - k,
            {
                out.push(0u16);
                k += 1;
                assert(out@ =~= run_values(head) + zeros(k as nat));
            }
            let mut j: usize = 0;
            while j < t.len()
                invariant
                    j <= t@.len(),
                    out@ == run_values(head) + zeros(fill as nat) + t@.subrange(0, j as int),
                decreases t@.len() - j,
            {
                out.push(t[j]);
                j += 1;
                assert(out@ =~= run_values(head) + zeros(fill as nat) + t@.subrange(0, j as int));
            }
            assert(t@.subrange(0, t@.len() as int) =~= t@);
            Some(out)
        },
        _ => None,
    }
}

/// Reads an IPv6 address in text form as its eight groups.
pub fn parse_ipv6_chars(s: &Vec<char>) -> (r: Option<Vec<u16>>)
    ensures
        match r {
            Some(g) => ipv6_of(s@) == Some(g@),
            None => ipv6_of(s@).is_none(),
        },
{
    let ps = split_chars(s, ':');
    let ghost p = split_on(s@, ':');
    assert(views(ps@) =~= p);
    let n = ps.len();
    proof {
        crate::text::lemma_split_nonempty(s@, ':');
    }
    if n == 3 && ps[0].len() == 0 && ps[1].len() == 0 && ps[2].len() == 0 {
        let mut out: Vec<u16> = Vec::new();
        let mut k: usize = 0;
        while k < 8
            invariant
                k <= 8,
                out@ == zeros(k as nat),
            decreases 8 - k,
        {
            out.push(0u16);
            k += 1;
            assert(out@ =~= zeros(k as nat));
        }
        return Some(out);
    }
    if n >= 3 && ps[0].len() == 0 && ps[1].len() == 0 {
        let r = compressed_groups(&ps, 0, 2);
        assert(p.subrange(0, 0) =~= Seq::<Seq<char>>::empty());
        return r;
    }
    if n >= 3 && ps[n - 1].len() == 0 && ps[n - 2].len() == 0 {
        let r = compressed_groups(&ps, n - 2, n);
        assert(p.subrange(n as int, n as int) =~= Seq::<Seq<char>>::empty());
        return r;
    }
    // the one empty piece strictly inside, if any
    let mut found: Option<usize> = None;
    let mut extra = false;
    let mut j: usize = 1;
    while j < n - 1
        invariant
            n == ps@.len(),
            n >= 1,
            p == views(ps@),
            1 <= j,
            n >= 2 ==> j <= n - 1,
            match found {
                Some(f) => 0 < f < j && f < n - 1 && p[f as int].len() == 0 && (!extra ==> forall|k: int|
                    0 < k < j && k != f ==> (#[trigger] p[k]).len() != 0) && (extra ==> exists|k: int|
                    0 < k < n - 1 && k != f && (#[trigger] p[k]).len() == 0),
                None => !extra && forall|k: int| 0 < k < j ==> (#[trigger] p[k]).len() != 0,
            },
        decreases n - j,
    {
        if ps[j].len() == 0 {
            assert(p[j as int].len() == 0);
            match found {
                None => {
                    found = Some(j);
                },
                Some(_) => {
                    extra = true;
                },
            }
        } else {
            assert(p[j as int].len() != 0);
        }
        j += 1;
    }
    match found {
        Some(f) => {
            if extra {
                proof {
                    lemma_empty_not_ipv4();
                    let c = choose|c: int| 0 < c < n - 1 && (#[trigger] p[c]).len() == 0;
                    let k = choose|k: int| 0 < k < n - 1 && k != f && (#[trigger] p[k]).len() == 0;
                    let other = if c == f { k } else { f as int };
                    assert(other != c && 0 < other < n - 1 && p[other].len() == 0);
                    assert(p[other] =~= Seq::<char>::empty());
                    if other < c {
                        let head = p.subrange(0, c);
                        assert(head[other] == p[other]);
                        assert(!run_ok(head, false));
                    } else {
                        let tail = p.subrange(c + 1, n as int);
                        assert(tail[other - c - 1] == p[other]);
                        assert(!hex_group(tail[other - c - 1]));
                        assert(!run_ok(tail, true));
                    }
                }
                return None;
            }
            proof {
                assert(j == n - 1);
                assert(0 < f < n - 1 && p[f as int].len() == 0);
                let c = choose|c: int| 0 < c < n - 1 && (#[trigger] p[c]).len() == 0;
                assert(c == f);
            }
            compressed_groups(&ps, f, f + 1)
        },
        None => {
            let r = run_groups(&ps, 0, n, true);
            assert(p.subrange(0, n as int) =~= p);
            match r {
                Some(g) => {
                    proof {
                        lemma_run_len(p, true);
                    }
                    if g.len() == 8 {
                        Some(g)
                    } else {
                        None
                    }
                },
                None => None,
            }
        },
    }
}

/// Whether eight groups are the loopback address `::1`.
pub fn is_loopback_groups(g: &Vec<u16>) -> (r: bool)
    ensures
        r == (g@ == loopback_groups()),
{
    if g.len() != 8 {
        return false;
    }
    let mut i: usize = 0;
    while i < 7
        invariant
            g@.len() == 8,
            i <= 7,
            forall|k: int| 0 <= k < i ==> g@[k] == 0,
        decreases 7 - i,
    {
        if g[i] != 0 {
            assert(loopback_groups()[i as int] == 0);
            return false;
        }
        i += 1;
    }
    if g[7] != 1 {
        return false;
    }
    assert(g@ =~= loopback_groups());
    true
}

/// Reads an IPv6 address in text form as its eight groups.
pub fn parse_ipv6(s: &str) -> (r: Option<Vec<u16>>)
    ensures
        match r {
            Some(g) => ipv6_of(s@) == Some(g@),
            None => ipv6_of(s@).is_none(),
        },
{
    let cs = chars_of(s);
    parse_ipv6_chars(&cs)
}

} // verus!
