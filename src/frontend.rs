use vstd::prelude::*;

use crate::ipv4::{parse_socket_v4, socket_v4_of};

verus! {

/// Index of the last `c` in `s`, or -1.
pub open spec fn last_index_of(s: Seq<char>, c: char) -> int
    decreases s.len(),
{
    if s.len() == 0 {
        -1
    } else if s.last() == c {
        s.len() - 1
    } else {
        last_index_of(s.drop_last(), c)
    }
}

proof fn lemma_last_index_bounds(s: Seq<char>, c: char)
    ensures
        -1 <= last_index_of(s, c) < s.len(),
        last_index_of(s, c) >= 0 ==> s[last_index_of(s, c)] == c,
        forall|k: int| last_index_of(s, c) < k < s.len() ==> s[k] != c,
    decreases s.len(),
{
    if s.len() > 0 && s.last() != c {
        lemma_last_index_bounds(s.drop_last(), c);
        let d = s.drop_last();
        assert forall|k: int| last_index_of(s, c) < k < s.len() implies s[k] != c by {
            if k < d.len() {
                assert(s[k] == d[k]);
            }
        }
    }
}

/// The decimal text of `n`, without leading zeros.
pub open spec fn decimal_text(n: nat) -> Seq<char>
    decreases n,
{
    if n < 10 {
        seq![digit_char(n)]
    } else {
        decimal_text(n / 10).push(digit_char(n % 10))
    }
}

pub open spec fn digit_char(d: nat) -> char {
    if d == 0 {
        '0'
    } else if d == 1 {
        '1'
    } else if d == 2 {
        '2'
    } else if d == 3 {
        '3'
    } else if d == 4 {
        '4'
    } else if d == 5 {
        '5'
    } else if d == 6 {
        '6'
    } else if d == 7 {
        '7'
    } else if d == 8 {
        '8'
    } else {
        '9'
    }
}

fn digit_str(d: u32) -> (r: &'static str)
    requires
        d < 10,
    ensures
        r@ == seq![digit_char(d as nat)],
{
    let digits = "0123456789";
    proof {
        reveal_strlit("0123456789");
    }
    let r = digits.substring_char(d as usize, d as usize + 1);
    assert(r@ =~= seq![digit_char(d as nat)]);
    r
}

fn push_decimal(out: &mut String, n: u32)
    ensures
        final(out)@ == old(out)@ + decimal_text(n as nat),
    decreases n,
{
    if n < 10 {
        out.append(digit_str(n));
    } else {
        push_decimal(out, n / 10);
        out.append(digit_str(n % 10));
        assert(decimal_text(n as nat) == decimal_text((n / 10) as nat).push(digit_char((n % 10) as nat)));
        assert(final(out)@ =~= old(out)@ + decimal_text(n as nat));
    }
}

/// The host part of a `host:port` destination: everything before the last `:`.
pub open spec fn host_part(dest: Seq<char>) -> Option<Seq<char>> {
    if last_index_of(dest, ':') < 0 {
        None
    } else {
        Some(dest.subrange(0, last_index_of(dest, ':')))
    }
}

/// Splits off the host of a `host:port` destination at its last `:`.
pub fn host_of(dest: &str) -> (r: Option<&str>)
    ensures
        match r {
            Some(h) => host_part(dest@) == Some(h@),
            None => host_part(dest@).is_none(),
        },
{
    let n = dest.unicode_len();
    let mut i: usize = n;
    proof {
        lemma_last_index_bounds(dest@, ':');
    }
    while i > 0
        invariant
            n == dest@.len(),
            i <= n,
            last_index_of(dest@, ':') < i,
        decreases i,
    {
        if dest.get_char(i - 1) == ':' {
            proof {
                lemma_last_index_bounds(dest@, ':');
            }
            return Some(dest.substring_char(0, i - 1));
        }
        proof {
            lemma_last_index_bounds(dest@, ':');
        }
        i -= 1;
    }
    None
}

/// The text posted on the dispatch queue for a tunnelled connection: `protocol$dest`.
pub open spec fn label_spec(protocol: Seq<char>, dest: Seq<char>) -> Seq<char> {
    protocol + seq!['$'] + dest
}

/// Names a tunnelled connection request as `protocol$dest`.
pub fn request_label(protocol: &str, dest: &str) -> (r: String)
    ensures
        r@ == label_spec(protocol@, dest@),
{
    let mut r = String::from_str(protocol);
    let sep = "$";
    proof {
        reveal_strlit("$");
    }
    r.append(sep);
    r.append(dest);
    assert(r@ =~= label_spec(protocol@, dest@));
    r
}

/// The destination after the fake-DNS lookup: an IPv4 socket address for which
/// a real host name is known becomes `name:port`; any other stays.
pub open spec fn backtranslated_spec(dest: Seq<char>, name: Option<Seq<char>>) -> Seq<char> {
    match (socket_v4_of(dest), name) {
        (Some(sa), Some(n)) => n + seq![':'] + decimal_text(sa.1 as nat),
        _ => dest,
    }
}

/// Rewrites a destination whose synthetic IPv4 address maps back to `name`.
pub fn apply_backtranslation(dest: &str, name: Option<&str>) -> (r: String)
    ensures
        r@ == backtranslated_spec(dest@, match name {
            Some(n) => Some(n@),
            None => None,
        }),
{
    match (parse_socket_v4(dest), name) {
        (Some((_, port)), Some(n)) => {
            let mut r = String::from_str(n);
            let colon = ":";
            proof {
                reveal_strlit(":");
            }
            r.append(colon);
            push_decimal(&mut r, port as u32);
            r
        },
        _ => String::from_str(dest),
    }
}

/// Where a connection request goes.
pub enum Route {
    /// Dial the destination directly.
    Direct,
    /// Post this label on the dispatch queue.
    Tunnel(String),
}

/// Picks the route of a connection to `dest`; `host_bypassed` is the bypass
/// decision on the host of `dest` (ignored where `dest` has no `:`).
pub fn choose_route(protocol: &str, dest: &str, host_bypassed: bool) -> (r: Route)
    ensures
        match r {
            Route::Direct => host_part(dest@).is_some() && host_bypassed,
            Route::Tunnel(l) => !(host_part(dest@).is_some() && host_bypassed) && l@ == label_spec(
                protocol@,
                dest@,
            ),
        },
{
    if host_of(dest).is_some() && host_bypassed {
        Route::Direct
    } else {
        Route::Tunnel(request_label(protocol, dest))
    }
}

} // verus!
