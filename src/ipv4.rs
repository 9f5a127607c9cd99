use vstd::prelude::*;

use crate::text::{chars_of, decimal_at_most, decimal_value, digits_value, split_chars, split_on};

verus! {

/// An IPv4 address as its four octets, most significant first.
#[derive(PartialEq, Eq, Structural, Clone, Copy, Debug)]
pub struct V4Addr {
    pub a: u8,
    pub b: u8,
    pub c: u8,
    pub d: u8,
}

/// One dotted-decimal field: at most three digits, no leading zero, at most 255.
pub open spec fn octet_text(t: Seq<char>) -> bool {
    &&& decimal_at_most(t, 255)
    &&& t.len() <= 3
    &&& (t.len() > 1 ==> t[0] != '0')
}

/// The address that `s` writes in dotted-decimal form, if it is one.
pub open spec fn ipv4_of(s: Seq<char>) -> Option<V4Addr> {
    let p = split_on(s, '.');
    if p.len() == 4 && octet_text(p[0]) && octet_text(p[1]) && octet_text(p[2]) && octet_text(
        p[3],
    ) {
        Some(
            V4Addr {
                a: digits_value(p[0]) as u8,
                b: digits_value(p[1]) as u8,
                c: digits_value(p[2]) as u8,
                d: digits_value(p[3]) as u8,
            },
        )
    } else {
        None
    }
}

/// The address and port that `s` writes as `a.b.c.d:port`, if it does.
pub open spec fn socket_v4_of(s: Seq<char>) -> Option<(V4Addr, u16)> {
    let p = split_on(s, ':');
    if p.len() == 2 && ipv4_of(p[0]).is_some() && decimal_at_most(p[1], 65535) {
        Some((ipv4_of(p[0]).unwrap(), digits_value(p[1]) as u16))
    } else {
        None
    }
}

/// 10.0.0.0/8, 172.16.0.0/12 or 192.168.0.0/16.
pub open spec fn is_private_spec(x: V4Addr) -> bool {
    x.a == 10 || (x.a == 172 && 16 <= x.b && x.b < 32) || (x.a == 192 && x.b == 168)
}

/// 127.0.0.0/8.
pub open spec fn is_loopback_spec(x: V4Addr) -> bool {
    x.a == 127
}

/// 169.254.0.0/16.
pub open spec fn is_link_local_spec(x: V4Addr) -> bool {
    x.a == 169 && x.b == 254
}

impl V4Addr {
    pub fn is_private(&self) -> (r: bool)
        ensures
            r == is_private_spec(*self),
    {
        self.a == 10 || (self.a == 172 && 16 <= self.b && self.b < 32) || (self.a == 192
            && self.b == 168)
    }

    pub fn is_loopback(&self) -> (r: bool)
        ensures
            r == is_loopback_spec(*self),
    {
        self.a == 127
    }

    pub fn is_link_local(&self) -> (r: bool)
        ensures
            r == is_link_local_spec(*self),
    {
        self.a == 169 && self.b == 254
    }
}

fn octet_value(t: &Vec<char>) -> (r: Option<u8>)
    ensures
        r == (if octet_text(t@) {
            Some(digits_value(t@) as u8)
        } else {
            None::<u8>
        }),
{
    if t.len() > 3 || (t.len() > 1 && t[0] == '0') {
        return None;
    }
    match decimal_value(t, 255) {
        Some(v) => Some(v as u8),
        None => None,
    }
}

/// Reads a dotted-decimal IPv4 address.
pub fn parse_ipv4_chars(s: &Vec<char>) -> (r: Option<V4Addr>)
    ensures
        r == ipv4_of(s@),
{
    let p = split_chars(s, '.');
    if p.len() != 4 {
        return None;
    }
    let ghost q = split_on(s@, '.');
    assert(p@[0]@ == q[0] && p@[1]@ == q[1] && p@[2]@ == q[2] && p@[3]@ == q[3]);
    let a = octet_value(&p[0]);
    let b = octet_value(&p[1]);
    let c = octet_value(&p[2]);
    let d = octet_value(&p[3]);
    match (a, b, c, d) {
        (Some(a), Some(b), Some(c), Some(d)) => Some(V4Addr { a, b, c, d }),
        _ => None,
    }
}

/// Reads a dotted-decimal IPv4 address from a string.
pub fn parse_ipv4(s: &str) -> (r: Option<V4Addr>)
    ensures
        r == ipv4_of(s@),
{
    let cs = chars_of(s);
    parse_ipv4_chars(&cs)
}

/// Reads an IPv4 socket address `a.b.c.d:port`.
pub fn parse_socket_v4(s: &str) -> (r: Option<(V4Addr, u16)>)
    ensures
        r == socket_v4_of(s@),
{
    let cs = chars_of(s);
    let p = split_chars(&cs, ':');
    if p.len() != 2 {
        return None;
    }
    let ghost q = split_on(s@, ':');
    assert(p@[0]@ == q[0] && p@[1]@ == q[1]);
    let ip = parse_ipv4_chars(&p[0]);
    let port = decimal_value(&p[1], 65535);
    match (ip, port) {
        (Some(ip), Some(port)) => Some((ip, port as u16)),
        _ => None,
    }
}

} // verus!
