use vstd::prelude::*;

use crate::ipv4::{
    ipv4_of, is_link_local_spec, is_loopback_spec, is_private_spec, parse_ipv4_chars,
};
use crate::ipv6::{ipv6_of, is_loopback_groups, loopback_groups, parse_ipv6_chars};
use crate::text::chars_of;

verus! {

/// What the public suffix list knows of the suffix of `host`: no match, or a match
/// that the list names explicitly (`true`) or only by its wildcard default (`false`).
pub uninterp spec fn psl_suffix_known(host: Seq<char>) -> Option<bool>;

/// The registrable domain of `host` by the public suffix list.
pub uninterp spec fn psl_domain(host: Seq<char>) -> Option<Seq<char>>;

/// Relies on psl::suffix and psl::Suffix::is_known: looks up the public suffix of a
/// host name and says whether the list names it explicitly.
#[verifier::external_body]
fn suffix_known(host: &str) -> (r: Option<bool>)
    ensures
        r == psl_suffix_known(host@),
{
    match psl::suffix(host.as_bytes()) {
        None => None,
        Some(suf) => Some(suf.is_known()),
    }
}

/// Relies on psl::domain_str: the registrable domain of a host name.
#[verifier::external_body]
fn domain_str(host: &str) -> (r: Option<String>)
    ensures
        match r {
            Some(d) => psl_domain(host@) == Some(d@),
            None => psl_domain(host@).is_none(),
        },
{
    match psl::domain_str(host) {
        None => None,
        Some(d) => Some(d.to_string()),
    }
}

/// The bypass decision for `host`.
///
/// `chinese` is the verdict on the host's registrable domain when China
/// passthrough is on, else `false`.
pub open spec fn bypass_spec(host: Seq<char>, chinese: bool) -> bool {
    if host.len() == 0 || host.contains('[') {
        false
    } else if ipv4_of(host).is_some() {
        let x = ipv4_of(host).unwrap();
        is_private_spec(x) || is_loopback_spec(x) || is_link_local_spec(x)
    } else if ipv6_of(host).is_some() {
        ipv6_of(host).unwrap() == loopback_groups()
    } else if chinese {
        true
    } else {
        match psl_suffix_known(host) {
            None => true,
            Some(known) => !known,
        }
    }
}

/// The domain whose Chinese-ness decides a bypass: the registrable domain of
/// `host`, asked for only when China passthrough is on.
pub fn china_candidate(host: &str, passthrough_china: bool) -> (r: Option<String>)
    ensures
        !passthrough_china ==> r.is_none(),
        passthrough_china ==> match r {
            Some(d) => psl_domain(host@) == Some(d@),
            None => psl_domain(host@).is_none(),
        },
{
    if passthrough_china {
        domain_str(host)
    } else {
        None
    }
}

fn contains_char(s: &Vec<char>, c: char) -> (r: bool)
    ensures
        r == s@.contains(c),
{
    let mut i: usize = 0;
    while i < s.len()
        invariant
            i <= s@.len(),
            forall|k: int| 0 <= k < i ==> s@[k] != c,
        decreases s@.len() - i,
    {
        if s[i] == c {
            return true;
        }
        i += 1;
    }
    false
}

/// Whether a destination host is reached directly rather than through the tunnel.
pub fn whitelist_host(host: &str, chinese: bool) -> (r: bool)
    ensures
        r == bypass_spec(host@, chinese),
{
    let cs = chars_of(host);
    if cs.len() == 0 || contains_char(&cs, '[') {
        return false;
    }
    if let Some(x) = parse_ipv4_chars(&cs) {
        return x.is_private() || x.is_loopback() || x.is_link_local();
    }
    if let Some(g) = parse_ipv6_chars(&cs) {
        return is_loopback_groups(&g);
    }
    if chinese {
        return true;
    }
    match suffix_known(host) {
        None => true,
        Some(known) => !known,
    }
}

} // verus!
