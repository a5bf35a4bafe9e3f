//! Connection URL construction for the discovery helpers.

use vstd::prelude::*;
use crate::strutil::{spec_dec, u64_to_dec};

verus! {

/// The canonical connection URL: scheme, optional `user:pass@` credentials,
/// host and port.
pub open spec fn spec_connection_url(
    tls: bool,
    ip: Seq<char>,
    port: u16,
    user: Option<Seq<char>>,
    pass: Option<Seq<char>>,
    include_credentials: bool,
) -> Seq<char> {
    let proto = if tls {
        "https"@
    } else {
        "http"@
    };
    let auth = if include_credentials {
        match (user, pass) {
            (Some(u), Some(p)) => u + ":"@ + p + "@"@,
            _ => Seq::<char>::empty(),
        }
    } else {
        Seq::<char>::empty()
    };
    proto + "://"@ + auth + ip + ":"@ + spec_dec(port as nat)
}

/// Constructs the canonical connection URL.
pub fn build_connection_url(
    tls: bool,
    ip: &str,
    port: u16,
    username: Option<&str>,
    password: Option<&str>,
    include_credentials: bool,
) -> (r: String)
    ensures
        r@ == spec_connection_url(
            tls,
            ip@,
            port,
            match username {
                Some(u) => Some(u@),
                None => None,
            },
            match password {
                Some(p) => Some(p@),
                None => None,
            },
            include_credentials,
        ),
{
    let mut r = if tls {
        "https".to_owned()
    } else {
        "http".to_owned()
    };
    r.append("://");
    if include_credentials {
        match (username, password) {
            (Some(u), Some(p)) => {
                r.append(u);
                r.append(":");
                r.append(p);
                r.append("@");
            },
            _ => {},
        }
    }
    r.append(ip);
    r.append(":");
    let port_dec = u64_to_dec(port as u64);
    r.append(port_dec.as_str());
    proof {
        assert(r@ =~= spec_connection_url(
            tls,
            ip@,
            port,
            match username {
                Some(u) => Some(u@),
                None => None,
            },
            match password {
                Some(p) => Some(p@),
                None => None,
            },
            include_credentials,
        ));
    }
    r
}

/// One network interface address, as the transport layer reports it: its
/// address family, whether it is a loopback address, and its textual form.
pub struct IpCandidate {
    pub is_ipv4: bool,
    pub is_loopback: bool,
    pub text: String,
}

/// A usable local address: IPv4 and not loopback.
pub open spec fn usable_ip(c: IpCandidate) -> bool {
    c.is_ipv4 && !c.is_loopback
}

/// Picks the machine's address to advertise: the first non-loopback IPv4
/// among the interfaces, in the given order; the loopback fallback when none
/// qualifies.
pub fn pick_local_ip(candidates: &Vec<IpCandidate>) -> (r: String)
    ensures
        (exists|i: int| 0 <= i < candidates@.len() && usable_ip(#[trigger] candidates@[i])) ==> {
            exists|i: int|
                {
                    &&& 0 <= i < candidates@.len()
                    &&& usable_ip(#[trigger] candidates@[i])
                    &&& r@ == candidates@[i].text@
                    &&& forall|j: int| 0 <= j < i ==> !usable_ip(#[trigger] candidates@[j])
                }
        },
        (forall|i: int| 0 <= i < candidates@.len() ==> !usable_ip(#[trigger] candidates@[i])) ==> r@
            == "127.0.0.1"@,
{
    let n = candidates.len();
    let mut i: usize = 0;
    while i < n
        invariant
            0 <= i <= n,
            n == candidates@.len(),
            forall|j: int| 0 <= j < i ==> !usable_ip(#[trigger] candidates@[j]),
        decreases n - i,
    {
        if candidates[i].is_ipv4 && !candidates[i].is_loopback {
            let r = candidates[i].text.clone();
            return r;
        }
        i = i + 1;
    }
    "127.0.0.1".to_owned()
}

} // verus!
