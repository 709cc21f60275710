use vstd::prelude::*;

verus! {

/// Whether `s` begins with `p`.
pub open spec fn starts_with(s: Seq<char>, p: Seq<char>) -> bool {
    p.len() <= s.len() && s.take(p.len() as int) == p
}

/// `s` with every leading repetition of a non-empty `p` taken off.
pub open spec fn trim_prefix(s: Seq<char>, p: Seq<char>) -> Seq<char>
    decreases s.len(),
{
    if p.len() > 0 && starts_with(s, p) {
        trim_prefix(s.skip(p.len() as int), p)
    } else {
        s
    }
}

/// Whether `s` begins with `p`.
pub fn has_prefix(s: &str, p: &str) -> (r: bool)
    ensures
        r == starts_with(s@, p@),
{
    let n = s.unicode_len();
    let m = p.unicode_len();
    if m > n {
        return false;
    }
    let mut i: usize = 0;
    while i < m
        invariant
            m == p@.len(),
            n == s@.len(),
            m <= n,
            i <= m,
            forall|j: int| 0 <= j < i ==> s@[j] == p@[j],
        decreases m - i,
    {
        if s.get_char(i) != p.get_char(i) {
            assert(s@.take(m as int)[i as int] != p@[i as int]);
            return false;
        }
        i = i + 1;
    }
    assert(s@.take(m as int) =~= p@);
    true
}

/// `s` with every leading repetition of a non-empty `p` taken off.
pub fn trim_start(s: &str, p: &str) -> (r: String)
    requires
        p@.len() > 0,
    ensures
        r@ == trim_prefix(s@, p@),
{
    let m = p.unicode_len();
    let mut cur = String::from_str(s);
    while has_prefix(cur.as_str(), p)
        invariant
            m == p@.len(),
            m > 0,
            trim_prefix(cur@, p@) == trim_prefix(s@, p@),
        decreases cur@.len(),
    {
        let n = cur.as_str().unicode_len();
        let rest = String::from_str(cur.as_str().substring_char(m, n));
        assert(rest@ =~= cur@.skip(m as int));
        cur = rest;
    }
    cur
}

/// How to reach the container runtime.
#[derive(Debug)]
pub enum DockerEndpoint {
    /// A unix socket at this path.
    Unix(String),
    /// An HTTP or HTTPS address.
    Http(String),
}

/// Where the runtime is to be reached for a host address: a `unix://`
/// address is the socket path after the scheme, an `http://` or
/// `https://` one is kept whole, any other scheme is refused.
pub fn docker_endpoint(host: &str) -> (r: Result<DockerEndpoint, String>)
    ensures
        starts_with(host@, "unix://"@) ==> (r matches Ok(DockerEndpoint::Unix(p)) && p@ == trim_prefix(
            host@,
            "unix://"@,
        )),
        !starts_with(host@, "unix://"@) && (starts_with(host@, "http://"@) || starts_with(
            host@,
            "https://"@,
        )) ==> (r matches Ok(DockerEndpoint::Http(h)) && h@ == host@),
        !starts_with(host@, "unix://"@) && !starts_with(host@, "http://"@) && !starts_with(
            host@,
            "https://"@,
        ) ==> r is Err,
{
    proof {
        reveal_strlit("unix://");
    }
    if has_prefix(host, "unix://") {
        Ok(DockerEndpoint::Unix(trim_start(host, "unix://")))
    } else if has_prefix(host, "http://") || has_prefix(host, "https://") {
        Ok(DockerEndpoint::Http(String::from_str(host)))
    } else {
        let mut msg = String::from_str(host);
        msg.append(" have invalid schema");
        Err(msg)
    }
}

/// The socket of the runtime where no other is configured.
pub open spec fn default_socket() -> Seq<char> {
    "unix:///var/run/docker.sock"@
}

/// The runtime host for the current context of the client configuration,
/// with whether it is a desktop one: the default socket for no context, the
/// `default` one, or a context without a docker endpoint; the endpoint's
/// host otherwise, which must be a `unix://` address.
pub fn context_docker_host(context: &Option<String>, endpoint: &Option<String>) -> (r: Result<(String, bool), String>)
    ensures
        match context {
            None => (r matches Ok((h, d)) && h@ == default_socket() && !d),
            Some(c) => if c@ == "default"@ {
                (r matches Ok((h, d)) && h@ == default_socket() && !d)
            } else {
                match endpoint {
                    None => (r matches Ok((h, d)) && h@ == default_socket() && !d),
                    Some(e) => if starts_with(e@, "unix://"@) {
                        (r matches Ok((h, d)) && h@ == e@ && d == (c@ == "desktop-linux"@))
                    } else {
                        r is Err
                    },
                }
            },
        },
{
    let c = match context {
        None => {
            return Ok((String::from_str("unix:///var/run/docker.sock"), false));
        },
        Some(c) => c,
    };
    if *c == String::from_str("default") {
        return Ok((String::from_str("unix:///var/run/docker.sock"), false));
    }
    let e = match endpoint {
        None => {
            return Ok((String::from_str("unix:///var/run/docker.sock"), false));
        },
        Some(e) => e,
    };
    if !has_prefix(e.as_str(), "unix://") {
        let mut msg = String::from_str("No unix docker endpoint unsupported yet: ");
        msg.append(e.as_str());
        return Err(msg);
    }
    let desktop = *c == String::from_str("desktop-linux");
    Ok((e.clone(), desktop))
}

} // verus!
