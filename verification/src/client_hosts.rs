//! The client's host-management commands: saving, listing, removing and
//! choosing the default server host.

use vstd::prelude::*;

verus! {

use vstd::string::StringExecFns;
use crate::client_app::{Config, Host, HostV};
use crate::index::{lemma_filter_take_step, lemma_map_values_push};
use crate::text::str_eq;

/// Save a new host, optionally making it the default. A name already in
/// use is refused and nothing changes.
pub fn add(
    config: &mut Config,
    name: &str,
    url: &str,
    token: Option<String>,
    web_url: Option<String>,
    autoset: bool,
) -> (r: bool)
    ensures
        r == !old(config).spec_has_host(name@),
        !r ==> *final(config) == *old(config),
        r ==> {
            &&& final(config).hosts_view() == old(config).hosts_view().push(
                (HostV {
                    name: name@,
                    url: url@,
                    token: match &token {
                        Some(t) => Some(t@),
                        None => None,
                    },
                    web_url: match &web_url {
                        Some(w) => Some(w@),
                        None => None,
                    },
                }),
            )
            &&& (match &final(config).default_host {
                Some(d) => if autoset {
                    d@ == name@
                } else {
                    old(config).default_host matches Some(p) && p@ == d@
                },
                None => !autoset && old(config).default_host is None,
            })
            &&& final(config).link_host == old(config).link_host
        },
{
    let n = config.hosts.len();
    let mut k: usize = 0;
    while k < n
        invariant
            *config == *old(config),
            n == config.hosts.len(),
            k <= n,
            forall|i: int| 0 <= i < k ==> (#[trigger] config.hosts_view()[i]).name != name@,
        decreases n - k,
    {
        if str_eq(config.hosts[k].name.as_str(), name) {
            proof {
                assert(config.hosts_view()[k as int].name == name@);
            }
            return false;
        }
        k = k + 1;
    }
    let ghost pre = config.hosts_view();
    let host = Host { name: name.to_owned(), url: url.to_owned(), token, web_url };
    let ghost hv = host@;
    config.hosts.push(host);
    proof {
        assert(config.hosts_view() =~= pre.push(hv));
    }
    if autoset {
        config.default_host = Some(name.to_owned());
    }
    true
}

/// One line of the saved-hosts listing: the default marker, the name in
/// brackets, the URL, and whether a token is saved.
pub open spec fn spec_host_line(is_default: bool, h: HostV) -> Seq<char> {
    (if is_default {
        ">"@
    } else {
        " "@
    }) + " ["@ + h.name + "] "@ + h.url + " ("@ + (if h.token is Some {
        "******"@
    } else {
        "No token"@
    }) + ")"@
}

/// The saved-hosts listing: one line per host, in saved order, the
/// default host marked.
pub fn ls(config: &Config) -> (r: Vec<String>)
    ensures
        r@.len() == config.hosts_view().len(),
        forall|i: int|
            0 <= i < r@.len() ==> (#[trigger] r@[i])@ == spec_host_line(
                (match &config.default_host {
                    Some(d) => d@ == config.hosts_view()[i].name,
                    None => false,
                }),
                config.hosts_view()[i],
            ),
{
    let n = config.hosts.len();
    let mut out: Vec<String> = Vec::new();
    let mut k: usize = 0;
    while k < n
        invariant
            n == config.hosts.len(),
            k <= n,
            out@.len() == k,
            forall|i: int|
                0 <= i < k ==> (#[trigger] out@[i])@ == spec_host_line(
                    (match &config.default_host {
                        Some(d) => d@ == config.hosts_view()[i].name,
                        None => false,
                    }),
                    config.hosts_view()[i],
                ),
        decreases n - k,
    {
        let host = &config.hosts[k];
        let is_default = match &config.default_host {
            Some(d) => str_eq(d.as_str(), host.name.as_str()),
            None => false,
        };
        let mut line = if is_default {
            ">".to_owned()
        } else {
            " ".to_owned()
        };
        line.append(" [");
        line.append(host.name.as_str());
        line.append("] ");
        line.append(host.url.as_str());
        line.append(" (");
        line.append(
            if host.token.is_some() {
                "******"
            } else {
                "No token"
            },
        );
        line.append(")");
        out.push(line);
        k = k + 1;
    }
    out
}

/// Forget every saved host with this name, and the default when it named
/// one of them. An unknown name changes nothing.
pub fn rm(config: &mut Config, name: &str) -> (r: bool)
    ensures
        r == old(config).spec_has_host(name@),
        !r ==> *final(config) == *old(config),
        r ==> {
            &&& final(config).hosts_view() == old(config).hosts_view().filter(
                |h: HostV| h.name != name@,
            )
            &&& (match &old(config).default_host {
                Some(d) => if d@ == name@ {
                    final(config).default_host is None
                } else {
                    final(config).default_host matches Some(nd) && nd@ == d@
                },
                None => final(config).default_host is None,
            })
            &&& final(config).link_host == old(config).link_host
        },
{
    let ghost pred = |h: HostV| h.name != name@;
    let ghost pre = config.hosts_view();
    let mut found = false;
    let n = config.hosts.len();
    let mut k: usize = 0;
    while k < n && !found
        invariant
            *config == *old(config),
            n == config.hosts.len(),
            k <= n,
            found ==> config.spec_has_host(name@),
            !found ==> forall|i: int|
                0 <= i < k ==> (#[trigger] config.hosts_view()[i]).name != name@,
        decreases n - k,
    {
        if str_eq(config.hosts[k].name.as_str(), name) {
            proof {
                assert(config.hosts_view()[k as int].name == name@);
            }
            found = true;
        }
        k = k + 1;
    }
    if !found {
        proof {
            if config.spec_has_host(name@) {
                let i = choose|i: int|
                    0 <= i < config.hosts_view().len() && (#[trigger] config.hosts_view()[i]).name
                        == name@;
                assert(config.hosts_view()[i].name != name@);
            }
        }
        return false;
    }
    let mut kept: Vec<Host> = Vec::new();
    let mut i: usize = 0;
    proof {
        reveal(Seq::filter);
        assert(kept@.map_values(|h: Host| h@) =~= pre.take(0).filter(pred));
    }
    while i < n
        invariant
            *config == *old(config),
            pre == config.hosts_view(),
            n == config.hosts.len(),
            i <= n,
            kept@.map_values(|h: Host| h@) == pre.take(i as int).filter(pred),
            pred == (|h: HostV| h.name != name@),
        decreases n - i,
    {
        proof {
            lemma_filter_take_step(pre, pred, i as int);
        }
        if !str_eq(config.hosts[i].name.as_str(), name) {
            let d = config.hosts[i].duplicate();
            let ghost prev = kept@;
            kept.push(d);
            proof {
                lemma_map_values_push(prev, |h: Host| h@, kept@.last());
            }
        }
        i = i + 1;
    }
    proof {
        assert(pre.take(n as int) =~= pre);
    }
    config.hosts = kept;
    let clear_default = match &config.default_host {
        Some(d) => str_eq(d.as_str(), name),
        None => false,
    };
    if clear_default {
        config.default_host = None;
    }
    true
}

/// Make a saved host the default. An unknown name changes nothing.
pub fn set(config: &mut Config, name: &str) -> (r: bool)
    ensures
        r == old(config).spec_has_host(name@),
        !r ==> *final(config) == *old(config),
        r ==> {
            &&& final(config).hosts_view() == old(config).hosts_view()
            &&& final(config).default_host matches Some(d) && d@ == name@
            &&& final(config).link_host == old(config).link_host
        },
{
    let n = config.hosts.len();
    let mut k: usize = 0;
    while k < n
        invariant
            *config == *old(config),
            n == config.hosts.len(),
            k <= n,
            forall|i: int| 0 <= i < k ==> (#[trigger] config.hosts_view()[i]).name != name@,
        decreases n - k,
    {
        if str_eq(config.hosts[k].name.as_str(), name) {
            proof {
                assert(config.hosts_view()[k as int].name == name@);
            }
            config.default_host = Some(name.to_owned());
            return true;
        }
        k = k + 1;
    }
    proof {
        if config.spec_has_host(name@) {
            let i = choose|i: int|
                0 <= i < config.hosts_view().len() && (#[trigger] config.hosts_view()[i]).name
                    == name@;
            assert(config.hosts_view()[i].name != name@);
        }
    }
    false
}

} // verus!
