//! The terminal client's model: saved hosts, the command surface, and the
//! URL arithmetic for talking to a chosen host.

use vstd::prelude::*;

verus! {

use vstd::string::{StrSliceExecFns, StringExecFns};
use crate::text::{str_eq, str_starts_with};

/// One saved server host.
#[derive(Clone, Debug)]
pub struct Host {
    pub name: String,
    pub url: String,
    pub token: Option<String>,
    pub web_url: Option<String>,
}

/// Mathematical model of a saved host.
pub struct HostV {
    pub name: Seq<char>,
    pub url: Seq<char>,
    pub token: Option<Seq<char>>,
    pub web_url: Option<Seq<char>>,
}

impl View for Host {
    type V = HostV;

    open spec fn view(&self) -> HostV {
        HostV {
            name: self.name@,
            url: self.url@,
            token: match &self.token {
                Some(t) => Some(t@),
                None => None,
            },
            web_url: match &self.web_url {
                Some(w) => Some(w@),
                None => None,
            },
        }
    }
}

impl Host {
    /// A field-by-field copy whose model equals this host's.
    pub fn duplicate(&self) -> (r: Host)
        ensures
            r@ == self@,
    {
        Host {
            name: self.name.clone(),
            url: self.url.clone(),
            token: match &self.token {
                Some(t) => Some(t.clone()),
                None => None,
            },
            web_url: match &self.web_url {
                Some(w) => Some(w.clone()),
                None => None,
            },
        }
    }
}

/// The client's saved configuration.
#[derive(Clone, Debug)]
pub struct Config {
    pub hosts: Vec<Host>,
    pub default_host: Option<String>,
    pub link_host: Option<String>,
}

impl Config {
    /// The hosts as their models, in saved order.
    pub open spec fn hosts_view(&self) -> Seq<HostV> {
        self.hosts@.map_values(|h: Host| h@)
    }

    /// Whether some saved host carries this name.
    pub open spec fn spec_has_host(&self, name: Seq<char>) -> bool {
        exists|i: int|
            0 <= i < self.hosts_view().len() && (#[trigger] self.hosts_view()[i]).name == name
    }
}

/// A path argument on the command line.
#[derive(Clone, Debug)]
pub struct ArgPath(pub String);

impl ArgPath {
    /// The path this argument names.
    pub fn path(self) -> (r: String)
        ensures
            r@ == self.0@,
    {
        self.0
    }

    /// The argument as entered.
    pub fn to_string(&self) -> (r: String)
        ensures
            r@ == self.0@,
    {
        self.0.clone()
    }
}

impl core::str::FromStr for ArgPath {
    type Err = String;

    /// Every argument is a path; this never refuses one.
    fn from_str(s: &str) -> (r: Result<ArgPath, String>) {
        Ok(ArgPath(s.to_owned()))
    }
}

impl Default for ArgPath {
    /// The empty path: the server root.
    fn default() -> (r: Self)
        ensures
            r.0@.len() == 0,
    {
        ArgPath(String::new())
    }
}

/// How a command names a file: a bare ten-character id, or a path.
#[derive(Clone, Debug)]
pub enum FileIdentifier {
    Id(String),
    Path(String),
}

impl FileIdentifier {
    /// What an argument is taken as: a ten-character string without dots
    /// or separators is an id, anything else a path.
    pub fn classify(s: &str) -> (r: FileIdentifier)
        ensures
            ({
                let is_id = s@.len() == 10 && !s@.contains('.') && !s@.contains('/')
                    && !s@.contains('\\');
                match r {
                    FileIdentifier::Id(v) => is_id && v@ == s@,
                    FileIdentifier::Path(v) => !is_id && v@ == s@,
                }
            }),
    {
        if s.unicode_len() == 10 && !crate::text::str_contains_char(s, '.')
            && !crate::text::str_contains_char(s, '/') && !crate::text::str_contains_char(
            s,
            '\\',
        ) {
            FileIdentifier::Id(s.to_owned())
        } else {
            FileIdentifier::Path(s.to_owned())
        }
    }
}

/// The command the client was asked to run.
#[derive(Clone, Debug)]
pub enum Command {
    Upload { local: String, remote: ArgPath, access: Option<crate::records::FileAccess>, id: Option<String> },
    Get { file: FileIdentifier, local: Option<String>, metadata: bool, link: bool },
    Rm { file: FileIdentifier },
    Mv { file: FileIdentifier, new_path: String },
    Ls { directory: ArgPath },
    Mkdir { directory: ArgPath },
    Access { file: FileIdentifier, access: crate::records::FileAccess },
    Link(LinkCommands),
    Speedtest,
    Auth(AuthCommands),
    Sync,
    Log,
    Config,
    Stats,
    Cleanup,
}

/// Link management sub-commands.
#[derive(Clone, Debug)]
pub enum LinkCommands {
    Create,
    Rm { link_id: String },
    Ls,
}

/// Host management sub-commands.
#[derive(Clone, Debug)]
pub enum AuthCommands {
    Add { name: String, url: String, token: Option<String>, web_url: Option<String>, autoset: bool },
    Ls,
    Rm { name: String },
    SetDefault { name: String },
}

/// The parsed command line.
#[derive(Clone, Debug)]
pub struct Args {
    pub command: Command,
    pub host: Option<String>,
    pub debug: bool,
}

/// The running client: its arguments and its saved configuration.
#[derive(Clone, Debug)]
pub struct App {
    pub args: Args,
    pub config: Config,
}

/// The host taken from a `--host` argument: with an `@`, the part before
/// it is the token and the part after the URL; without one, the whole
/// value is the URL.
pub open spec fn spec_arg_host(s: Seq<char>) -> (Option<Seq<char>>, Seq<char>) {
    if s.contains('@') {
        let i = choose|i: int|
            0 <= i < s.len() && (#[trigger] s[i]) == '@' && forall|j: int|
                0 <= j < i ==> s[j] != '@';
        (Some(s.take(i)), s.skip(i + 1))
    } else {
        (None, s)
    }
}

/// Split a `--host` argument at its first `@` into token and URL.
fn split_arg_host(s: &str) -> (r: (Option<String>, String))
    ensures
        ({
            let (tok, url) = spec_arg_host(s@);
            &&& (match &r.0 {
                Some(t) => tok == Some(t@),
                None => tok is None,
            })
            &&& r.1@ == url
        }),
{
    let n = s.unicode_len();
    let mut i: usize = 0;
    while i < n && s.get_char(i) != '@'
        invariant
            n == s@.len(),
            i <= n,
            forall|j: int| 0 <= j < i ==> (#[trigger] s@[j]) != '@',
        decreases n - i,
    {
        i = i + 1;
    }
    if i == n {
        proof {
            assert(!s@.contains('@')) by {
                if s@.contains('@') {
                    let j = choose|j: int| 0 <= j < s@.len() && s@[j] == '@';
                    assert(s@[j] != '@');
                }
            }
        }
        (None, s.to_owned())
    } else {
        let tok = s.substring_char(0, i).to_owned();
        let url = s.substring_char(i + 1, n).to_owned();
        proof {
            assert(s@[i as int] == '@');
            assert(s@.contains('@'));
            let w = choose|w: int|
                0 <= w < s@.len() && (#[trigger] s@[w]) == '@' && forall|j: int|
                    0 <= j < w ==> s@[j] != '@';
            assert(!(w < i) && !(i < w));
            assert(tok@ =~= s@.take(i as int));
            assert(url@ =~= s@.skip(i as int + 1));
        }
        (Some(tok), url)
    }
}

/// The first saved host with this name.
pub open spec fn spec_find_host(hosts: Seq<HostV>, name: Seq<char>) -> Option<HostV>
    decreases hosts.len(),
{
    if hosts.len() == 0 {
        None
    } else if hosts[0].name == name {
        Some(hosts[0])
    } else {
        spec_find_host(hosts.skip(1), name)
    }
}

/// The host a run talks to: from the `--host` argument when given, else
/// the first saved host carrying the default host's name.
pub open spec fn spec_chosen_host(app: &App) -> Option<HostV> {
    match &app.args.host {
        Some(s) => {
            let (tok, url) = spec_arg_host(s@);
            Some(HostV { name: "ArgsHost"@, url, token: tok, web_url: None })
        },
        None => match &app.config.default_host {
            Some(d) => spec_find_host(app.config.hosts_view(), d@),
            None => None,
        },
    }
}

impl App {
    /// The host this run talks to: built from the `--host` argument when
    /// one was given, otherwise the saved default host.
    pub fn get_host(&self) -> (r: Host)
        requires
            spec_chosen_host(self) is Some,
        ensures
            Some(r@) == spec_chosen_host(self),
    {
        match &self.args.host {
            Some(host_str) => {
                let (token, url) = split_arg_host(host_str.as_str());
                Host { name: "ArgsHost".to_owned(), url, token, web_url: None }
            },
            None => {
                let default = match &self.config.default_host {
                    Some(d) => d,
                    None => {
                        proof {
                            assert(false);
                        }
                        return Host {
                            name: String::new(),
                            url: String::new(),
                            token: None,
                            web_url: None,
                        };
                    },
                };
                let ghost hostsv = self.config.hosts_view();
                let n = self.config.hosts.len();
                let mut k: usize = 0;
                proof {
                    assert(hostsv.skip(0) =~= hostsv);
                }
                while k < n
                    invariant
                        hostsv == self.config.hosts_view(),
                        n == self.config.hosts.len(),
                        k <= n,
                        self.args.host is None,
                        (match &self.config.default_host {
                            Some(d) => d@ == default@,
                            None => false,
                        }),
                        spec_find_host(hostsv, default@) == spec_find_host(
                            hostsv.skip(k as int),
                            default@,
                        ),
                        spec_find_host(hostsv, default@) is Some,
                    decreases n - k,
                {
                    proof {
                        assert(hostsv.skip(k as int)[0] == hostsv[k as int]);
                    }
                    if str_eq(self.config.hosts[k].name.as_str(), default.as_str()) {
                        proof {
                            assert(hostsv[k as int] == self.config.hosts@[k as int]@);
                            assert(hostsv.skip(k as int)[0].name == default@);
                            assert(spec_find_host(hostsv.skip(k as int), default@) == Some(
                                hostsv[k as int],
                            ));
                            assert(spec_find_host(hostsv, default@) == Some(hostsv[k as int]));
                            assert(self.args.host is None);
                            assert(match &self.config.default_host {
                                Some(d) => d@ == default@,
                                None => false,
                            });
                            assert(spec_chosen_host(self) == Some(hostsv[k as int]));
                        }
                        return self.config.hosts[k].duplicate();
                    }
                    proof {
                        assert(hostsv.skip(k as int).skip(1) =~= hostsv.skip(k as int + 1));
                    }
                    k = k + 1;
                }
                proof {
                    assert(hostsv.skip(n as int) =~= Seq::<HostV>::empty());
                    assert(false);
                }
                Host { name: String::new(), url: String::new(), token: None, web_url: None }
            },
        }
    }

    /// The websocket base for the chosen host: `wss` in place of `https`,
    /// `ws` in place of `http`.
    pub fn get_base_socket_url(&self) -> (r: String)
        requires
            spec_chosen_host(self) is Some,
            ({
                let url = spec_chosen_host(self).unwrap().url;
                url.len() >= 4 && url.take(4) == "http"@
            }),
        ensures
            ({
                let url = spec_chosen_host(self).unwrap().url;
                if url.len() >= 5 && url.take(5) == "https"@ {
                    r@ == "wss"@ + url.skip(5)
                } else {
                    r@ == "ws"@ + url.skip(4)
                }
            }),
    {
        let host = self.get_host();
        proof {
            reveal_strlit("https");
        }
        let secure = str_starts_with(host.url.as_str(), "https");
        let n = host.url.as_str().unicode_len();
        proof {
            assert(host@.url.take(4) == "http"@);
        }
        if secure {
            let domain = host.url.as_str().substring_char(5, n).to_owned();
            let mut out = "wss".to_owned();
            out.append(domain.as_str());
            proof {
                assert(domain@ =~= host@.url.skip(5));
            }
            out
        } else {
            let domain = host.url.as_str().substring_char(4, n).to_owned();
            let mut out = "ws".to_owned();
            out.append(domain.as_str());
            proof {
                assert(domain@ =~= host@.url.skip(4));
            }
            out
        }
    }

    /// The client's user-agent marker.
    pub fn get_user_agent() -> (r: String)
        ensures
            r@ == "sf_cli / 0.1.0"@,
    {
        "sf_cli / 0.1.0".to_owned()
    }

    /// A request URL on the chosen host: its base URL and the route path.
    pub fn get_url(&self, path: &str) -> (r: String)
        requires
            spec_chosen_host(self) is Some,
        ensures
            r@ == spec_chosen_host(self).unwrap().url + path@,
    {
        let host = self.get_host();
        let mut out = host.url;
        out.append(path);
        proof {
            assert(out@ == host@.url + path@);
        }
        out
    }
}

} // verus!
