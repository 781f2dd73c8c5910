//! The service configuration: which backing store to use, its credentials,
//! the bind address, the token, and the limits.
//!
//! The process reads the TOML document and hands the values over; the
//! info report for the management surface is computed here.

use vstd::prelude::*;

verus! {

use vstd::string::StringExecFns;
use crate::number::{u64_to_string, spec_u64_digits};
use crate::protected::FileSystemInfo;

/// Which backing store the service runs on.
#[derive(Clone, Copy, Debug, PartialEq, Eq, Structural)]
pub enum WhichFileSystem {
    Local,
    SSH,
}

impl WhichFileSystem {
    /// The display name of the selected store.
    pub fn to_string(&self) -> (r: String)
        ensures
            *self == WhichFileSystem::Local ==> r@ == "Local"@,
            *self == WhichFileSystem::SSH ==> r@ == "SSH"@,
    {
        match self {
            WhichFileSystem::Local => "Local".to_owned(),
            WhichFileSystem::SSH => "SSH".to_owned(),
        }
    }
}

/// Credentials and root of the SFTP store.
#[derive(Clone, Debug)]
pub struct SSHConfig {
    pub host: String,
    pub port: u16,
    pub username: String,
    pub root: String,
    pub password: Option<SSHPassword>,
    pub public_key: Option<SSHPublicKey>,
}

/// Password authentication for the SFTP store.
#[derive(Clone, Debug)]
pub struct SSHPassword {
    pub password: String,
}

/// Key-file authentication for the SFTP store.
#[derive(Clone, Debug)]
pub struct SSHPublicKey {
    pub public_key: Option<String>,
    pub private_key: String,
    pub pass_phrase: Option<String>,
}

/// Root of the local store.
#[derive(Clone, Debug)]
pub struct LocalConfig {
    pub root: String,
}

/// Everything the service is configured with.
#[derive(Clone, Debug)]
pub struct Config {
    pub file_system: WhichFileSystem,
    pub addr: String,
    pub backend_url: Option<String>,
    pub web_url: Option<String>,
    pub db: String,
    pub token: String,
    pub upload_limit: usize,
    pub storage_limit: usize,
    pub upload_timeout: u64,
    pub cookie_domain: Option<String>,
    pub ssh: Option<SSHConfig>,
    pub local: Option<LocalConfig>,
}

/// The description line of an SFTP store: user, masked password marker,
/// host, port and root.
pub open spec fn spec_ssh_about(ssh: &SSHConfig) -> Seq<char> {
    ssh.username@ + ":*****@"@ + ssh.host@ + ":"@ + spec_u64_digits(ssh.port as int) + " | "@
        + ssh.root@
}

/// The file-system report of the management surface: the selected store's
/// name and a description of where it points.
pub fn get_file_system(config: &Config) -> (r: FileSystemInfo)
    requires
        config.file_system == WhichFileSystem::Local ==> config.local is Some,
        config.file_system == WhichFileSystem::SSH ==> config.ssh is Some,
    ensures
        config.file_system == WhichFileSystem::Local ==> r.which@ == "Local"@ && r.about@
            == config.local.unwrap().root@,
        config.file_system == WhichFileSystem::SSH ==> r.which@ == "SSH"@ && r.about@
            == spec_ssh_about(&config.ssh.unwrap()),
{
    match config.file_system {
        WhichFileSystem::Local => {
            let local = match &config.local {
                Some(l) => l,
                None => {
                    proof {
                        assert(false);
                    }
                    return FileSystemInfo { which: String::new(), about: String::new() };
                },
            };
            FileSystemInfo { which: "Local".to_owned(), about: local.root.clone() }
        },
        WhichFileSystem::SSH => {
            let ssh = match &config.ssh {
                Some(s) => s,
                None => {
                    proof {
                        assert(false);
                    }
                    return FileSystemInfo { which: String::new(), about: String::new() };
                },
            };
            let mut about = ssh.username.clone();
            about.append(":*****@");
            about.append(ssh.host.as_str());
            about.append(":");
            let port = u64_to_string(ssh.port as u64);
            about.append(port.as_str());
            about.append(" | ");
            about.append(ssh.root.as_str());
            FileSystemInfo { which: "SSH".to_owned(), about }
        },
    }
}

} // verus!
