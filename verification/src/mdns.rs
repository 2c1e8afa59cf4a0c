//! Finding the daemon on the network: the names under which it registers, and what a
//! client makes of what it hears.

use crate::text::concat2;
use crate::text::concat3;
use crate::text::decimal;
use crate::text::decimal_of;
use vstd::prelude::*;
use vstd::string::StringExecFns;

verus! {

/// The type under which the daemon registers.
pub fn service_type() -> (r: &'static str)
    ensures
        r@ == "_fvfs._tcp.local."@,
{
    "_fvfs._tcp.local."
}

/// How many seconds a client listens.
pub const DISCOVER_TIMEOUT_SECS: u64 = 10;

/// The host name that is used: the machine's, or the daemon's own name where the machine
/// has none that is text.
pub fn host_or_default(found: Option<String>) -> (r: String)
    ensures
        r@ == (match found {
            Some(h) => h@,
            None => "fvfsd"@,
        }),
{
    match found {
        Some(h) => h,
        None => "fvfsd".to_owned(),
    }
}

/// The name of the daemon's instance on a host.
pub fn instance_name(host: &str) -> (r: String)
    ensures
        r@ == "fvfsd-"@ + host@,
{
    concat2("fvfsd-", host)
}

/// The name of a host on the local network.
pub fn local_host_name(host: &str) -> (r: String)
    ensures
        r@ == host@ + ".local."@,
{
    concat2(host, ".local.")
}

/// The address of a daemon.
pub open spec fn daemon_url(host: Seq<char>, port: u16) -> Seq<char> {
    "http://"@ + host + ":"@ + decimal(port as nat)
}

/// The address of a daemon.
pub fn url_of(host: &str, port: u16) -> (r: String)
    ensures
        r@ == daemon_url(host@, port),
{
    let mut r = concat3("http://", host, ":");
    let digits = decimal_of(port as u64);
    r.append(digits.as_str());
    r
}

/// What a client hears while it listens.
#[derive(Debug, PartialEq, Eq)]
pub enum Heard {
    /// A daemon at these addresses, in the order in which they are told, and this port.
    Resolved { addresses: Vec<String>, port: u16 },
    /// A daemon is gone.
    Removed,
    /// Anything else.
    Other,
    /// The connection over which it listens is lost.
    Lost,
    /// Browsing cannot be started.
    Failed,
}

/// What a client does with what it hears.
#[derive(Debug, PartialEq, Eq)]
pub enum Discovery {
    /// It goes on listening.
    Listen,
    /// It has found a daemon at this address.
    Found(String),
    /// It browses again, and listens to that.
    Browse,
    /// It gives up.
    GiveUp,
}

/// What a client does with what it hears: the first daemon with an address is taken, at
/// its first address, and a lost connection is taken up again.
pub fn discover_step(heard: &Heard) -> (r: Discovery)
    ensures
        match heard {
            Heard::Resolved { addresses, port } => if addresses@.len() > 0 {
                r matches Discovery::Found(url) && url@ == daemon_url(addresses@[0]@, *port)
            } else {
                r == Discovery::Listen
            },
            Heard::Lost => r == Discovery::Browse,
            Heard::Failed => r == Discovery::GiveUp,
            _ => r == Discovery::Listen,
        },
{
    match heard {
        Heard::Resolved { addresses, port } => {
            if addresses.len() > 0 {
                Discovery::Found(url_of(addresses[0].as_str(), *port))
            } else {
                Discovery::Listen
            }
        },
        Heard::Lost => Discovery::Browse,
        Heard::Failed => Discovery::GiveUp,
        _ => Discovery::Listen,
    }
}

/// The address that a client uses: the one it was given, else the one it discovered,
/// else that of a daemon on the same machine.
pub fn choose_url(given: Option<String>, discovered: Option<String>, port: u16) -> (r: String)
    ensures
        r@ == (match given {
            Some(u) => u@,
            None => match discovered {
                Some(u) => u@,
                None => daemon_url("localhost"@, port),
            },
        }),
{
    match given {
        Some(u) => u,
        None => match discovered {
            Some(u) => u,
            None => url_of("localhost", port),
        },
    }
}

} // verus!
