//! What the site is configured with.

use vstd::prelude::*;

verus! {

/// An internet address: the four bytes of a version 4 address, or the eight
/// segments of a version 6 address.
#[derive(Debug, Clone, Copy, PartialEq, Eq)]
pub enum IpAddress {
    V4([u8; 4]),
    V6([u16; 8]),
}

/// The address and port that the server listens on.
#[derive(Debug, Clone, Copy, PartialEq, Eq)]
pub struct ListenAddr {
    pub ip: IpAddress,
    pub port: u16,
}

/// The site's settings.
#[derive(Debug)]
pub struct Settings {
    /// The address under which the site is reached from outside.
    pub hostname: String,
    /// Where the server listens.
    pub addr: ListenAddr,
    /// The site's title.
    pub title: String,
}

/// The host name of a site that is given none.
pub open spec fn default_hostname_text() -> Seq<char> {
    "http://highlysuspect.agency"@
}

/// The title of a site that is given none.
pub open spec fn default_title_text() -> Seq<char> {
    "Highly Suspect Agency"@
}

/// The host name used where none is set.
pub fn default_hostname() -> (s: String)
    ensures
        s@ == default_hostname_text(),
{
    "http://highlysuspect.agency".to_owned()
}

/// The address used where none is set: port 80 of the local host.
pub fn default_addr() -> (a: ListenAddr)
    ensures
        a.port == 80,
        a.ip matches IpAddress::V4(o) && o@ == seq![127u8, 0u8, 0u8, 1u8],
{
    ListenAddr { ip: IpAddress::V4([127, 0, 0, 1]), port: 80 }
}

/// The title used where none is set.
pub fn default_title() -> (s: String)
    ensures
        s@ == default_title_text(),
{
    "Highly Suspect Agency".to_owned()
}

impl Settings {
    /// The settings made of what was set, with the default in place of each
    /// value that was not.
    pub fn from_parts(hostname: Option<String>, addr: Option<ListenAddr>, title: Option<String>) -> (s:
        Settings)
        ensures
            s.hostname@ == (match hostname {
                Some(h) => h@,
                None => default_hostname_text(),
            }),
            addr matches Some(a) ==> s.addr == a,
            addr is None ==> s.addr.port == 80 && (s.addr.ip matches IpAddress::V4(o) && o@
                == seq![127u8, 0u8, 0u8, 1u8]),
            s.title@ == (match title {
                Some(t) => t@,
                None => default_title_text(),
            }),
    {
        Settings {
            hostname: match hostname {
                Some(h) => h,
                None => default_hostname(),
            },
            addr: match addr {
                Some(a) => a,
                None => default_addr(),
            },
            title: match title {
                Some(t) => t,
                None => default_title(),
            },
        }
    }
}

} // verus!
