//! What the plugin shares with its host: addresses, handles, devices and errors.

use vstd::prelude::*;
use crate::text::dotted_quad_text;

verus! {

pub type SocketListenCommID = usize;

pub type SocketSendCommID = usize;

pub type SocketRecvCommID = usize;

pub type SocketRequestID = usize;

/// An internet address: four octets, or eight groups of sixteen bits.
#[derive(Clone, Copy, Debug, PartialEq, Eq)]
pub enum IpAddr {
    V4([u8; 4]),
    V6([u16; 8]),
}

/// An internet address with a port.
#[derive(Clone, Copy, Debug, PartialEq, Eq)]
pub struct InetAddr {
    pub ip: IpAddr,
    pub port: u16,
}

/// A socket address. Of one that is no internet address only its description is
/// kept.
#[derive(Debug, PartialEq, Eq)]
pub enum SockAddr {
    Inet(InetAddr),
    Other(String),
}

impl SockAddr {
    /// The octets, if this is an IPv4 address.
    pub open spec fn spec_ipv4(self) -> Option<Seq<u8>> {
        match self {
            SockAddr::Inet(inet) => match inet.ip {
                IpAddr::V4(octets) => Some(octets@),
                IpAddr::V6(_) => None,
            },
            SockAddr::Other(_) => None,
        }
    }

    /// The octets, if this is an IPv4 address.
    pub fn ipv4(&self) -> (r: Option<[u8; 4]>)
        ensures
            match r {
                Some(octets) => self.spec_ipv4() == Some(octets@),
                None => self.spec_ipv4() is None,
            },
    {
        match self {
            SockAddr::Inet(inet) => match inet.ip {
                IpAddr::V4(octets) => Some(octets),
                IpAddr::V6(_) => None,
            },
            SockAddr::Other(_) => None,
        }
    }
}

/// Where a peer can be reached.
#[derive(Debug, PartialEq, Eq)]
pub struct SocketHandle {
    pub addr: SockAddr,
}

impl SocketHandle {
    /// The handle of an internet address with a port.
    pub open spec fn of(ip: IpAddr, port: u16) -> SocketHandle {
        SocketHandle { addr: SockAddr::Inet(InetAddr { ip, port }) }
    }

    /// The handle of an internet address with a port.
    pub fn new(ip: IpAddr, port: u16) -> (handle: SocketHandle)
        ensures
            handle == SocketHandle::of(ip, port),
    {
        SocketHandle { addr: SockAddr::Inet(InetAddr { ip, port }) }
    }

    /// The IPv4 address as text and the port, which is how a connection is asked
    /// for; nothing if there is no IPv4 address.
    pub fn endpoint(&self) -> (r: Option<(String, u16)>)
        ensures
            match r {
                Some((ip, port)) => {
                    &&& self.addr.spec_ipv4() is Some
                    &&& ip@ == crate::text::dotted_quad(self.addr.spec_ipv4()->0)
                    &&& self.addr matches SockAddr::Inet(inet)
                    &&& port == inet.port
                },
                None => self.addr.spec_ipv4() is None,
            },
    {
        match &self.addr {
            SockAddr::Inet(inet) => match inet.ip {
                IpAddr::V4(octets) => Some((dotted_quad_text(octets), inet.port)),
                IpAddr::V6(_) => None,
            },
            SockAddr::Other(_) => None,
        }
    }
}

/// A network device.
#[derive(Debug)]
pub struct NCCLSocketDev {
    pub interface_name: String,
    pub addr: SockAddr,
    pub pci_path: String,
}

/// What the host is told of a device.
#[derive(Debug)]
pub struct NCCLNetProperties {
    pub name: String,
    pub pci_path: String,
    pub guid: u64,
    pub ptr_support: i32,
    pub speed: i32,
    pub port: u16,
    pub max_comms: i32,
}

/// An error that the host is told of.
#[derive(Debug, PartialEq, Eq)]
pub enum BaguaNetError {
    InnerError(String),
}

impl Clone for BaguaNetError {
    fn clone(&self) -> (r: Self)
        ensures
            r == *self,
    {
        match self {
            BaguaNetError::InnerError(text) => BaguaNetError::InnerError(text.clone()),
        }
    }
}

/// A peer with an IPv4 address is asked for by the text of the address and by the
/// port, and one without cannot be asked for.
pub proof fn a_handle_leads_to_its_address(
    ip: IpAddr,
    port: u16,
    handle: SocketHandle,
    r: Option<(String, u16)>,
)
    requires
        call_ensures(SocketHandle::new, (ip, port), handle),
        call_ensures(SocketHandle::endpoint, (&handle,), r),
    ensures
        ip is V6 ==> r is None,
        ip matches IpAddr::V4(octets) ==> {
            &&& r matches Some((text, p))
            &&& p == port
            &&& forall|usual: String|
                call_ensures(dotted_quad_text, (octets,), usual) ==> #[trigger] usual@ == text@
        },
{
}

/// The octets of a socket address are those of its IPv4 address; others have none.
pub proof fn only_an_ipv4_address_has_octets(addr: &SockAddr, r: Option<[u8; 4]>)
    requires
        call_ensures(SockAddr::ipv4, (addr,), r),
    ensures
        match *addr {
            SockAddr::Inet(inet) => match inet.ip {
                IpAddr::V4(octets) => r is Some && r->0@ == octets@,
                IpAddr::V6(_) => r is None,
            },
            SockAddr::Other(_) => r is None,
        },
{
}

/// An error that is copied says the same.
pub proof fn a_copied_error_says_the_same(e: &BaguaNetError, r: BaguaNetError)
    requires
        call_ensures(BaguaNetError::clone, (e,), r),
    ensures
        r == *e,
{
}

} // verus!
