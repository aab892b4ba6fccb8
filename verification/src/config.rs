//! The configuration file of the TCP stack.

use vstd::prelude::*;
use crate::interface::NCCLSocketDev;
use crate::text::{dotted_quad_text, starts_with};

verus! {

/// Why no configuration can be written.
#[derive(Clone, Copy, Debug, PartialEq, Eq, Structural)]
pub enum ConfigError {
    InvalidSocketAddress,
    InvalidNumaNodeCount,
}

impl ConfigError {
    /// What the error says.
    pub open spec fn text(self) -> Seq<char> {
        match self {
            ConfigError::InvalidSocketAddress => "Invalid socket address"@,
            ConfigError::InvalidNumaNodeCount => "Invalid numa node count"@,
        }
    }

    /// What the error says.
    pub fn message(&self) -> (text: &'static str)
        ensures
            text@ == self.text(),
    {
        match self {
            ConfigError::InvalidSocketAddress => "Invalid socket address",
            ConfigError::InvalidNumaNodeCount => "Invalid numa node count",
        }
    }
}

/// Whether a directory entry is a NUMA node. An entry whose name could not be
/// read is none.
pub open spec fn is_numa_node(entry: Option<String>) -> bool {
    match entry {
        Some(name) => crate::text::has_prefix(name@, "node"@),
        None => false,
    }
}

/// The number of NUMA nodes among the entries of the directory that lists them,
/// none if it could not be listed.
pub fn get_numa_node_count(entries: &Option<Vec<Option<String>>>) -> (count: usize)
    ensures
        count == match entries {
            Some(names) => names@.filter(|e: Option<String>| is_numa_node(e)).len(),
            None => 0,
        },
{
    let names = match entries {
        Some(names) => names,
        None => return 0,
    };
    let ghost test = |e: Option<String>| is_numa_node(e);
    let mut count: usize = 0;
    let mut i: usize = 0;
    assert(names@.take(0).filter(test) =~= Seq::empty()) by {
        reveal(Seq::filter);
    }
    while i < names.len()
        invariant
            i <= names@.len(),
            count <= i,
            test == (|e: Option<String>| is_numa_node(e)),
            count == names@.take(i as int).filter(test).len(),
        decreases names@.len() - i,
    {
        let ghost e = names@[i as int];
        assert(names@.take(i + 1).drop_last() =~= names@.take(i as int));
        assert(names@.take(i + 1).last() == e);
        assert(names@.take(i + 1).filter(test).len() == count + if test(e) {
            1int
        } else {
            0
        }) by {
            reveal(Seq::filter);
        }
        match &names[i] {
            Some(name) => {
                if starts_with(name.as_str(), "node") {
                    count = count + 1;
                }
            },
            None => {},
        }
        i = i + 1;
    }
    assert(names@.take(names@.len() as int) =~= names@);
    count
}

/// The network of an address with a mask of 24 bits: its last octet cleared.
pub open spec fn network_of(octets: Seq<u8>) -> Seq<u8> {
    octets.update(3, 0)
}

/// The section on the interface.
pub open spec fn net_section_text(name: Seq<char>, octets: Seq<u8>) -> Seq<char> {
    "net { "@ + "name = "@ + name + "; "@ + "ip = "@ + crate::text::dotted_quad(octets) + "; "@
        + "gw = "@ + crate::text::dotted_quad(network_of(octets)) + "; "@
        + "mask = 255.255.255.0; }\n"@
}

/// The section on the device, which depends on the number of NUMA nodes.
pub open spec fn dpdk_section_text(pci_path: Seq<char>, numa_node_count: nat) -> Seq<char> {
    if numa_node_count == 1 {
        "dpdk { pci = "@ + pci_path + "; socket-mem = 8192; }\n"@
    } else {
        "dpdk { pci = "@ + pci_path + "; socket-mem = 8192,8192; numa = 1; }\n"@
    }
}

/// The sections that are always the same.
pub open spec fn fixed_sections_text() -> Seq<char> {
    "tcp { snd_queue_size = 2048; tso = 1; opt_seq = 1; usr_snd_mss = 8832; opt_sack = 1;  }\n"@
        + "trace { enable = 0; }\n"@
}

/// The section on the interface, for a device that has an IPv4 address.
pub fn net_section(device: &NCCLSocketDev) -> (r: Result<String, ConfigError>)
    ensures
        match r {
            Ok(text) => device.addr.spec_ipv4() is Some && text@ == net_section_text(
                device.interface_name@,
                device.addr.spec_ipv4()->0,
            ),
            Err(e) => device.addr.spec_ipv4() is None && e == ConfigError::InvalidSocketAddress,
        },
{
    let octets: [u8; 4] = match device.addr.ipv4() {
        Some(octets) => octets,
        None => return Err(ConfigError::InvalidSocketAddress),
    };
    let gw: [u8; 4] = [octets[0], octets[1], octets[2], 0];
    assert(gw@ =~= network_of(octets@));
    let text = String::from_str("net { ").concat("name = ").concat(
        device.interface_name.as_str(),
    ).concat("; ").concat("ip = ").concat(dotted_quad_text(octets).as_str()).concat("; ").concat(
        "gw = ",
    ).concat(dotted_quad_text(gw).as_str()).concat("; ").concat("mask = 255.255.255.0; }\n");
    Ok(text)
}

/// The section on the device, for one or two NUMA nodes.
pub fn dpdk_section(device: &NCCLSocketDev, numa_node_count: usize) -> (r: Result<
    String,
    ConfigError,
>)
    ensures
        match r {
            Ok(text) => (numa_node_count == 1 || numa_node_count == 2) && text@
                == dpdk_section_text(device.pci_path@, numa_node_count as nat),
            Err(e) => numa_node_count != 1 && numa_node_count != 2 && e
                == ConfigError::InvalidNumaNodeCount,
        },
{
    if numa_node_count == 1 {
        Ok(
            String::from_str("dpdk { pci = ").concat(device.pci_path.as_str()).concat(
                "; socket-mem = 8192; }\n",
            ),
        )
    } else if numa_node_count == 2 {
        Ok(
            String::from_str("dpdk { pci = ").concat(device.pci_path.as_str()).concat(
                "; socket-mem = 8192,8192; numa = 1; }\n",
            ),
        )
    } else {
        Err(ConfigError::InvalidNumaNodeCount)
    }
}

/// The configuration of a device on a machine with one NUMA node or two. The
/// device needs an IPv4 address.
pub fn libtcp_config(device: &NCCLSocketDev, numa_node_count: usize) -> (r: Result<
    String,
    ConfigError,
>)
    requires
        device.addr.spec_ipv4() is Some ==> numa_node_count == 1 || numa_node_count == 2,
    ensures
        match r {
            Ok(text) => {
                &&& device.addr.spec_ipv4() is Some
                &&& text@ == net_section_text(device.interface_name@, device.addr.spec_ipv4()->0)
                    + dpdk_section_text(device.pci_path@, numa_node_count as nat)
                    + fixed_sections_text()
            },
            Err(e) => device.addr.spec_ipv4() is None && e == ConfigError::InvalidSocketAddress,
        },
{
    let net = match net_section(device) {
        Ok(text) => text,
        Err(e) => return Err(e),
    };
    let dpdk = match dpdk_section(device, numa_node_count) {
        Ok(text) => text,
        Err(e) => return Err(e),
    };
    let fixed = String::from_str(
        "tcp { snd_queue_size = 2048; tso = 1; opt_seq = 1; usr_snd_mss = 8832; opt_sack = 1;  }\n",
    ).concat("trace { enable = 0; }\n");
    Ok(net.concat(dpdk.as_str()).concat(fixed.as_str()))
}

/// The section on a device names the device: behind `dpdk { pci = ` stands its PCI
/// path, and behind that what the number of NUMA nodes takes. There is one for one
/// node and for two.
pub proof fn a_dpdk_section_names_its_device(
    device: &NCCLSocketDev,
    numa_node_count: usize,
    r: Result<String, ConfigError>,
)
    requires
        call_ensures(dpdk_section, (device, numa_node_count), r),
    ensures
        r is Ok <==> numa_node_count == 1 || numa_node_count == 2,
        r is Err ==> r->Err_0 == ConfigError::InvalidNumaNodeCount,
        r matches Ok(text) ==> {
            let path = device.pci_path@;
            &&& text@.len() >= 13 + path.len()
            &&& text@.take(13) == "dpdk { pci = "@
            &&& text@.subrange(13, 13 + path.len() as int) == path
            &&& numa_node_count == 1 ==> text@.skip(13 + path.len() as int)
                == "; socket-mem = 8192; }\n"@
            &&& numa_node_count == 2 ==> text@.skip(13 + path.len() as int)
                == "; socket-mem = 8192,8192; numa = 1; }\n"@
        },
{
    reveal_strlit("dpdk { pci = ");
    if let Ok(text) = r {
        let path = device.pci_path@;
        assert("dpdk { pci = "@.len() == 13);
        assert(text@.take(13) =~= "dpdk { pci = "@);
        assert(text@.subrange(13, 13 + path.len() as int) =~= path);
        if numa_node_count == 1 {
            assert(text@.skip(13 + path.len() as int) =~= "; socket-mem = 8192; }\n"@);
        } else {
            assert(text@.skip(13 + path.len() as int)
                =~= "; socket-mem = 8192,8192; numa = 1; }\n"@);
        }
    }
}

/// Two devices have the same section only if they have the same PCI path.
pub proof fn different_devices_have_different_dpdk_sections(
    a: &NCCLSocketDev,
    b: &NCCLSocketDev,
    numa_node_count: usize,
    ra: String,
    rb: String,
)
    requires
        call_ensures(dpdk_section, (a, numa_node_count), Ok::<String, ConfigError>(ra)),
        call_ensures(dpdk_section, (b, numa_node_count), Ok::<String, ConfigError>(rb)),
    ensures
        ra@ == rb@ <==> a.pci_path@ == b.pci_path@,
{
    a_dpdk_section_names_its_device(a, numa_node_count, Ok(ra));
    a_dpdk_section_names_its_device(b, numa_node_count, Ok(rb));
    if ra@ == rb@ {
        let p = a.pci_path@;
        let q = b.pci_path@;
        assert(ra@.skip(13 + p.len() as int).len() == ra@.len() - 13 - p.len());
        assert(rb@.skip(13 + q.len() as int).len() == rb@.len() - 13 - q.len());
        assert(p.len() == q.len());
    }
}

/// The section on an interface says its name, its address and, as the gateway, the
/// address with zero for its last octet. There is one exactly if the address is an
/// IPv4 address.
pub proof fn a_net_section_says_name_and_address(
    device: &NCCLSocketDev,
    r: Result<String, ConfigError>,
    octets: Option<[u8; 4]>,
    network: [u8; 4],
    ip: String,
    gw: String,
)
    requires
        call_ensures(net_section, (device,), r),
        call_ensures(crate::interface::SockAddr::ipv4, (&device.addr,), octets),
        octets is Some ==> {
            &&& network@[0] == octets->0@[0]
            &&& network@[1] == octets->0@[1]
            &&& network@[2] == octets->0@[2]
            &&& network@[3] == 0
            &&& call_ensures(dotted_quad_text, (octets->0,), ip)
            &&& call_ensures(dotted_quad_text, (network,), gw)
        },
    ensures
        r is Ok <==> octets is Some,
        r is Err ==> r->Err_0 == ConfigError::InvalidSocketAddress,
        r matches Ok(text) ==> text@ == "net { name = "@ + device.interface_name@ + "; ip = "@
            + ip@ + "; gw = "@ + gw@ + "; mask = 255.255.255.0; }\n"@,
{
    reveal_strlit("net { ");
    reveal_strlit("name = ");
    reveal_strlit("net { name = ");
    reveal_strlit("; ");
    reveal_strlit("ip = ");
    reveal_strlit("; ip = ");
    reveal_strlit("gw = ");
    reveal_strlit("; gw = ");
    reveal_strlit("mask = 255.255.255.0; }\n");
    reveal_strlit("; mask = 255.255.255.0; }\n");
    if let Ok(text) = r {
        assert(network@ =~= network_of(octets->0@));
        assert("net { "@ + "name = "@ =~= "net { name = "@);
        assert("; "@ + "ip = "@ =~= "; ip = "@);
        assert("; "@ + "gw = "@ =~= "; gw = "@);
        assert("; "@ + "mask = 255.255.255.0; }\n"@ =~= "; mask = 255.255.255.0; }\n"@);
        assert(text@ =~= "net { name = "@ + device.interface_name@ + "; ip = "@ + ip@ + "; gw = "@
            + gw@ + "; mask = 255.255.255.0; }\n"@);
    }
}

/// Two devices with one address have the same section on the interface only if they
/// have the same name.
pub proof fn different_names_have_different_net_sections(
    a: &NCCLSocketDev,
    b: &NCCLSocketDev,
    octets: [u8; 4],
    ra: String,
    rb: String,
)
    requires
        call_ensures(net_section, (a,), Ok::<String, ConfigError>(ra)),
        call_ensures(net_section, (b,), Ok::<String, ConfigError>(rb)),
        call_ensures(crate::interface::SockAddr::ipv4, (&a.addr,), Some(octets)),
        call_ensures(crate::interface::SockAddr::ipv4, (&b.addr,), Some(octets)),
        ra@ == rb@,
    ensures
        a.interface_name@ == b.interface_name@,
{
    let head = "net { "@ + "name = "@;
    let tail = "; "@ + "ip = "@ + crate::text::dotted_quad(octets@) + "; "@ + "gw = "@
        + crate::text::dotted_quad(network_of(octets@)) + "; "@ + "mask = 255.255.255.0; }\n"@;
    let na = a.interface_name@;
    let nb = b.interface_name@;
    assert(ra@ =~= head + na + tail);
    assert(rb@ =~= head + nb + tail);
    lemma_middle(head, na, tail);
    lemma_middle(head, nb, tail);
}

proof fn lemma_middle(head: Seq<char>, middle: Seq<char>, tail: Seq<char>)
    ensures
        ({
            let s = head + middle + tail;
            s.subrange(head.len() as int, s.len() - tail.len()) == middle
        }),
{
    let s = head + middle + tail;
    assert(s.subrange(head.len() as int, s.len() - tail.len()) =~= middle);
}

/// Texts that go on with the same sign, which neither holds, are the same if they
/// go on the same way.
proof fn lemma_same_front(a: Seq<char>, b: Seq<char>, x: Seq<char>, y: Seq<char>, c: char)
    requires
        x.len() > 0,
        y.len() > 0,
        x[0] == c,
        y[0] == c,
        forall|i: int| 0 <= i < a.len() ==> #[trigger] a[i] != c,
        forall|i: int| 0 <= i < b.len() ==> #[trigger] b[i] != c,
        a + x == b + y,
    ensures
        a == b,
{
    let s = a + x;
    assert(s[a.len() as int] == c);
    assert(s[b.len() as int] == (b + y)[b.len() as int]);
    if a.len() < b.len() {
        assert(s[a.len() as int] == b[a.len() as int]);
    } else if b.len() < a.len() {
        assert(s[b.len() as int] == a[b.len() as int]);
    }
    assert(a =~= s.take(a.len() as int));
    assert(b =~= s.take(b.len() as int));
}

/// A text in parts, as its front, a part, and the rest, which begins with the sign
/// between the parts.
proof fn lemma_regroup(
    front: Seq<char>,
    part: Seq<char>,
    between: Seq<char>,
    b: Seq<char>,
    c: Seq<char>,
    d: Seq<char>,
) -> (rest: Seq<char>)
    ensures
        (front + part + between + b + c + between + d).skip(front.len() as int) == part + rest,
        between.len() > 0 ==> rest.len() > 0 && rest[0] == between[0],
{
    let rest = between + (b + c + between + d);
    assert((front + part + between + b + c + between + d).skip(front.len() as int) =~= part + rest);
    rest
}

/// Two devices of one name have the same section on the interface only if they have
/// the same address.
pub proof fn different_addresses_have_different_net_sections(
    a: &NCCLSocketDev,
    b: &NCCLSocketDev,
    oa: [u8; 4],
    ob: [u8; 4],
    ra: String,
    rb: String,
)
    requires
        call_ensures(net_section, (a,), Ok::<String, ConfigError>(ra)),
        call_ensures(net_section, (b,), Ok::<String, ConfigError>(rb)),
        call_ensures(crate::interface::SockAddr::ipv4, (&a.addr,), Some(oa)),
        call_ensures(crate::interface::SockAddr::ipv4, (&b.addr,), Some(ob)),
        a.interface_name@ == b.interface_name@,
        ra@ == rb@,
    ensures
        oa@ == ob@,
{
    let front = "net { "@ + "name = "@ + a.interface_name@ + "; "@ + "ip = "@;
    let qa = crate::text::dotted_quad(oa@);
    let qb = crate::text::dotted_quad(ob@);
    let ga = crate::text::dotted_quad(network_of(oa@));
    let gb = crate::text::dotted_quad(network_of(ob@));
    let x = lemma_regroup(front, qa, "; "@, "gw = "@, ga, "mask = 255.255.255.0; }\n"@);
    let y = lemma_regroup(front, qb, "; "@, "gw = "@, gb, "mask = 255.255.255.0; }\n"@);
    assert("; "@.len() == 2 && "; "@[0] == ';') by {
        reveal_strlit("; ");
    }
    crate::text::lemma_quad_has_no(oa@, ';');
    crate::text::lemma_quad_has_no(ob@, ';');
    lemma_same_front(qa, qb, x, y, ';');
    crate::text::dotted_quad_is_injective(oa@, ob@);
}

/// The configuration of a device is its section on the interface, then its section
/// on the device, and then what is the same for every device.
pub proof fn a_configuration_is_made_of_its_sections(
    device: &NCCLSocketDev,
    numa_node_count: usize,
    r: Result<String, ConfigError>,
    net: Result<String, ConfigError>,
    dpdk: String,
)
    requires
        call_ensures(libtcp_config, (device, numa_node_count), r),
        call_ensures(net_section, (device,), net),
        call_ensures(dpdk_section, (device, numa_node_count), Ok::<String, ConfigError>(dpdk)),
    ensures
        r is Ok <==> net is Ok,
        r is Err ==> r == net,
        r matches Ok(text) ==> text@ == net->Ok_0@ + dpdk@
            + "tcp { snd_queue_size = 2048; tso = 1; opt_seq = 1; usr_snd_mss = 8832; opt_sack = 1;  }\n"@
            + "trace { enable = 0; }\n"@,
{
    if let Ok(text) = r {
        assert(text@ =~= net->Ok_0@ + dpdk@
            + "tcp { snd_queue_size = 2048; tso = 1; opt_seq = 1; usr_snd_mss = 8832; opt_sack = 1;  }\n"@
            + "trace { enable = 0; }\n"@);
    }
}

/// One more entry of the directory counts as a node exactly if its name could be
/// read and is `node` with anything behind it. Without entries there is none.
pub proof fn each_entry_named_node_counts(
    before: &Option<Vec<Option<String>>>,
    after: &Option<Vec<Option<String>>>,
    entry: Option<String>,
    count: usize,
    more: usize,
)
    requires
        call_ensures(get_numa_node_count, (before,), count),
        call_ensures(get_numa_node_count, (after,), more),
    ensures
        before is None ==> count == 0,
        before is Some && before->0@.len() == 0 ==> count == 0,
        before is Some && after is Some && after->0@ == before->0@.push(entry) ==> more == count
            + if entry is Some && entry->0@.len() >= 4 && entry->0@[0] == 'n' && entry->0@[1] == 'o'
            && entry->0@[2] == 'd' && entry->0@[3] == 'e' {
            1int
        } else {
            0
        },
{
    let test = |e: Option<String>| is_numa_node(e);
    reveal(Seq::filter);
    if before is Some && after is Some && after->0@ == before->0@.push(entry) {
        assert(after->0@.drop_last() =~= before->0@);
        assert(after->0@.last() == entry);
        assert(after->0@.filter(test).len() == before->0@.filter(test).len() + if test(entry) {
            1int
        } else {
            0
        });
        if let Some(name) = entry {
            reveal_strlit("node");
            let s = name@;
            if s.len() >= 4 && s[0] == 'n' && s[1] == 'o' && s[2] == 'd' && s[3] == 'e' {
                assert(s.take(4) =~= "node"@);
            }
            if crate::text::has_prefix(s, "node"@) {
                assert(s.take(4)[0] == 'n' && s.take(4)[1] == 'o' && s.take(4)[2] == 'd'
                    && s.take(4)[3] == 'e');
            }
        }
    }
}

/// A configuration can be asked for with one NUMA node or two, and for a device
/// without an IPv4 address, which has none, with any number.
pub proof fn when_a_configuration_can_be_asked_for(
    device: &NCCLSocketDev,
    numa_node_count: usize,
    octets: Option<[u8; 4]>,
)
    requires
        call_ensures(crate::interface::SockAddr::ipv4, (&device.addr,), octets),
        octets is None || numa_node_count == 1 || numa_node_count == 2,
    ensures
        call_requires(libtcp_config, (device, numa_node_count)),
{
}

} // verus!
