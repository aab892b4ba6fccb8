use bagua_net::config::{dpdk_section, get_numa_node_count, libtcp_config, net_section, ConfigError};
use bagua_net::interface::{InetAddr, IpAddr, NCCLSocketDev, SockAddr, SocketHandle};

fn device(addr: SockAddr) -> NCCLSocketDev {
    NCCLSocketDev {
        interface_name: "eth1".to_string(),
        addr,
        pci_path: "0000:17:00.0".to_string(),
    }
}

fn v4() -> SockAddr {
    SockAddr::Inet(InetAddr { ip: IpAddr::V4([10, 40, 1, 7]), port: 0 })
}

fn v6() -> SockAddr {
    SockAddr::Inet(InetAddr { ip: IpAddr::V6([0, 0, 0, 0, 0, 0, 0, 1]), port: 0 })
}

#[test]
fn the_configuration_for_one_numa_node() {
    assert_eq!(
        libtcp_config(&device(v4()), 1).unwrap(),
        "net { name = eth1; ip = 10.40.1.7; gw = 10.40.1.0; mask = 255.255.255.0; }\n\
         dpdk { pci = 0000:17:00.0; socket-mem = 8192; }\n\
         tcp { snd_queue_size = 2048; tso = 1; opt_seq = 1; usr_snd_mss = 8832; opt_sack = 1;  }\n\
         trace { enable = 0; }\n"
    );
}

#[test]
fn the_configuration_for_two_numa_nodes() {
    assert_eq!(
        libtcp_config(&device(v4()), 2).unwrap(),
        "net { name = eth1; ip = 10.40.1.7; gw = 10.40.1.0; mask = 255.255.255.0; }\n\
         dpdk { pci = 0000:17:00.0; socket-mem = 8192,8192; numa = 1; }\n\
         tcp { snd_queue_size = 2048; tso = 1; opt_seq = 1; usr_snd_mss = 8832; opt_sack = 1;  }\n\
         trace { enable = 0; }\n"
    );
}

#[test]
fn other_addresses_are_refused() {
    let other = SockAddr::Other("Link(..)".to_string());
    assert_eq!(libtcp_config(&device(v6()), 1), Err(ConfigError::InvalidSocketAddress));
    assert_eq!(libtcp_config(&device(other), 1), Err(ConfigError::InvalidSocketAddress));
    assert_eq!(libtcp_config(&device(v6()), 0), Err(ConfigError::InvalidSocketAddress));
    assert_eq!(net_section(&device(v6())), Err(ConfigError::InvalidSocketAddress));
    assert_eq!(ConfigError::InvalidSocketAddress.message(), "Invalid socket address");
}

#[test]
fn other_numbers_of_numa_nodes_are_refused() {
    for n in [0usize, 3, 4, usize::MAX] {
        assert_eq!(dpdk_section(&device(v4()), n), Err(ConfigError::InvalidNumaNodeCount));
        assert_eq!(dpdk_section(&device(v6()), n), Err(ConfigError::InvalidNumaNodeCount));
    }
    assert_eq!(ConfigError::InvalidNumaNodeCount.message(), "Invalid numa node count");
}

#[test]
fn numa_nodes_are_counted_by_name() {
    let names = ["node0", "possible", "node1", "has_cpu", "nod", "online"];
    let mut entries: Vec<Option<String>> = names.iter().map(|n| Some(n.to_string())).collect();
    entries.push(None);
    assert_eq!(get_numa_node_count(&Some(entries)), 2);
    assert_eq!(get_numa_node_count(&Some(vec![])), 0);
    assert_eq!(get_numa_node_count(&None), 0);
}

#[test]
fn an_endpoint_is_an_ipv4_address_with_its_port() {
    let handle = SocketHandle::new(IpAddr::V4([192, 168, 0, 9]), 41004);
    assert_eq!(handle.endpoint(), Some(("192.168.0.9".to_string(), 41004)));
    assert_eq!(SocketHandle { addr: v6() }.endpoint(), None);
    assert_eq!(SocketHandle { addr: SockAddr::Other("unix".to_string()) }.endpoint(), None);
    assert_eq!(v4().ipv4(), Some([10, 40, 1, 7]));
    assert_eq!(v6().ipv4(), None);
}
