use bagua_net::env::{EnvError, EnvVars, NetConfig};

fn unset() -> EnvVars {
    EnvVars {
        rank: None,
        world_size: None,
        start_listen_port: None,
        storage_server_ip: None,
        num_storage: None,
        nccl_max_nchannels: None,
    }
}

fn set(s: &str) -> Option<String> {
    Some(s.to_string())
}

#[test]
fn variables_that_are_not_set_have_defaults() {
    let config = NetConfig::from_env(&unset()).unwrap();
    assert_eq!(config.rank, -1);
    assert_eq!(config.nranks, -1);
    assert_eq!(config.start_listen_port, 41000);
    assert_eq!(config.storage_ip, [10, 40, 1, 104]);
    assert_eq!(config.num_storage, 1);
    assert_eq!(config.nccl_nchannels, 4);
}

#[test]
fn variables_that_are_set_count() {
    let vars = EnvVars {
        rank: set("3"),
        world_size: set("8"),
        start_listen_port: set("50000"),
        storage_server_ip: set("1.2.3.4"),
        num_storage: set("8"),
        nccl_max_nchannels: set("16"),
    };
    let config = NetConfig::from_env(&vars).unwrap();
    assert_eq!(config.rank, 3);
    assert_eq!(config.nranks, 8);
    assert_eq!(config.start_listen_port, 50000);
    assert_eq!(config.storage_ip, [1, 2, 3, 4]);
    assert_eq!(config.num_storage, 8);
    assert_eq!(config.nccl_nchannels, 16);
}

#[test]
fn each_variable_can_be_wrong() {
    let cases = [
        (EnvVars { rank: set("x"), ..unset() }, EnvError::Rank),
        (EnvVars { world_size: set(""), ..unset() }, EnvError::WorldSize),
        (EnvVars { start_listen_port: set("65536"), ..unset() }, EnvError::StartListenPort),
        (EnvVars { storage_server_ip: set("1.2.3"), ..unset() }, EnvError::StorageServerIp),
        (EnvVars { num_storage: set("-1"), ..unset() }, EnvError::NumStorage),
        (EnvVars { num_storage: set("9"), ..unset() }, EnvError::TooManyStorage),
        (EnvVars { nccl_max_nchannels: set("four"), ..unset() }, EnvError::NcclMaxNchannels),
        (EnvVars { nccl_max_nchannels: set("17"), ..unset() }, EnvError::TooFewWorkers),
        (EnvVars { nccl_max_nchannels: set("2000000000"), ..unset() }, EnvError::TooFewWorkers),
        (EnvVars { nccl_max_nchannels: set("-2000000000"), ..unset() }, EnvError::TooFewWorkers),
    ];
    for (vars, expected) in cases {
        assert_eq!(NetConfig::from_env(&vars).err(), Some(expected));
    }
}

#[test]
fn the_first_fault_is_told() {
    let vars = EnvVars { rank: set("?"), num_storage: set("99"), ..unset() };
    assert_eq!(NetConfig::from_env(&vars).err(), Some(EnvError::Rank));
}

#[test]
fn no_storage_server_at_all_is_accepted() {
    let vars = EnvVars { num_storage: set("0"), ..unset() };
    assert_eq!(NetConfig::from_env(&vars).unwrap().num_storage, 0);
}
