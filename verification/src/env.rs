//! The settings that the plugin takes from its environment.

use vstd::prelude::*;
use crate::text::{parse_i32, parse_ipv4, parse_u16, parse_u8};

verus! {

/// The number of workers of the TCP stack.
pub const NR_WORKERS: i32 = 32;

/// The most storage servers that can be told apart.
pub const MAX_STORAGE: u8 = 8;

/// The values of the variables that matter, where they are set.
#[derive(Debug)]
pub struct EnvVars {
    /// `RANK`
    pub rank: Option<String>,
    /// `WORLD_SIZE`
    pub world_size: Option<String>,
    /// `START_LISTEN_PORT`
    pub start_listen_port: Option<String>,
    /// `STORAGE_SERVER_IP`
    pub storage_server_ip: Option<String>,
    /// `NUM_STORAGE`
    pub num_storage: Option<String>,
    /// `NCCL_MAX_NCHANNELS`
    pub nccl_max_nchannels: Option<String>,
}

/// Why the settings cannot be used.
#[derive(Clone, Copy, Debug, PartialEq, Eq, Structural)]
pub enum EnvError {
    Rank,
    WorldSize,
    StartListenPort,
    StorageServerIp,
    NumStorage,
    /// There are more storage servers than can be told apart.
    TooManyStorage,
    NcclMaxNchannels,
    /// There are not two workers for each channel, or twice the number of
    /// channels is no `i32`.
    TooFewWorkers,
}

/// The settings.
#[derive(Clone, Copy, Debug)]
pub struct NetConfig {
    pub rank: i32,
    pub nranks: i32,
    pub start_listen_port: u16,
    pub storage_ip: [u8; 4],
    pub num_storage: u8,
    pub nccl_nchannels: i32,
}

/// The value of a variable, or what stands for it where it is not set.
pub open spec fn value_or(value: Option<String>, default: Seq<char>) -> Seq<char> {
    match value {
        Some(text) => text@,
        None => default,
    }
}

/// Whether `s` is an IPv4 address.
pub open spec fn is_ipv4(s: Seq<char>) -> bool {
    exists|q: Seq<u8>| q.len() == 4 && s == #[trigger] crate::text::dotted_quad(q)
}

impl EnvVars {
    pub open spec fn rank_value(self) -> Option<int> {
        crate::text::signed_value(value_or(self.rank, "-1"@))
    }

    pub open spec fn nranks_value(self) -> Option<int> {
        crate::text::signed_value(value_or(self.world_size, "-1"@))
    }

    pub open spec fn port_value(self) -> Option<nat> {
        crate::text::unsigned_value(value_or(self.start_listen_port, "41000"@), u16::MAX as nat)
    }

    pub open spec fn ip_text(self) -> Seq<char> {
        value_or(self.storage_server_ip, "10.40.1.104"@)
    }

    pub open spec fn num_storage_value(self) -> Option<nat> {
        crate::text::unsigned_value(value_or(self.num_storage, "1"@), u8::MAX as nat)
    }

    pub open spec fn nchannels_value(self) -> Option<int> {
        crate::text::signed_value(value_or(self.nccl_max_nchannels, "4"@))
    }

    /// The first thing that is wrong with the settings.
    pub open spec fn first_fault(self) -> Option<EnvError> {
        if self.rank_value() is None {
            Some(EnvError::Rank)
        } else if self.nranks_value() is None {
            Some(EnvError::WorldSize)
        } else if self.port_value() is None {
            Some(EnvError::StartListenPort)
        } else if !is_ipv4(self.ip_text()) {
            Some(EnvError::StorageServerIp)
        } else if self.num_storage_value() is None {
            Some(EnvError::NumStorage)
        } else if self.num_storage_value()->0 > MAX_STORAGE {
            Some(EnvError::TooManyStorage)
        } else if self.nchannels_value() is None {
            Some(EnvError::NcclMaxNchannels)
        } else if !(i32::MIN <= 2 * self.nchannels_value()->0 <= NR_WORKERS) {
            Some(EnvError::TooFewWorkers)
        } else {
            None
        }
    }

    /// Whether the settings say what `config` holds.
    pub open spec fn mean(self, config: NetConfig) -> bool {
        &&& self.rank_value() == Some(config.rank as int)
        &&& self.nranks_value() == Some(config.nranks as int)
        &&& self.port_value() == Some(config.start_listen_port as nat)
        &&& self.ip_text() == crate::text::dotted_quad(config.storage_ip@)
        &&& self.num_storage_value() == Some(config.num_storage as nat)
        &&& self.nchannels_value() == Some(config.nccl_nchannels as int)
    }
}

/// A string to read: the value of a variable, or its default.
fn text_or<'a>(value: &'a Option<String>, default: &'a str) -> (text: &'a str)
    ensures
        text@ == value_or(*value, default@),
{
    match value {
        Some(text) => text.as_str(),
        None => default,
    }
}

impl NetConfig {
    /// What `from_env` makes sure of.
    pub open spec fn valid(self) -> bool {
        &&& self.num_storage <= MAX_STORAGE
        &&& i32::MIN <= 2 * self.nccl_nchannels <= NR_WORKERS
    }

    /// Reads the settings. Variables that are not set have defaults.
    pub fn from_env(vars: &EnvVars) -> (r: Result<NetConfig, EnvError>)
        ensures
            match r {
                Ok(config) => vars.first_fault() is None && vars.mean(config) && config.valid(),
                Err(e) => vars.first_fault() == Some(e),
            },
    {
        let rank: i32 = match parse_i32(text_or(&vars.rank, "-1")) {
            Some(v) => v,
            None => return Err(EnvError::Rank),
        };
        let nranks: i32 = match parse_i32(text_or(&vars.world_size, "-1")) {
            Some(v) => v,
            None => return Err(EnvError::WorldSize),
        };
        let start_listen_port: u16 = match parse_u16(text_or(&vars.start_listen_port, "41000")) {
            Some(v) => v,
            None => return Err(EnvError::StartListenPort),
        };
        let storage_ip: [u8; 4] = match parse_ipv4(text_or(&vars.storage_server_ip, "10.40.1.104")) {
            Some(v) => v,
            None => return Err(EnvError::StorageServerIp),
        };
        assert(storage_ip@.len() == 4);
        let num_storage: u8 = match parse_u8(text_or(&vars.num_storage, "1")) {
            Some(v) => v,
            None => return Err(EnvError::NumStorage),
        };
        if num_storage > MAX_STORAGE {
            return Err(EnvError::TooManyStorage);
        }
        let nccl_nchannels: i32 = match parse_i32(text_or(&vars.nccl_max_nchannels, "4")) {
            Some(v) => v,
            None => return Err(EnvError::NcclMaxNchannels),
        };
        let workers_needed: i64 = 2 * (nccl_nchannels as i64);
        if workers_needed < i32::MIN as i64 || workers_needed > NR_WORKERS as i64 {
            return Err(EnvError::TooFewWorkers);
        }
        Ok(
            NetConfig {
                rank,
                nranks,
                start_listen_port,
                storage_ip,
                num_storage,
                nccl_nchannels,
            },
        )
    }
}

/// Whether a text is the value of a variable or, where it is not set, its default.
pub open spec fn stands_for(value: Option<String>, default: Seq<char>, text: Seq<char>) -> bool {
    &&& value matches Some(t) ==> text == t@
    &&& value is None ==> text == default
}

/// Each setting is what its own variable spells, or its default where the variable
/// is not set. The settings are refused, for the first thing that is wrong with
/// them, exactly if a variable does not spell what it stands for, or there are more
/// than eight storage servers or fewer than two of the 32 workers for each channel.
pub proof fn each_setting_is_what_its_variable_spells(
    vars: &EnvVars,
    r: Result<NetConfig, EnvError>,
    texts: Seq<&str>,
    rank: Option<i32>,
    nranks: Option<i32>,
    port: Option<u16>,
    ip: Option<[u8; 4]>,
    num_storage: Option<u8>,
    nchannels: Option<i32>,
)
    requires
        call_ensures(NetConfig::from_env, (vars,), r),
        texts.len() == 6,
        stands_for(vars.rank, "-1"@, texts[0]@),
        stands_for(vars.world_size, "-1"@, texts[1]@),
        stands_for(vars.start_listen_port, "41000"@, texts[2]@),
        stands_for(vars.storage_server_ip, "10.40.1.104"@, texts[3]@),
        stands_for(vars.num_storage, "1"@, texts[4]@),
        stands_for(vars.nccl_max_nchannels, "4"@, texts[5]@),
        call_ensures(parse_i32, (texts[0],), rank),
        call_ensures(parse_i32, (texts[1],), nranks),
        call_ensures(parse_u16, (texts[2],), port),
        call_ensures(parse_ipv4, (texts[3],), ip),
        call_ensures(parse_u8, (texts[4],), num_storage),
        call_ensures(parse_i32, (texts[5],), nchannels),
    ensures
        match r {
            Ok(config) => {
                &&& rank == Some(config.rank)
                &&& nranks == Some(config.nranks)
                &&& port == Some(config.start_listen_port)
                &&& ip is Some && ip->0@ == config.storage_ip@
                &&& num_storage == Some(config.num_storage)
                &&& nchannels == Some(config.nccl_nchannels)
                &&& config.num_storage <= 8
                &&& i32::MIN <= 2 * config.nccl_nchannels <= 32
            },
            Err(e) => Some(e) == if rank is None {
                Some(EnvError::Rank)
            } else if nranks is None {
                Some(EnvError::WorldSize)
            } else if port is None {
                Some(EnvError::StartListenPort)
            } else if ip is None {
                Some(EnvError::StorageServerIp)
            } else if num_storage is None {
                Some(EnvError::NumStorage)
            } else if num_storage->0 > 8 {
                Some(EnvError::TooManyStorage)
            } else if nchannels is None {
                Some(EnvError::NcclMaxNchannels)
            } else if 2 * nchannels->0 > 32 || 2 * nchannels->0 < i32::MIN {
                Some(EnvError::TooFewWorkers)
            } else {
                None
            },
        },
{
    if let Some(q) = ip {
        assert(q@.len() == 4);
        assert(texts[3]@ == crate::text::dotted_quad(q@));
        if let Ok(config) = r {
            assert(config.storage_ip@.len() == 4);
            crate::text::dotted_quad_is_injective(q@, config.storage_ip@);
        }
    } else {
        assert(crate::text::is_no_quad(texts[3]@));
        if let Ok(config) = r {
            assert(config.storage_ip@.len() == 4);
            assert(texts[3]@ != crate::text::dotted_quad(config.storage_ip@));
        }
    }
}

/// Whether a variable is set to a number in decimal, or is not set and the number is
/// its default.
pub open spec fn says(value: Option<String>, default: int, n: int) -> bool {
    match value {
        Some(text) => text@ == crate::text::signed_decimal(n),
        None => n == default,
    }
}

/// Settings that are written down the usual way are read as they were written, for
/// as long as they are within range.
pub proof fn settings_are_read_as_they_were_written(
    vars: &EnvVars,
    r: Result<NetConfig, EnvError>,
    rank: i32,
    nranks: i32,
    port: u16,
    ip: [u8; 4],
    num_storage: u8,
    nchannels: i32,
)
    requires
        call_ensures(NetConfig::from_env, (vars,), r),
        says(vars.rank, -1, rank as int),
        says(vars.world_size, -1, nranks as int),
        says(vars.start_listen_port, 41000, port as int),
        vars.storage_server_ip is Some && vars.storage_server_ip->0@ == crate::text::dotted_quad(
            ip@,
        ),
        says(vars.num_storage, 1, num_storage as int),
        says(vars.nccl_max_nchannels, 4, nchannels as int),
        num_storage <= 8,
        -1_000_000_000 <= nchannels <= 16,
    ensures
        r matches Ok(config) && {
            &&& config.rank == rank
            &&& config.nranks == nranks
            &&& config.start_listen_port == port
            &&& config.storage_ip@ == ip@
            &&& config.num_storage == num_storage
            &&& config.nccl_nchannels == nchannels
        },
{
    lemma_defaults();
    crate::text::signed_decimal_reads_back(rank);
    crate::text::signed_decimal_reads_back(nranks);
    crate::text::decimal_reads_back(port as nat, u16::MAX as nat);
    crate::text::decimal_reads_back(num_storage as nat, u8::MAX as nat);
    crate::text::signed_decimal_reads_back(nchannels);
    assert(ip@.len() == 4);
    if let Ok(config) = r {
        assert(config.storage_ip@.len() == 4);
        crate::text::dotted_quad_is_injective(ip@, config.storage_ip@);
    }
}

proof fn lemma_defaults()
    ensures
        crate::text::signed_value("-1"@) == Some(-1int),
        crate::text::unsigned_value("41000"@, u16::MAX as nat) == Some(41000nat),
        crate::text::unsigned_value("1"@, u8::MAX as nat) == Some(1nat),
        crate::text::signed_value("4"@) == Some(4int),
{
    reveal_strlit("-1");
    reveal_strlit("41000");
    reveal_strlit("1");
    reveal_strlit("4");
    reveal_with_fuel(crate::text::decimal, 5);
    assert("-1"@ =~= crate::text::signed_decimal(-1));
    crate::text::signed_decimal_reads_back((-1) as i32);
    assert("41000"@ =~= crate::text::decimal(41000));
    crate::text::decimal_reads_back(41000, u16::MAX as nat);
    assert("1"@ =~= crate::text::decimal(1));
    crate::text::decimal_reads_back(1, u8::MAX as nat);
    assert("4"@ =~= crate::text::signed_decimal(4));
    crate::text::signed_decimal_reads_back(4);
}

} // verus!
