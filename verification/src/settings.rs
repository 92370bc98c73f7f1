//! What a miner is started with, and what it learns from the machine.

use rand::Rng;
use vstd::prelude::*;

verus! {

/// Workers of a round when none are asked for.
pub const DEFAULT_THREADS: u64 = 96;

/// Seconds kept in reserve at the end of a round when none are asked for.
pub const DEFAULT_BUFFER_SECONDS: u64 = 5;

/// The smallest depth that is drawn at random.
pub const MIN_DEPTH: u64 = 50;

/// The largest depth that is drawn at random.
pub const MAX_DEPTH: u64 = 500;

/// The number of bus accounts of the program.
pub const BUS_COUNT: usize = 8;

/// What one run of the miner works with.
#[derive(Clone, Debug, PartialEq, Eq)]
pub struct Minersettings {
    pub threads: u64,
    pub buffer: u64,
    pub depth: u64,
    pub miner: [u8; 32],
    pub rpc: String,
}

impl Minersettings {
    /// Settings from what the invocation gave. A thread count or a buffer
    /// that is absent, or could not be read as a number, falls back to its
    /// default.
    pub fn new(
        threads: Option<u64>,
        buffer: Option<u64>,
        depth: u64,
        miner: [u8; 32],
        rpc: String,
    ) -> (settings: Minersettings)
        ensures
            settings.threads == (match threads {
                Some(count) => count,
                None => DEFAULT_THREADS,
            }),
            settings.buffer == (match buffer {
                Some(seconds) => seconds,
                None => DEFAULT_BUFFER_SECONDS,
            }),
            settings.depth == depth,
            settings.miner == miner,
            settings.rpc == rpc,
    {
        Minersettings {
            threads: match threads {
                Some(count) => count,
                None => DEFAULT_THREADS,
            },
            buffer: match buffer {
                Some(seconds) => seconds,
                None => DEFAULT_BUFFER_SECONDS,
            },
            depth,
            miner,
            rpc,
        }
    }
}

/// Calls `rand::thread_rng().gen_range(low..=high)`, which draws a number
/// from the closed range. Which one is a matter of chance.
#[verifier::external_body]
fn random_between(low: u64, high: u64) -> (drawn: u64)
    requires
        low <= high,
    ensures
        low <= drawn <= high,
{
    rand::thread_rng().gen_range(low..=high)
}

/// Calls `num_cpus::get`, the number of processors this process may use.
/// It is at least one.
#[verifier::external_body]
fn available_cores() -> (cores: usize)
    ensures
        cores >= 1,
{
    num_cpus::get()
}

/// Reads `ore_api::consts::BUS_COUNT`, which that crate defines as eight.
#[verifier::external_body]
fn bus_count() -> (count: usize)
    ensures
        count == BUS_COUNT,
{
    ore_api::consts::BUS_COUNT
}

/// The address of bus `index`, as `ore_api` derives it from the program's
/// identity.
pub uninterp spec fn bus_address_bytes(index: int) -> Seq<u8>;

/// Reads entry `index` of `ore_api::consts::BUS_ADDRESSES`, an array of
/// eight addresses, as its 32 bytes.
#[verifier::external_body]
fn bus_address(index: usize) -> (address: [u8; 32])
    requires
        index < BUS_COUNT,
    ensures
        address@ == bus_address_bytes(index as int),
{
    ore_api::consts::BUS_ADDRESSES[index].to_bytes()
}

/// A depth for the nonce partition, drawn at random.
pub fn random_depth() -> (depth: u64)
    ensures
        MIN_DEPTH <= depth <= MAX_DEPTH,
{
    random_between(MIN_DEPTH, MAX_DEPTH)
}

/// The number of cores to warn about: given when more threads are asked
/// for than the machine has cores.
pub fn core_warning(threads: u64, cores: u64) -> (warning: Option<u64>)
    ensures
        warning == (if threads > cores {
            Some(cores)
        } else {
            None
        }),
{
    if threads > cores {
        Some(cores)
    } else {
        None
    }
}

/// Compares the thread count with the cores of this machine. The result
/// names the number of cores when there are fewer of them than threads.
pub fn check_num_cores(threads: u64) -> (warning: Option<u64>)
    ensures
        exists|cores: u64|
            1 <= cores <= usize::MAX && warning == #[trigger] warning_for(threads, cores),
        warning matches Some(cores) ==> 1 <= cores < threads && cores <= usize::MAX,
        threads <= 1 ==> warning is None,
        threads > usize::MAX ==> warning is Some,
{
    let cores = available_cores() as u64;
    let warning = core_warning(threads, cores);
    assert(warning == warning_for(threads, cores));
    warning
}

/// What is to be said of `threads` on a machine with `cores` cores: the
/// number of cores if there are fewer of them than threads, and nothing
/// otherwise.
pub open spec fn warning_for(threads: u64, cores: u64) -> Option<u64> {
    if threads > cores {
        Some(cores)
    } else {
        None
    }
}

/// The address of bus `index`, for each of the program's buses.
pub fn bus_at(index: usize) -> (address: Option<[u8; 32]>)
    ensures
        address is Some <==> index < BUS_COUNT,
        address matches Some(bytes) ==> bytes@ == bus_address_bytes(index as int),
{
    if index < bus_count() {
        Some(bus_address(index))
    } else {
        None
    }
}

/// The address of a bus picked at random.
pub fn find_bus() -> (address: [u8; 32])
    ensures
        exists|index: int| 0 <= index < BUS_COUNT && address@ == bus_address_bytes(index),
{
    let count = bus_count();
    let index = random_between(0, (count - 1) as u64) as usize;
    bus_address(index)
}

} // verus!
