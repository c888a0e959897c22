//! The sysfs files that describe the hardware, and what each one's contents
//! (or failure to read) means.
//!
//! Files are named relative to the sysfs root (`/sys/devices/system` on
//! Linux); reading them is the caller's work.

use vstd::prelude::*;
use crate::text::{decimal, decimal_string, parse_i32, trim, trim_bounds, chars_of};
use super::id_list::{cpu_list_result, node_list_result, parse_cpu_list, parse_numa_node_list};
use super::{CoreId, CpuId, NumaNodeId, PackageId, TopologyError};

verus! {

/// One sysfs topology file.
#[derive(Debug, Clone, Copy, PartialEq, Eq, Structural)]
pub enum SysfsFile {
    /// `cpu/online`: the online logical CPUs.
    OnlineCpus,
    /// `node/online`: the online NUMA nodes.
    OnlineNumaNodes,
    /// `node/nodeN/cpulist`: the CPUs of node `N`.
    NumaNodeCpus(NumaNodeId),
    /// `cpu/cpuN/topology/core_id`: the core number of CPU `N`.
    CoreNumber(CpuId),
    /// `cpu/cpuN/topology/physical_package_id`: the package of CPU `N`.
    PackageNumber(CpuId),
}

/// The path of `f` below the sysfs root.
pub open spec fn file_path(f: SysfsFile) -> Seq<char> {
    match f {
        SysfsFile::OnlineCpus => "cpu/online"@,
        SysfsFile::OnlineNumaNodes => "node/online"@,
        SysfsFile::NumaNodeCpus(n) => "node/node"@ + decimal(n@ as nat) + "/cpulist"@,
        SysfsFile::CoreNumber(c) => "cpu/cpu"@ + decimal(c@ as nat) + "/topology/core_id"@,
        SysfsFile::PackageNumber(c) => "cpu/cpu"@ + decimal(c@ as nat)
            + "/topology/physical_package_id"@,
    }
}

impl SysfsFile {
    /// The path of this file below the sysfs root.
    pub fn path(&self) -> (r: String)
        ensures
            r@ == file_path(*self),
    {
        match self {
            SysfsFile::OnlineCpus => String::from_str("cpu/online"),
            SysfsFile::OnlineNumaNodes => String::from_str("node/online"),
            SysfsFile::NumaNodeCpus(n) => {
                let mut s = String::from_str("node/node");
                let d = decimal_string(n.get());
                s.append(d.as_str());
                s.append("/cpulist");
                s
            },
            SysfsFile::CoreNumber(c) => {
                let mut s = String::from_str("cpu/cpu");
                let d = decimal_string(c.get());
                s.append(d.as_str());
                s.append("/topology/core_id");
                s
            },
            SysfsFile::PackageNumber(c) => {
                let mut s = String::from_str("cpu/cpu");
                let d = decimal_string(c.get());
                s.append(d.as_str());
                s.append("/topology/physical_package_id");
                s
            },
        }
    }
}

/// The outcome of reading one file.
#[derive(Debug)]
pub enum FileRead {
    /// The file's text.
    Contents(String),
    /// The file does not exist.
    NotFound(std::io::Error),
    /// The file exists but could not be read.
    Failed(std::io::Error),
}

/// Whether `r` is the read error for `f` failing with `e`.
pub open spec fn io_error(f: SysfsFile, e: std::io::Error, r: TopologyError) -> bool {
    r matches TopologyError::Io { path, error } && path@ == file_path(f) && error == e
}

/// The error for `f` failing with `error`.
fn read_error(f: SysfsFile, error: std::io::Error) -> (r: TopologyError)
    ensures
        io_error(f, error, r),
{
    TopologyError::Io { path: f.path(), error }
}

/// Whether `r` is what reading CPU list file `f` with outcome `read` gives.
pub open spec fn cpu_file_outcome(f: SysfsFile, read: FileRead, r: Result<Vec<CpuId>, TopologyError>) -> bool {
    match read {
        FileRead::Contents(s) => cpu_list_result(s@, r),
        FileRead::NotFound(e) => r matches Err(x) && io_error(f, e, x),
        FileRead::Failed(e) => r matches Err(x) && io_error(f, e, x),
    }
}

/// The online CPUs that `read` (of `cpu/online`) reports.
pub fn online_cpus_from(read: FileRead) -> (r: Result<Vec<CpuId>, TopologyError>)
    ensures
        cpu_file_outcome(SysfsFile::OnlineCpus, read, r),
{
    match read {
        FileRead::Contents(s) => parse_cpu_list(s.as_str()),
        FileRead::NotFound(e) => Err(read_error(SysfsFile::OnlineCpus, e)),
        FileRead::Failed(e) => Err(read_error(SysfsFile::OnlineCpus, e)),
    }
}

/// Where the NUMA memberships come from.
#[derive(Debug)]
pub enum NumaSource {
    /// These online nodes, each with its own CPU list file.
    Listed(Vec<NumaNodeId>),
    /// No NUMA interface: one uniform node `0` holds every online CPU.
    Uniform,
}

/// Whether `r` is what reading `node/online` with outcome `read` gives.
pub open spec fn numa_source_outcome(read: FileRead, r: Result<NumaSource, TopologyError>) -> bool {
    match read {
        FileRead::Contents(s) => match r {
            Ok(NumaSource::Listed(v)) => node_list_result(s@, Ok(v)),
            Ok(NumaSource::Uniform) => false,
            Err(x) => node_list_result(s@, Err(x)),
        },
        FileRead::NotFound(_) => r matches Ok(NumaSource::Uniform),
        FileRead::Failed(e) => r matches Err(x) && io_error(SysfsFile::OnlineNumaNodes, e, x),
    }
}

/// What `read` (of `node/online`) means: the online nodes, or a uniform
/// memory system when the file does not exist. Other read failures are
/// errors.
pub fn numa_source_from(read: FileRead) -> (r: Result<NumaSource, TopologyError>)
    ensures
        numa_source_outcome(read, r),
{
    match read {
        FileRead::Contents(s) => match parse_numa_node_list(s.as_str()) {
            Ok(v) => Ok(NumaSource::Listed(v)),
            Err(x) => Err(x),
        },
        FileRead::NotFound(_) => Ok(NumaSource::Uniform),
        FileRead::Failed(e) => Err(read_error(SysfsFile::OnlineNumaNodes, e)),
    }
}

/// The membership of a uniform memory system: node `0` with every online
/// CPU.
pub fn uniform_memberships(online: &Vec<CpuId>) -> (r: Vec<(NumaNodeId, Vec<CpuId>)>)
    ensures
        r@.len() == 1,
        r@[0].0@ == 0,
        r@[0].1@ == online@,
{
    let mut cpus: Vec<CpuId> = Vec::new();
    let mut i: usize = 0;
    while i < online.len()
        invariant
            i <= online@.len(),
            cpus@ == online@.take(i as int),
        decreases online@.len() - i,
    {
        cpus.push(online[i]);
        proof {
            assert(online@.take(i + 1) == online@.take(i as int).push(online@[i as int]));
        }
        i += 1;
    }
    proof {
        assert(online@.take(online@.len() as int) == online@);
    }
    let mut r: Vec<(NumaNodeId, Vec<CpuId>)> = Vec::new();
    r.push((NumaNodeId::new(0), cpus));
    r
}

/// The CPUs that `read` (of `node/nodeN/cpulist`) lists for `node`.
pub fn node_cpus_from(node: NumaNodeId, read: FileRead) -> (r: Result<Vec<CpuId>, TopologyError>)
    ensures
        cpu_file_outcome(SysfsFile::NumaNodeCpus(node), read, r),
{
    match read {
        FileRead::Contents(s) => parse_cpu_list(s.as_str()),
        FileRead::NotFound(e) => Err(read_error(SysfsFile::NumaNodeCpus(node), e)),
        FileRead::Failed(e) => Err(read_error(SysfsFile::NumaNodeCpus(node), e)),
    }
}

/// `str::parse::<i32>`: an optional sign, then decimal digits whose value
/// fits in `i32`; otherwise the parser's error.
#[verifier::external_body]
fn parse_i32_text(s: &str) -> (r: Result<i32, std::num::ParseIntError>)
    ensures
        r is Ok <==> parse_i32(s@) is Some,
        r matches Ok(v) ==> parse_i32(s@) == Some(v),
{
    s.parse::<i32>()
}

/// Whether `r` is what reading integer file `f` with outcome `read` gives.
pub open spec fn integer_outcome(f: SysfsFile, read: FileRead, r: Result<i32, TopologyError>) -> bool {
    match read {
        FileRead::Contents(s) => match parse_i32(trim(s@)) {
            Some(v) => r == Ok::<i32, TopologyError>(v),
            None => r matches Err(TopologyError::InvalidInteger { path, .. }) && path@ == file_path(f),
        },
        FileRead::NotFound(e) => r matches Err(x) && io_error(f, e, x),
        FileRead::Failed(e) => r matches Err(x) && io_error(f, e, x),
    }
}

/// The signed integer that `read` (of file `f`) holds, surrounding
/// whitespace ignored.
pub fn integer_from(f: SysfsFile, read: FileRead) -> (r: Result<i32, TopologyError>)
    ensures
        integer_outcome(f, read, r),
{
    match read {
        FileRead::Contents(s) => {
            let cs = chars_of(s.as_str());
            let (a, b) = trim_bounds(&cs, 0, cs.len());
            proof {
                assert(cs@.subrange(0, cs@.len() as int) == cs@);
            }
            let t = s.as_str().substring_char(a, b);
            match parse_i32_text(t) {
                Ok(v) => Ok(v),
                Err(value) => Err(TopologyError::InvalidInteger { path: f.path(), value }),
            }
        },
        FileRead::NotFound(e) => Err(read_error(f, e)),
        FileRead::Failed(e) => Err(read_error(f, e)),
    }
}

/// The core identity of a CPU from its core number and its package number.
pub fn core_id_from(core: i32, package: i32) -> (r: CoreId)
    ensures
        r@ == (package, core),
{
    CoreId::new(PackageId::new(package), core)
}

} // verus!
