//! The benchmark descriptor and the orchestrator's decisions: which cores a run
//! takes, and which rows it reports.
use vstd::prelude::*;

verus! {

/// How logical worker indices are laid onto cores.
#[derive(Clone, Copy, Debug, PartialEq, Eq, Structural)]
pub enum ThreadMapping {
    /// Worker `i` runs on the `i`-th available core.
    Sequential,
}

/// Whether the file operations stay on this machine or go over the network.
#[derive(Clone, Copy, Debug, PartialEq, Eq, Structural)]
pub enum ConnType {
    Local,
    Network,
}

/// The RPC variant used for remote file operations.
#[derive(Clone, Copy, Debug, PartialEq, Eq, Structural)]
pub enum RPCType {
    DRPC,
    GRPC,
}

/// Where result rows go.
#[derive(Clone, Copy, Debug, PartialEq, Eq, Structural)]
pub enum LogMode {
    CSV,
    STDOUT,
}

/// The parameters of this client, shared read-only by all its workers.
#[derive(Clone, Copy, Debug, PartialEq, Eq, Structural)]
pub struct ClientParams {
    pub conn_type: ConnType,
    pub rpc_type: RPCType,
    pub log_mode: LogMode,
    /// This client's identifier.
    pub cid: usize,
    /// The number of cores this client uses.
    pub ccores: usize,
    /// The number of clients taking part.
    pub nclients: usize,
}

impl RPCType {
    /// The name of the variant, as reported in result rows.
    pub fn name(&self) -> (r: &'static str)
        ensures
            r@ == (match self {
                RPCType::DRPC => "DRPC"@,
                RPCType::GRPC => "GRPC"@,
            }),
    {
        match self {
            RPCType::DRPC => "DRPC",
            RPCType::GRPC => "GRPC",
        }
    }
}

/// A point where the workers of a run wait until all of them have arrived.
pub trait Rendezvous {
    fn wait(&self);
}

/// A workload: `init` sets up every core's resources once per run, so that
/// `run` does no setup; `run` waits at `barrier`, measures core `core` for
/// `duration` seconds and returns one operation count per second.
pub trait Bench {
    fn init(&self, cores: Vec<u64>, open_files: usize, conn_type: ConnType, rpc_type: RPCType);

    fn run<B: Rendezvous>(
        &self,
        barrier: &B,
        duration: u64,
        core: usize,
        write_ratio: usize,
        conn_type: ConnType,
        rpc_type: RPCType,
    ) -> Vec<usize>;
}

/// One run configuration: every pair of a thread mapping and a thread count is
/// a run of `bench` with `write_ratio` and `open_files`.
#[derive(Clone)]
pub struct MicroBench<T> {
    pub thread_mappings: Vec<ThreadMapping>,
    pub threads: Vec<usize>,
    pub benchmark: String,
    pub write_ratio: usize,
    pub open_files: usize,
    pub bench: T,
}

impl<T: Default> MicroBench<T> {
    /// The descriptor of one run: sequential mapping over all of the client's cores.
    pub fn new(
        benchmark: &str,
        write_ratio: usize,
        open_files: usize,
        client_params: &ClientParams,
    ) -> (r: MicroBench<T>)
        ensures
            r.thread_mappings@ == seq![ThreadMapping::Sequential],
            r.threads@ == seq![client_params.ccores],
            r.benchmark@ == benchmark@,
            r.write_ratio == write_ratio,
            r.open_files == open_files,
            call_ensures(T::default, (), r.bench),
    {
        let mapping = ThreadMapping::Sequential;
        let max_cores = client_params.ccores;
        let mut threads: Vec<usize> = Vec::new();
        threads.push(max_cores);
        let mut thread_mappings: Vec<ThreadMapping> = Vec::new();
        thread_mappings.push(mapping);
        assert(threads@ =~= seq![client_params.ccores]);
        assert(thread_mappings@ =~= seq![ThreadMapping::Sequential]);
        MicroBench {
            thread_mappings,
            threads,
            benchmark: String::from_str(benchmark),
            write_ratio,
            open_files,
            bench: T::default(),
        }
    }
}

/// The only benchmark with a workload; any other name is a run that does nothing.
pub fn is_known_benchmark(name: &str) -> (r: bool)
    ensures
        r == (name@ == "mix"@),
{
    proof {
        reveal_strlit("mix");
    }
    if name.unicode_len() != 3 {
        return false;
    }
    let r = name.get_char(0) == 'm' && name.get_char(1) == 'i' && name.get_char(2) == 'x';
    assert(r ==> name@ =~= "mix"@);
    r
}

/// The cores a run takes from `available` all have a slot in an open-file
/// table sized from `available`: no worker's core identifier reaches past it.
pub proof fn lemma_run_cores_fit_table(available: Seq<usize>, cores: Seq<u64>, size: usize)
    requires
        cores.len() <= available.len(),
        forall|i: int| 0 <= i < cores.len() ==> cores[i] == available[i] as u64,
        forall|i: int| 0 <= i < available.len() ==> available[i] < size,
    ensures
        forall|i: int| 0 <= i < cores.len() ==> cores[i] < size,
{
}

/// The cores of a run of `n` threads: the first `n` of `available`, in order.
/// A run that asks for more cores than there are cannot start.
pub fn allocate_cores(mapping: ThreadMapping, available: &Vec<usize>, n: usize) -> (r: Option<
    Vec<u64>,
>)
    ensures
        match r {
            Some(cores) => n <= available@.len() && cores@.len() == n && forall|i: int|
                0 <= i < n ==> cores@[i] == available@[i] as u64,
            None => n > available@.len(),
        },
{
    match mapping {
        ThreadMapping::Sequential => {
            if n > available.len() {
                return None;
            }
            let mut cores: Vec<u64> = Vec::new();
            let mut i: usize = 0;
            while i < n
                invariant
                    n <= available@.len(),
                    i <= n,
                    cores@.len() == i,
                    forall|k: int| 0 <= k < i ==> cores@[k] == available@[k] as u64,
                decreases n - i,
            {
                cores.push(available[i] as u64);
                i = i + 1;
            }
            Some(cores)
        },
    }
}

/// The numbers of one result row; the benchmark name, ratios and client data
/// stand beside them unchanged.
#[derive(Clone, Copy, Debug, PartialEq, Eq, Structural)]
pub struct ReportRow {
    /// The core's index over all clients.
    pub core_index: usize,
    /// The number of cores over all clients.
    pub total_cores: usize,
    /// The second of the run, counted from 1.
    pub elapsed_second: usize,
    /// The operations completed in that second.
    pub ops: usize,
}

/// The global index of local core `core_id` of client `cid`.
pub open spec fn global_core(core_id: int, params: ClientParams) -> int {
    core_id + params.ccores * params.cid
}

/// One row per second of `series`: second `i + 1` reports `series[i]`.
pub fn report_rows(series: &Vec<usize>, core_id: usize, cores: usize, params: &ClientParams) -> (r:
    Vec<ReportRow>)
    requires
        global_core(core_id as int, *params) <= usize::MAX,
        cores * params.nclients <= usize::MAX,
    ensures
        r@.len() == series@.len(),
        forall|i: int|
            0 <= i < r@.len() ==> r@[i] == (ReportRow {
                core_index: global_core(core_id as int, *params) as usize,
                total_cores: (cores * params.nclients) as usize,
                elapsed_second: (i + 1) as usize,
                ops: series@[i],
            }),
{
    let core_index = core_id + params.ccores * params.cid;
    let total_cores = cores * params.nclients;
    let mut rows: Vec<ReportRow> = Vec::new();
    let mut i: usize = 0;
    while i < series.len()
        invariant
            i <= series@.len(),
            core_index == global_core(core_id as int, *params),
            total_cores == cores * params.nclients,
            rows@.len() == i,
            forall|k: int|
                0 <= k < i ==> rows@[k] == (ReportRow {
                    core_index,
                    total_cores,
                    elapsed_second: (k + 1) as usize,
                    ops: series@[k],
                }),
        decreases series@.len() - i,
    {
        rows.push(ReportRow { core_index, total_cores, elapsed_second: i + 1, ops: series[i] });
        i = i + 1;
    }
    rows
}

/// Operations per second of `ops` operations that took `nanos` nanoseconds in all,
/// through the whole nanoseconds that one operation took.
pub fn _calculate_throughput(ops: u64, nanos: u128) -> (r: usize)
    requires
        ops > 0,
        nanos >= ops,
    ensures
        r == 1_000_000_000u128 / (nanos / ops as u128),
{
    let nano_per_operation = nanos / ops as u128;
    assert(nano_per_operation >= 1) by (nonlinear_arith)
        requires
            nano_per_operation == nanos / ops as u128,
            nanos >= ops,
            ops > 0,
    ;
    let r = 1_000_000_000u128 / nano_per_operation;
    assert(r <= 1_000_000_000u128) by (nonlinear_arith)
        requires
            r == 1_000_000_000u128 / nano_per_operation,
            nano_per_operation >= 1,
    ;
    r as usize
}

} // verus!
