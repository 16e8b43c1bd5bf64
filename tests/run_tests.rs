use fxmark::barrier::BarrierCount;
use fxmark::bench::{
    _calculate_throughput, allocate_cores, is_known_benchmark, report_rows, ClientParams, ConnType,
    LogMode, MicroBench, RPCType, ReportRow, ThreadMapping,
};
use fxmark::files::{OpenFileTable, TableError, NO_FILE};
use fxmark::meter::WorkerMeter;
use fxmark::mix::{mix_file, mix_op, Op};
use fxmark::report::{format_row, put_decimal};
use fxmark::topology::{machine_cores, max_open_files, table_size};

fn params() -> ClientParams {
    ClientParams {
        conn_type: ConnType::Local,
        rpc_type: RPCType::DRPC,
        log_mode: LogMode::STDOUT,
        cid: 2,
        ccores: 4,
        nclients: 3,
    }
}

#[test]
fn microbench_has_one_run() {
    let mb: MicroBench<u8> = MicroBench::new("mix", 20, 16, &params());
    assert_eq!(mb.thread_mappings, vec![ThreadMapping::Sequential]);
    assert_eq!(mb.threads, vec![4]);
    assert_eq!(mb.benchmark, "mix");
    assert_eq!((mb.write_ratio, mb.open_files, mb.bench), (20, 16, 0));
}

#[test]
fn only_mix_is_known() {
    assert!(is_known_benchmark("mix"));
    assert!(!is_known_benchmark("drbl"));
    assert!(!is_known_benchmark("mi"));
    assert!(!is_known_benchmark(""));
}

#[test]
fn cores_are_taken_in_order() {
    let avail = vec![0, 2, 4, 6];
    assert_eq!(allocate_cores(ThreadMapping::Sequential, &avail, 3), Some(vec![0, 2, 4]));
    assert_eq!(allocate_cores(ThreadMapping::Sequential, &avail, 4), Some(vec![0, 2, 4, 6]));
    assert_eq!(allocate_cores(ThreadMapping::Sequential, &avail, 0), Some(vec![]));
    assert_eq!(allocate_cores(ThreadMapping::Sequential, &avail, 5), None);
}

#[test]
fn rows_use_second_index_from_one() {
    let rows = report_rows(&vec![10, 20, 30], 1, 4, &params());
    assert_eq!(rows.len(), 3);
    assert_eq!(rows[0], ReportRow { core_index: 9, total_cores: 12, elapsed_second: 1, ops: 10 });
    assert_eq!(rows[2], ReportRow { core_index: 9, total_cores: 12, elapsed_second: 3, ops: 30 });
    assert!(report_rows(&Vec::new(), 0, 1, &params()).is_empty());
}

#[test]
fn rpc_names() {
    assert_eq!(RPCType::DRPC.name(), "DRPC");
    assert_eq!(RPCType::GRPC.name(), "GRPC");
}

#[test]
fn throughput_formula() {
    assert_eq!(_calculate_throughput(1000, 1_000_000_000), 1000);
    assert_eq!(_calculate_throughput(3, 1_000), 3_003_003);
    assert_eq!(_calculate_throughput(1, 1), 1_000_000_000);
    assert_eq!(_calculate_throughput(1, 2_000_000_000), 0);
}

#[test]
fn meter_series_has_duration_entries() {
    let mut m = WorkerMeter::new(3);
    let mut second = 0;
    while !m.is_done() {
        for _ in 0..(second + 1) {
            m.record(128);
        }
        m.end_second();
        second += 1;
    }
    let s = m.into_series();
    assert_eq!(s, vec![128, 256, 384]);
}

#[test]
fn meter_zero_duration_and_saturation() {
    let m = WorkerMeter::new(0);
    assert!(m.is_done());
    assert!(m.into_series().is_empty());
    let mut m = WorkerMeter::new(1);
    m.record(usize::MAX);
    m.record(5);
    assert_eq!(m.current, usize::MAX);
}

#[test]
fn barrier_releases_at_nth_arrival() {
    let mut b = BarrierCount::new();
    assert!(b.is_released());
    b.reset(3);
    let mut arrived = 0;
    for _ in 0..2 {
        assert!(!b.arrive());
        arrived += 1;
        assert!(!b.is_released());
    }
    assert!(b.arrive());
    arrived += 1;
    assert_eq!(arrived, 3);
    assert!(b.arrive());
    assert_eq!(b.arrived, 3);
    b.reset(2);
    assert!(!b.is_released());
    assert_eq!(b.arrived, 0);
}

#[test]
fn table_refuses_cores_beyond_it() {
    let mut t = OpenFileTable::new(4);
    assert_eq!(t.capacity(), 4);
    assert_eq!(t.fds, vec![NO_FILE; 4]);
    assert_eq!(t.set(3, 7), Ok(()));
    assert_eq!(t.set(4, 8), Err(TableError::CoreOutOfRange));
    assert_eq!(t.fds, vec![NO_FILE, NO_FILE, NO_FILE, 7]);
    assert_eq!(t.lookup(3), Ok(7));
    assert_eq!(t.lookup(0), Err(TableError::NotOpen));
    assert_eq!(t.lookup(9), Err(TableError::CoreOutOfRange));
    assert_eq!(t.take(3), Ok(7));
    assert_eq!(t.lookup(3), Err(TableError::NotOpen));
}

#[test]
fn write_ratio_extremes() {
    for i in 0..1000u64 {
        assert_eq!(mix_op(i, 0), Op::Read);
        assert_eq!(mix_op(i, 100), Op::Write);
    }
    let writes = (0..100u64).filter(|i| mix_op(*i, 20) == Op::Write).count();
    assert_eq!(writes, 20);
}

#[test]
fn files_used_in_turn() {
    assert_eq!(mix_file(0, 3), 0);
    assert_eq!(mix_file(4, 3), 1);
    assert_eq!(mix_file(u64::MAX, 1), 0);
}

#[test]
fn machine_reports_cores() {
    let cores = machine_cores();
    assert!(!cores.is_empty());
    assert!(cores.windows(2).all(|w| w[0] < w[1]));
    let (ids, size) = max_open_files();
    assert_eq!(ids, cores);
    let max = size.unwrap();
    assert!(cores.iter().all(|c| *c < max));
    assert_eq!(Some(max), table_size(&cores));
}

#[test]
fn table_size_is_one_past_largest_id() {
    assert_eq!(table_size(&vec![4, 5, 6, 7]), Some(8));
    assert_eq!(table_size(&vec![0, 2, 4, 6]), Some(7));
    assert_eq!(table_size(&vec![3]), Some(4));
    assert_eq!(table_size(&Vec::new()), Some(0));
    assert_eq!(table_size(&vec![1, usize::MAX]), None);
    assert_eq!(table_size(&vec![usize::MAX - 1]), Some(usize::MAX));
}

#[test]
fn masked_cores_fit_the_table() {
    let avail = vec![4, 5, 6, 7];
    let slots = table_size(&avail).unwrap();
    let mut t = OpenFileTable::new(slots);
    for c in allocate_cores(ThreadMapping::Sequential, &avail, 4).unwrap() {
        assert_eq!(t.set(c, c as i32), Ok(()));
    }
    assert_eq!(t.lookup(7), Ok(7));
}

#[test]
fn batches_close_seconds() {
    let mut m = WorkerMeter::new(2);
    assert!(!m.after_batch(128, false));
    assert!(!m.after_batch(128, true));
    assert_eq!(m.series, vec![256]);
    assert_eq!(m.current, 0);
    assert!(!m.after_batch(5, false));
    assert!(m.after_batch(1, true));
    assert_eq!(m.into_series(), vec![256, 6]);
}

#[test]
fn row_text() {
    let row = ReportRow { core_index: 9, total_cores: 12, elapsed_second: 1, ops: 1234 };
    let text = format_row(&row, "mix", 20, 16, 10, &params()).unwrap();
    assert_eq!(String::from_utf8(text).unwrap(), "9,\"mix\",12,20,16,10,1,1234,2,4,3,DRPC\n");
    let mut out = Vec::new();
    put_decimal(&mut out, 0);
    put_decimal(&mut out, u64::MAX);
    assert_eq!(String::from_utf8(out).unwrap(), format!("0{}", u64::MAX));
}

#[test]
fn init_check_refuses_cores_past_table() {
    let t = OpenFileTable::new(4);
    assert_eq!(t.check_init_cores(&vec![0, 3]), Ok(()));
    assert_eq!(t.check_init_cores(&vec![0, 4]), Err(TableError::CoreOutOfRange));
    assert_eq!(t.check_init_cores(&vec![]), Ok(()));
    assert_eq!(t.fds, vec![NO_FILE; 4]);
}

#[test]
fn row_name_is_escaped_like_debug() {
    let row = ReportRow { core_index: 0, total_cores: 1, elapsed_second: 2, ops: 3 };
    for name in ["a\"b", "back\\slash", "", "plain name"] {
        let text = format_row(&row, name, 0, 1, 2, &params()).unwrap();
        let expected = format!("0,{:?},1,0,1,2,2,3,2,4,3,DRPC\n", name);
        assert_eq!(String::from_utf8(text).unwrap(), expected);
    }
    assert!(format_row(&row, "tab\there", 0, 1, 2, &params()).is_none());
    assert!(format_row(&row, "caf\u{e9}", 0, 1, 2, &params()).is_none());
}
