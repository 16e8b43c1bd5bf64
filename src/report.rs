//! The text of a result row: comma-separated decimal fields, the benchmark
//! name escaped and in double quotes, and a newline.
use vstd::prelude::*;
use vstd::string::StringSliceAdditionalSpecFns;
use crate::bench::{ClientParams, RPCType, ReportRow};

verus! {

/// The ASCII decimal digits of `n`, most significant first, without leading zeros.
pub open spec fn decimal(n: nat) -> Seq<u8>
    decreases n,
{
    if n < 10 {
        seq![(48 + n) as u8]
    } else {
        decimal(n / 10).push((48 + n % 10) as u8)
    }
}

/// The name of an RPC variant in ASCII.
pub open spec fn rpc_bytes(t: RPCType) -> Seq<u8> {
    match t {
        RPCType::DRPC => seq![68u8, 82u8, 80u8, 67u8],
        RPCType::GRPC => seq![71u8, 82u8, 80u8, 67u8],
    }
}

/// A printable ASCII byte, space to tilde.
pub open spec fn printable(b: u8) -> bool {
    0x20 <= b && b <= 0x7e
}

/// A byte as Rust's `Debug` writes it inside a quoted string: a double quote
/// and a backslash get a backslash before them, other printable ASCII stays.
pub open spec fn escape_byte(b: u8) -> Seq<u8> {
    if b == 34 || b == 92 {
        seq![92u8, b]
    } else {
        seq![b]
    }
}

/// The bytes of `name` with each of them escaped.
pub open spec fn escaped(name: Seq<u8>) -> Seq<u8>
    decreases name.len(),
{
    if name.len() == 0 {
        Seq::empty()
    } else {
        escaped(name.drop_last()) + escape_byte(name.last())
    }
}

/// A decimal field followed by a comma.
pub open spec fn field(n: nat) -> Seq<u8> {
    decimal(n).push(44u8)
}

/// The row `core_index,"name",total_cores,write_ratio,open_files,duration,
/// elapsed_second,ops,cid,ccores,nclients,rpc` and a newline.
pub open spec fn row_bytes(
    row: ReportRow,
    name: Seq<u8>,
    write_ratio: usize,
    open_files: usize,
    duration: u64,
    params: ClientParams,
) -> Seq<u8> {
    field(row.core_index as nat) + seq![34u8] + escaped(name) + seq![34u8, 44u8] + field(
        row.total_cores as nat,
    ) + field(write_ratio as nat) + field(open_files as nat) + field(duration as nat) + field(
        row.elapsed_second as nat,
    ) + field(row.ops as nat) + field(params.cid as nat) + field(params.ccores as nat) + field(
        params.nclients as nat,
    ) + rpc_bytes(params.rpc_type) + seq![10u8]
}

/// Appends the decimal digits of `n`.
pub fn put_decimal(out: &mut Vec<u8>, n: u64)
    ensures
        final(out)@ == old(out)@ + decimal(n as nat),
    decreases n,
{
    if n >= 10 {
        put_decimal(out, n / 10);
    }
    out.push((48 + n % 10) as u8);
    assert(final(out)@ =~= old(out)@ + decimal(n as nat));
}

/// Appends a decimal field and its comma.
fn put_field(out: &mut Vec<u8>, n: u64)
    ensures
        final(out)@ == old(out)@ + field(n as nat),
{
    put_decimal(out, n);
    out.push(44u8);
    assert(final(out)@ =~= old(out)@ + field(n as nat));
}

/// Appends `b` with each byte escaped.
fn put_escaped(out: &mut Vec<u8>, b: &[u8])
    ensures
        final(out)@ == old(out)@ + escaped(b@),
{
    let ghost start = out@;
    let mut i: usize = 0;
    while i < b.len()
        invariant
            i <= b@.len(),
            out@ == start + escaped(b@.subrange(0, i as int)),
        decreases b@.len() - i,
    {
        let c = b[i];
        if c == 34u8 || c == 92u8 {
            out.push(92u8);
        }
        out.push(c);
        assert(b@.subrange(0, i + 1).drop_last() =~= b@.subrange(0, i as int));
        i = i + 1;
        assert(out@ =~= start + escaped(b@.subrange(0, i as int)));
    }
    assert(b@.subrange(0, b@.len() as int) =~= b@);
}

/// Whether every byte of `b` is printable ASCII.
fn all_printable(b: &[u8]) -> (r: bool)
    ensures
        r == forall|i: int| 0 <= i < b@.len() ==> printable(#[trigger] b@[i]),
{
    let mut i: usize = 0;
    while i < b.len()
        invariant
            i <= b@.len(),
            forall|k: int| 0 <= k < i ==> printable(#[trigger] b@[k]),
        decreases b@.len() - i,
    {
        if !(0x20u8 <= b[i] && b[i] <= 0x7eu8) {
            return false;
        }
        i = i + 1;
    }
    true
}

/// The text of one result row. The benchmark name is written in double quotes
/// as Rust's `Debug` writes a string, with `"` and `\` escaped; a name holding
/// anything but printable ASCII is refused.
pub fn format_row(
    row: &ReportRow,
    benchmark: &str,
    write_ratio: usize,
    open_files: usize,
    duration: u64,
    params: &ClientParams,
) -> (r: Option<Vec<u8>>)
    ensures
        match r {
            Some(text) => text@ == row_bytes(
                *row,
                benchmark.spec_bytes(),
                write_ratio,
                open_files,
                duration,
                *params,
            ),
            None => exists|i: int|
                0 <= i < benchmark.spec_bytes().len() && !printable(
                    #[trigger] benchmark.spec_bytes()[i],
                ),
        },
{
    let name = benchmark.as_bytes();
    if !all_printable(name) {
        return None;
    }
    let mut out: Vec<u8> = Vec::new();
    put_field(&mut out, row.core_index as u64);
    out.push(34u8);
    put_escaped(&mut out, name);
    out.push(34u8);
    out.push(44u8);
    put_field(&mut out, row.total_cores as u64);
    put_field(&mut out, write_ratio as u64);
    put_field(&mut out, open_files as u64);
    put_field(&mut out, duration);
    put_field(&mut out, row.elapsed_second as u64);
    put_field(&mut out, row.ops as u64);
    put_field(&mut out, params.cid as u64);
    put_field(&mut out, params.ccores as u64);
    put_field(&mut out, params.nclients as u64);
    match params.rpc_type {
        RPCType::DRPC => {
            out.push(68u8);
            out.push(82u8);
        },
        RPCType::GRPC => {
            out.push(71u8);
            out.push(82u8);
        },
    }
    out.push(80u8);
    out.push(67u8);
    out.push(10u8);
    assert(out@ =~= row_bytes(
        *row,
        benchmark.spec_bytes(),
        write_ratio,
        open_files,
        duration,
        *params,
    ));
    Some(out)
}

} // verus!
