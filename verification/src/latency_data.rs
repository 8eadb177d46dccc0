//! Order latency rows stored in a `.npy` file: the header is checked against the row's fields,
//! and each record of 32 bytes is read as four little-endian 64-bit integers.
use vstd::prelude::*;

use crate::engine::{latency_row_fields, OrderLatencyRow};
use crate::npy::{dict_text, npy_bytes, padded_text, spec_header_end, Field, NpyDTyped, NpyError};
use crate::npy_roundtrip::{fields_quote_free, view_of, written_file_reads_back};
use vstd::utf8::encode_utf8;
use crate::npy_header::{header_accepted, read_npy_header, spec_parse_header};

verus! {

/// The bytes of one record.
pub const LATENCY_ROW_BYTES: usize = 32;

/// The unsigned value of little-endian bytes.
pub open spec fn le_value(b: Seq<u8>) -> nat
    decreases b.len(),
{
    if b.len() == 0 {
        0
    } else {
        b[0] as nat + 256 * le_value(b.drop_first())
    }
}

pub open spec fn pow256(n: nat) -> nat
    decreases n,
{
    if n == 0 {
        1
    } else {
        256 * pow256((n - 1) as nat)
    }
}

proof fn lemma_le_value_bound(b: Seq<u8>)
    ensures
        le_value(b) < pow256(b.len()),
    decreases b.len(),
{
    if b.len() > 0 {
        let rest = le_value(b.drop_first());
        let p = pow256(b.drop_first().len());
        lemma_le_value_bound(b.drop_first());
        assert(b[0] as nat + 256 * rest < 256 * p) by (nonlinear_arith)
            requires
                b[0] < 256,
                rest < p,
        ;
    }
}

/// The 64-bit integer stored little-endian in the eight bytes at `at`.
pub open spec fn le_i64_at(buf: Seq<u8>, at: int) -> i64 {
    le_value(buf.subrange(at, at + 8)) as u64 as i64
}

/// The record at `at`: request, exchange and response timestamps and the padding field.
pub open spec fn latency_row_at(buf: Seq<u8>, at: int) -> OrderLatencyRow {
    OrderLatencyRow {
        req_ts: le_i64_at(buf, at),
        exch_ts: le_i64_at(buf, at + 8),
        resp_ts: le_i64_at(buf, at + 16),
        _padding: le_i64_at(buf, at + 24),
    }
}

/// The whole records after `offset`, in order; bytes of a last partial record are not read.
pub open spec fn latency_rows_at(buf: Seq<u8>, offset: int) -> Seq<OrderLatencyRow> {
    Seq::new(
        ((buf.len() - offset) / (LATENCY_ROW_BYTES as int)) as nat,
        |k: int| latency_row_at(buf, offset + k * 32),
    )
}

fn read_i64_le(buf: &[u8], at: usize) -> (r: i64)
    requires
        at + 8 <= buf.len(),
    ensures
        r == le_i64_at(buf@, at as int),
{
    let ghost b = buf@.subrange(at as int, at + 8);
    let mut v: u64 = 0;
    let mut k: usize = 8;
    while k > 0
        invariant
            k <= 8,
            at + 8 <= buf.len(),
            b == buf@.subrange(at as int, at + 8),
            v == le_value(b.subrange(k as int, 8)),
        decreases k,
    {
        k = k - 1;
        let ghost rest = b.subrange(k + 1, 8);
        proof {
            assert(b.subrange(k as int, 8).drop_first() =~= rest);
            assert(b.subrange(k as int, 8)[0] == buf@[at + k]);
            lemma_le_value_bound(b.subrange(k as int, 8));
            reveal_with_fuel(pow256, 9);
            assert(pow256(8) == 0x1_0000_0000_0000_0000);
            lemma_pow256_monotone((8 - k) as nat, 8);
        }
        v = v * 256 + buf[at + k] as u64;
    }
    assert(b.subrange(0, 8) =~= b);
    v as i64
}

proof fn lemma_pow256_monotone(a: nat, b: nat)
    requires
        a <= b,
    ensures
        pow256(a) <= pow256(b),
    decreases b,
{
    if a < b {
        lemma_pow256_monotone(a, (b - 1) as nat);
    }
}

/// The whole records of `buf` after `offset`.
pub fn latency_rows(buf: &[u8], offset: usize) -> (r: Vec<OrderLatencyRow>)
    requires
        offset <= buf.len(),
    ensures
        r@ == latency_rows_at(buf@, offset as int),
{
    let count = (buf.len() - offset) / LATENCY_ROW_BYTES;
    let mut rows: Vec<OrderLatencyRow> = Vec::new();
    let mut k: usize = 0;
    while k < count
        invariant
            k <= count,
            count == (buf.len() - offset) / 32,
            offset <= buf.len(),
            rows@.len() == k,
            forall|j: int| 0 <= j < k ==> #[trigger] rows@[j] == latency_row_at(buf@, offset + j * 32),
        decreases count - k,
    {
        assert(offset + k * 32 + 32 <= buf.len()) by (nonlinear_arith)
            requires
                k < count,
                count == (buf.len() - offset) / 32,
                offset <= buf.len(),
        ;
        let at = offset + k * 32;
        let row = OrderLatencyRow {
            req_ts: read_i64_le(buf, at),
            exch_ts: read_i64_le(buf, at + 8),
            resp_ts: read_i64_le(buf, at + 16),
            _padding: read_i64_le(buf, at + 24),
        };
        rows.push(row);
        k = k + 1;
    }
    assert(rows@ =~= latency_rows_at(buf@, offset as int));
    rows
}

/// Reads a whole `.npy` file of order latency rows: the header must describe one-dimensional
/// C-order records whose field types are those of a latency row, with the data on a cache line;
/// the rows are the whole records after the header.
pub fn read_latency_npy(buf: &[u8]) -> (r: Result<Vec<OrderLatencyRow>, NpyError>)
    ensures
        spec_header_end(buf@) matches Err(e) ==> r == Err::<Vec<OrderLatencyRow>, NpyError>(e),
        spec_header_end(buf@) matches Ok(end) ==> match spec_parse_header(buf@.subrange(10, end as int)) {
            Err(e) => r == Err::<Vec<OrderLatencyRow>, NpyError>(e),
            Ok(v) => forall|fields: Seq<Field>| #[trigger] latency_row_fields(fields) ==> {
                &&& (r is Ok <==> header_accepted(fields, v, end as int))
                &&& r matches Ok(rows) ==> rows@ == latency_rows_at(buf@, end as int)
            },
        },
{
    let fields = OrderLatencyRow::descr();
    let (end, _header) = read_npy_header(buf, &fields)?;
    Ok(latency_rows(buf, end))
}

/// The `n` lowest bytes of `v`, little-endian.
pub open spec fn le_bytes(v: nat, n: nat) -> Seq<u8>
    decreases n,
{
    if n == 0 {
        Seq::empty()
    } else {
        seq![(v % 256) as u8] + le_bytes(v / 256, (n - 1) as nat)
    }
}

/// The eight bytes of a 64-bit integer, little-endian in two's complement.
pub open spec fn i64_bytes(x: i64) -> Seq<u8> {
    le_bytes(x as u64 as nat, 8)
}

/// The 32 bytes of a row: its four fields in order.
pub open spec fn row_bytes(r: OrderLatencyRow) -> Seq<u8> {
    i64_bytes(r.req_ts) + i64_bytes(r.exch_ts) + i64_bytes(r.resp_ts) + i64_bytes(r._padding)
}

/// The bytes of rows, one after the other, as a writer lays out records.
pub open spec fn rows_bytes(rows: Seq<OrderLatencyRow>) -> Seq<u8>
    decreases rows.len(),
{
    if rows.len() == 0 {
        Seq::empty()
    } else {
        rows_bytes(rows.drop_last()) + row_bytes(rows.last())
    }
}

proof fn lemma_le_bytes(v: nat, n: nat)
    requires
        v < pow256(n),
    ensures
        le_bytes(v, n).len() == n,
        le_value(le_bytes(v, n)) == v,
    decreases n,
{
    if n > 0 {
        let p = pow256((n - 1) as nat);
        assert(v / 256 < p) by (nonlinear_arith)
            requires
                v < 256 * p,
        ;
        lemma_le_bytes(v / 256, (n - 1) as nat);
        let b = le_bytes(v, n);
        assert(b.drop_first() =~= le_bytes(v / 256, (n - 1) as nat));
        assert(b[0] == (v % 256) as u8);
    }
}

proof fn lemma_i64_bytes(x: i64)
    ensures
        i64_bytes(x).len() == 8,
        le_value(i64_bytes(x)) as u64 as i64 == x,
{
    reveal_with_fuel(pow256, 9);
    assert(pow256(8) == 0x1_0000_0000_0000_0000);
    lemma_le_bytes(x as u64 as nat, 8);
    let u = x as u64;
    assert(u as i64 == x) by (bit_vector)
        requires
            u == x as u64,
    ;
}

proof fn lemma_rows_bytes(rows: Seq<OrderLatencyRow>, k: int)
    requires
        0 <= k < rows.len(),
    ensures
        rows_bytes(rows).len() == 32 * rows.len(),
        rows_bytes(rows).subrange(32 * k, 32 * k + 32) == row_bytes(rows[k]),
    decreases rows.len(),
{
    lemma_rows_len(rows);
    let init = rows.drop_last();
    lemma_row_bytes_len(rows.last());
    if k < rows.len() - 1 {
        lemma_rows_bytes(init, k);
        assert(rows_bytes(rows).subrange(32 * k, 32 * k + 32) =~= rows_bytes(init).subrange(32 * k, 32 * k + 32));
    } else {
        lemma_rows_len(init);
        assert(rows_bytes(rows).subrange(32 * k, 32 * k + 32) =~= row_bytes(rows.last()));
    }
}

proof fn lemma_row_bytes_len(r: OrderLatencyRow)
    ensures
        row_bytes(r).len() == 32,
{
    lemma_i64_bytes(r.req_ts);
    lemma_i64_bytes(r.exch_ts);
    lemma_i64_bytes(r.resp_ts);
    lemma_i64_bytes(r._padding);
}

proof fn lemma_rows_len(rows: Seq<OrderLatencyRow>)
    ensures
        rows_bytes(rows).len() == 32 * rows.len(),
    decreases rows.len(),
{
    if rows.len() > 0 {
        lemma_rows_len(rows.drop_last());
        lemma_row_bytes_len(rows.last());
    }
}

/// Reading the row at `at` of bytes that hold `row_bytes(r)` there gives `r` back.
proof fn lemma_row_at(buf: Seq<u8>, at: int, r: OrderLatencyRow)
    requires
        0 <= at,
        at + 32 <= buf.len(),
        buf.subrange(at, at + 32) == row_bytes(r),
    ensures
        latency_row_at(buf, at) == r,
{
    lemma_i64_bytes(r.req_ts);
    lemma_i64_bytes(r.exch_ts);
    lemma_i64_bytes(r.resp_ts);
    lemma_i64_bytes(r._padding);
    let whole = buf.subrange(at, at + 32);
    let pieces = seq![i64_bytes(r.req_ts), i64_bytes(r.exch_ts), i64_bytes(r.resp_ts), i64_bytes(r._padding)];
    assert forall|p: int, j: int| 0 <= p < 4 && 0 <= j < 8 implies #[trigger] whole[8 * p + j] == pieces[p][j] by {
        assert(row_bytes(r)[8 * p + j] == pieces[p][j]);
    }
    assert forall|p: int| 0 <= p < 4 implies #[trigger] buf.subrange(at + 8 * p, at + 8 * p + 8) =~= pieces[p] by {
        assert forall|j: int| 0 <= j < 8 implies buf.subrange(at + 8 * p, at + 8 * p + 8)[j] == pieces[p][j] by {
            assert(whole[8 * p + j] == buf[at + 8 * p + j]);
        }
    }
    assert(buf.subrange(at + 8 * 0, at + 8 * 0 + 8) == pieces[0]);
    assert(buf.subrange(at + 8 * 1, at + 8 * 1 + 8) == pieces[1]);
    assert(buf.subrange(at + 8 * 2, at + 8 * 2 + 8) == pieces[2]);
    assert(buf.subrange(at + 8 * 3, at + 8 * 3 + 8) == pieces[3]);
}

/// The names and types of a latency row hold no quote.
proof fn lemma_latency_fields_quote_free(fields: Seq<Field>)
    requires
        latency_row_fields(fields),
    ensures
        fields_quote_free(fields),
{
    reveal_strlit("req_ts");
    reveal_strlit("exch_ts");
    reveal_strlit("resp_ts");
    reveal_strlit("_padding");
    reveal_strlit("<i8");
    assert(fields[0].ty@ == "<i8"@);
    assert(fields[1].ty@ == "<i8"@);
    assert(fields[2].ty@ == "<i8"@);
    assert(fields[3].ty@ == "<i8"@);
}

/// Latency rows written to a `.npy` file read back as the same rows: the header is accepted for
/// the latency row's fields and the records after it are the rows, bit for bit, whenever the
/// padded header fits the 16-bit length field.
pub proof fn written_latency_rows_read_back(fields: Seq<Field>, rows: Seq<OrderLatencyRow>)
    requires
        latency_row_fields(fields),
        rows.len() <= usize::MAX,
        encode_utf8(padded_text(dict_text(fields, false, seq![rows.len() as usize]))).len() < 65536,
    ensures
        ({
            let buf = npy_bytes(fields, rows.len() as usize, rows_bytes(rows));
            &&& spec_header_end(buf) matches Ok(end)
            &&& spec_parse_header(buf.subrange(10, end as int)) matches Ok(v)
            &&& header_accepted(fields, v, end as int)
            &&& latency_rows_at(buf, end as int) == rows
        }),
{
    let n = rows.len() as usize;
    let data = rows_bytes(rows);
    lemma_latency_fields_quote_free(fields);
    written_file_reads_back(fields, n, data);
    let buf = npy_bytes(fields, n, data);
    let end = (10 + encode_utf8(padded_text(dict_text(fields, false, seq![n]))).len()) as int;
    lemma_rows_len(rows);
    let v = view_of(fields, false, seq![n]);
    assert(crate::npy_header::descr_agrees(fields, v.descr)) by {
        assert forall|i: int| 0 <= i < fields.len() implies (#[trigger] fields[i]).ty@ == v.descr[i].1 by {
        }
    }
    assert(buf.len() == end + 32 * rows.len());
    let got = latency_rows_at(buf, end);
    assert(got.len() == rows.len()) by (nonlinear_arith)
        requires
            got.len() == (buf.len() - end) / 32,
            buf.len() == end + 32 * rows.len(),
    ;
    assert forall|k: int| 0 <= k < rows.len() implies #[trigger] got[k] == rows[k] by {
        lemma_rows_bytes(rows, k);
        assert(buf.subrange(end + 32 * k, end + 32 * k + 32) =~= data.subrange(32 * k, 32 * k + 32)) by {
            assert(buf.subrange(end, buf.len() as int) == data);
            assert forall|j: int| 0 <= j < 32 implies #[trigger] buf.subrange(end + 32 * k, end + 32 * k + 32)[j]
                == data.subrange(32 * k, 32 * k + 32)[j] by {
                assert(buf.subrange(end, buf.len() as int)[32 * k + j] == buf[end + 32 * k + j]);
            }
        }
        lemma_row_at(buf, end + 32 * k, rows[k]);
    }
    assert(got =~= rows);
}

} // verus!
