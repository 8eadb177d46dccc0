//! Backtest building blocks: assets, latency models, queue-position models.
use vstd::prelude::*;
use std::marker::PhantomData;
use crate::npy::{Field, NpyDTyped};

verus! {

/// `std::io::Error`, kept as the cause of a data error.
#[verifier::external_type_specification]
#[verifier::external_body]
pub struct ExIoError(std::io::Error);

#[derive(Debug)]
pub enum BacktestError {
    OrderIdExist,
    OrderRequestInProcess,
    OrderNotFound,
    InvalidOrderRequest,
    InvalidOrderStatus,
    EndOfData,
    DataError(std::io::Error),
}

/// One traded asset of a backtest: its local and exchange processors and its data reader.
pub struct Asset<L, E, R> {
    pub local: Box<L>,
    pub exch: Box<E>,
    pub reader: R,
}

impl<L, E, R> Asset<L, E, R> {
    pub fn new(local: L, exch: E, reader: R) -> (r: Self)
        ensures
            *r.local == local,
            *r.exch == exch,
            r.reader == reader,
    {
        Asset { local: Box::new(local), exch: Box::new(exch), reader }
    }
}

/// How the simulated exchange fills orders.
#[derive(Clone, Copy, Debug, PartialEq, Eq, Structural)]
pub enum ExchangeKind {
    NoPartialFillExchange,
    PartialFillExchange,
}

impl Default for ExchangeKind {
    fn default() -> (r: Self)
        ensures
            r == ExchangeKind::PartialFillExchange,
    {
        ExchangeKind::PartialFillExchange
    }
}

/// Order entry and response latencies that never change.
#[derive(Clone, Copy, Debug)]
pub struct ConstantLatency {
    entry_latency: i64,
    response_latency: i64,
}

impl ConstantLatency {
    pub fn new(entry_latency: i64, response_latency: i64) -> (r: Self)
        ensures
            r.spec_entry() == entry_latency,
            r.spec_response() == response_latency,
    {
        ConstantLatency { entry_latency, response_latency }
    }

    pub closed spec fn spec_entry(self) -> i64 {
        self.entry_latency
    }

    pub closed spec fn spec_response(self) -> i64 {
        self.response_latency
    }

    /// The order entry latency, whatever the time and order.
    pub fn entry(&self, _timestamp: i64) -> (r: i64)
        ensures
            r == self.spec_entry(),
    {
        self.entry_latency
    }

    /// The order response latency, whatever the time and order.
    pub fn response(&self, _timestamp: i64) -> (r: i64)
        ensures
            r == self.spec_response(),
    {
        self.response_latency
    }
}

/// One measured order round trip: request, exchange and response timestamps.
#[derive(Clone, Copy, Debug, PartialEq, Eq, Structural)]
pub struct OrderLatencyRow {
    pub req_ts: i64,
    pub exch_ts: i64,
    pub resp_ts: i64,
    pub _padding: i64,
}

/// The four little-endian 8-byte integer fields of a latency row, in order.
pub open spec fn latency_row_fields(fields: Seq<Field>) -> bool {
    &&& fields.len() == 4
    &&& fields[0].name@ == "req_ts"@
    &&& fields[1].name@ == "exch_ts"@
    &&& fields[2].name@ == "resp_ts"@
    &&& fields[3].name@ == "_padding"@
    &&& forall|i: int| 0 <= i < 4 ==> (#[trigger] fields[i]).ty@ == "<i8"@
}

impl NpyDTyped for OrderLatencyRow {
    fn descr() -> (r: Vec<Field>)
        ensures
            latency_row_fields(r@),
    {
        let mut fields: Vec<Field> = Vec::new();
        fields.push(Field { name: "req_ts".to_owned(), ty: "<i8".to_owned() });
        fields.push(Field { name: "exch_ts".to_owned(), ty: "<i8".to_owned() });
        fields.push(Field { name: "resp_ts".to_owned(), ty: "<i8".to_owned() });
        fields.push(Field { name: "_padding".to_owned(), ty: "<i8".to_owned() });
        fields
    }
}

/// Shifts measured latencies: the exchange timestamp by the offset, the response timestamp by
/// twice the offset (the offset applies to both legs).
pub struct OrderLatencyAdjustment {
    latency_offset: i64,
}

pub open spec fn adjusted(row: OrderLatencyRow, offset: i64) -> OrderLatencyRow {
    OrderLatencyRow {
        exch_ts: (row.exch_ts + offset) as i64,
        resp_ts: (row.resp_ts + 2 * offset) as i64,
        ..row
    }
}

pub open spec fn adjustable(row: OrderLatencyRow, offset: i64) -> bool {
    &&& i64::MIN <= row.exch_ts + offset <= i64::MAX
    &&& i64::MIN <= 2 * offset <= i64::MAX
    &&& i64::MIN <= row.resp_ts + 2 * offset <= i64::MAX
}

impl OrderLatencyAdjustment {
    pub fn new(latency_offset: i64) -> (r: Self)
        ensures
            r.offset() == latency_offset,
    {
        OrderLatencyAdjustment { latency_offset }
    }

    pub closed spec fn offset(self) -> i64 {
        self.latency_offset
    }

    /// Applies the offset to every row; the shifted timestamps must fit in 64 bits.
    pub fn preprocess(&self, data: &mut Vec<OrderLatencyRow>)
        requires
            forall|i: int| 0 <= i < old(data)@.len() ==> adjustable(#[trigger] old(data)@[i], self.offset()),
        ensures
            final(data)@.len() == old(data)@.len(),
            forall|i: int| 0 <= i < old(data)@.len() ==> #[trigger] final(data)@[i] == adjusted(old(data)@[i], self.offset()),
    {
        let mut i: usize = 0;
        while i < data.len()
            invariant
                i <= data.len(),
                data@.len() == old(data)@.len(),
                forall|j: int| 0 <= j < i ==> #[trigger] data@[j] == adjusted(old(data)@[j], self.offset()),
                forall|j: int| i <= j < data@.len() ==> #[trigger] data@[j] == old(data)@[j],
                forall|j: int| 0 <= j < old(data)@.len() ==> adjustable(#[trigger] old(data)@[j], self.offset()),
            decreases data.len() - i,
        {
            let row = data[i];
            assert(adjustable(old(data)@[i as int], self.offset()));
            let twice = self.latency_offset * 2;
            let next = OrderLatencyRow {
                exch_ts: row.exch_ts + self.latency_offset,
                resp_ts: row.resp_ts + twice,
                ..row
            };
            data.set(i, next);
            i = i + 1;
        }
    }
}

/// What a latency lookup comes to: a latency read off a row, or the line through two measured
/// points `(x1, y1)` and `(x2, y2)` evaluated at `x`, negated where it stands for a request the
/// exchange rejected. The evaluation is in floating point and is left to the caller.
#[derive(Clone, Copy, Debug, PartialEq, Eq, Structural)]
pub enum LatencyLookup {
    Fixed(i64),
    Interpolate { x: i64, x1: i64, y1: i64, x2: i64, y2: i64, negate: bool },
}

/// The differences of a row's timestamps fit in 64 bits.
pub open spec fn row_spans_fit(row: OrderLatencyRow) -> bool {
    &&& i64::MIN <= row.exch_ts - row.req_ts <= i64::MAX
    &&& i64::MIN <= row.resp_ts - row.req_ts <= i64::MAX
    &&& i64::MIN <= row.resp_ts - row.exch_ts <= i64::MAX
}

pub open spec fn rows_fit(rows: Seq<OrderLatencyRow>) -> bool {
    forall|i: int| 0 <= i < rows.len() ==> row_spans_fit(#[trigger] rows[i])
}

/// The entry latency at `timestamp`, scanning forward from row `rn`: between two rows whose
/// request times bracket it, the line through their entry latencies (through their round
/// trips, negated, where either has no exchange time); past the last row, the last row's entry
/// latency. Also gives the row where the scan stopped.
pub open spec fn entry_scan(rows: Seq<OrderLatencyRow>, rn: int, timestamp: i64) -> (LatencyLookup, int)
    decreases rows.len() - rn,
{
    if rn < 0 || rn + 1 >= rows.len() {
        let last = rows[rows.len() - 1];
        (LatencyLookup::Fixed((last.exch_ts - last.req_ts) as i64), rn)
    } else {
        let row = rows[rn];
        let next = rows[rn + 1];
        if row.req_ts <= timestamp < next.req_ts {
            if row.exch_ts <= 0 || next.exch_ts <= 0 {
                (LatencyLookup::Interpolate {
                    x: timestamp,
                    x1: row.req_ts,
                    y1: (row.resp_ts - row.req_ts) as i64,
                    x2: next.req_ts,
                    y2: (next.resp_ts - next.req_ts) as i64,
                    negate: true,
                }, rn)
            } else {
                (LatencyLookup::Interpolate {
                    x: timestamp,
                    x1: row.req_ts,
                    y1: (row.exch_ts - row.req_ts) as i64,
                    x2: next.req_ts,
                    y2: (next.exch_ts - next.req_ts) as i64,
                    negate: false,
                }, rn)
            }
        } else {
            entry_scan(rows, rn + 1, timestamp)
        }
    }
}

/// The response latency at `timestamp`, scanning forward from row `rn`, as for the entry but
/// over exchange times and response legs.
pub open spec fn response_scan(rows: Seq<OrderLatencyRow>, rn: int, timestamp: i64) -> (LatencyLookup, int)
    decreases rows.len() - rn,
{
    if rn < 0 || rn + 1 >= rows.len() {
        let last = rows[rows.len() - 1];
        (LatencyLookup::Fixed((last.resp_ts - last.exch_ts) as i64), rn)
    } else {
        let row = rows[rn];
        let next = rows[rn + 1];
        if row.exch_ts <= timestamp < next.exch_ts {
            (LatencyLookup::Interpolate {
                x: timestamp,
                x1: row.exch_ts,
                y1: (row.resp_ts - row.exch_ts) as i64,
                x2: next.exch_ts,
                y2: (next.resp_ts - next.exch_ts) as i64,
                negate: false,
            }, rn)
        } else {
            response_scan(rows, rn + 1, timestamp)
        }
    }
}

/// Latencies interpolated from measured order round trips, held in one vector of rows; each
/// lookup resumes from the row where the previous one of its kind stopped.
/// The rows of the data sources, one source after the other.
pub open spec fn joined(chunks: Seq<Seq<OrderLatencyRow>>) -> Seq<OrderLatencyRow>
    decreases chunks.len(),
{
    if chunks.len() == 0 {
        Seq::empty()
    } else {
        joined(chunks.drop_last()) + chunks.last()
    }
}

/// The rows of the data sources as the model reads them: joined, and shifted by the latency
/// offset where it is not zero.
pub open spec fn latency_rows(chunks: Seq<Seq<OrderLatencyRow>>, latency_offset: i64) -> Seq<OrderLatencyRow> {
    if latency_offset == 0 {
        joined(chunks)
    } else {
        joined(chunks).map_values(|row: OrderLatencyRow| adjusted(row, latency_offset))
    }
}

/// The rows of each data source.
pub open spec fn chunk_views(data: Seq<Vec<OrderLatencyRow>>) -> Seq<Seq<OrderLatencyRow>> {
    data.map_values(|c: Vec<OrderLatencyRow>| c@)
}

pub struct IntpOrderLatency {
    entry_rn: usize,
    resp_rn: usize,
    data: Vec<OrderLatencyRow>,
}

impl IntpOrderLatency {
    pub closed spec fn rows(self) -> Seq<OrderLatencyRow> {
        self.data@
    }

    pub closed spec fn entry_row(self) -> int {
        self.entry_rn as int
    }

    pub closed spec fn response_row(self) -> int {
        self.resp_rn as int
    }

    /// Both cursors stand on a row, and the rows' spans fit in 64 bits.
    pub closed spec fn wf(self) -> bool {
        &&& self.entry_rn < self.data.len() || (self.data.len() == 0 && self.entry_rn == 0)
        &&& self.resp_rn < self.data.len() || (self.data.len() == 0 && self.resp_rn == 0)
        &&& rows_fit(self.data@)
    }

    /// A model over `data`, both cursors on the first row.
    pub fn new(data: Vec<OrderLatencyRow>) -> (r: Self)
        requires
            rows_fit(data@),
        ensures
            r.wf(),
            r.rows() == data@,
            r.entry_row() == 0,
            r.response_row() == 0,
    {
        IntpOrderLatency { entry_rn: 0, resp_rn: 0, data }
    }

    /// A model over the rows of the data sources, read one source after the other, the latency
    /// offset applied to every row where it is not zero; both cursors on the first row. The
    /// shifted timestamps and the rows' spans must fit in 64 bits.
    pub fn build(data: Vec<Vec<OrderLatencyRow>>, latency_offset: i64) -> (r: Self)
        requires
            latency_offset != 0 ==> forall|i: int|
                0 <= i < joined(chunk_views(data@)).len() ==> adjustable(
                    #[trigger] joined(chunk_views(data@))[i],
                    latency_offset,
                ),
            rows_fit(latency_rows(chunk_views(data@), latency_offset)),
        ensures
            r.wf(),
            r.rows() == latency_rows(chunk_views(data@), latency_offset),
            r.entry_row() == 0,
            r.response_row() == 0,
    {
        let mut rows: Vec<OrderLatencyRow> = Vec::new();
        let mut i: usize = 0;
        while i < data.len()
            invariant
                i <= data.len(),
                rows@ == joined(chunk_views(data@).take(i as int)),
            decreases data.len() - i,
        {
            let chunk = &data[i];
            let ghost before = rows@;
            let mut k: usize = 0;
            while k < chunk.len()
                invariant
                    k <= chunk.len(),
                    rows@ == before + chunk@.take(k as int),
                decreases chunk.len() - k,
            {
                rows.push(chunk[k]);
                k = k + 1;
                assert(rows@ =~= before + chunk@.take(k as int));
            }
            proof {
                let views = chunk_views(data@);
                assert(views.take(i + 1).drop_last() =~= views.take(i as int));
                assert(views.take(i + 1).last() == chunk@);
                assert(chunk@.take(chunk.len() as int) =~= chunk@);
            }
            i = i + 1;
        }
        assert(chunk_views(data@).take(data.len() as int) =~= chunk_views(data@));
        if latency_offset != 0 {
            let adjustment = OrderLatencyAdjustment::new(latency_offset);
            let ghost raw = rows@;
            adjustment.preprocess(&mut rows);
            assert(rows@ =~= raw.map_values(|row: OrderLatencyRow| adjusted(row, latency_offset)));
        }
        IntpOrderLatency { entry_rn: 0, resp_rn: 0, data: rows }
    }

    /// The entry latency at `timestamp`: before the first request, the first row's entry
    /// latency; otherwise the scan from the entry cursor, which moves to where it stopped.
    pub fn entry(&mut self, timestamp: i64) -> (r: LatencyLookup)
        requires
            old(self).wf(),
            old(self).rows().len() > 0,
        ensures
            final(self).wf(),
            final(self).rows() == old(self).rows(),
            final(self).response_row() == old(self).response_row(),
            ({
                let rows = old(self).rows();
                if timestamp < rows[0].req_ts {
                    &&& r == LatencyLookup::Fixed((rows[0].exch_ts - rows[0].req_ts) as i64)
                    &&& final(self).entry_row() == old(self).entry_row()
                } else {
                    (r, final(self).entry_row()) == entry_scan(rows, old(self).entry_row(), timestamp)
                }
            }),
    {
        let first = self.data[0];
        proof {
            assert(row_spans_fit(self.data@[0]));
        }
        if timestamp < first.req_ts {
            return LatencyLookup::Fixed(first.exch_ts - first.req_ts);
        }
        loop
            invariant
                self.wf(),
                self.data@ == old(self).data@,
                self.resp_rn == old(self).resp_rn,
                self.data@.len() > 0,
                timestamp >= self.data@[0].req_ts,
                entry_scan(self.data@, self.entry_rn as int, timestamp) == entry_scan(
                    old(self).data@,
                    old(self).entry_rn as int,
                    timestamp,
                ),
            decreases self.data.len() - self.entry_rn,
        {
            let rn = self.entry_rn;
            if rn + 1 >= self.data.len() {
                let last = self.data[self.data.len() - 1];
                proof {
                    assert(row_spans_fit(self.data@[self.data@.len() - 1]));
                }
                return LatencyLookup::Fixed(last.exch_ts - last.req_ts);
            }
            let row = self.data[rn];
            let next = self.data[rn + 1];
            proof {
                assert(row_spans_fit(self.data@[rn as int]));
                assert(row_spans_fit(self.data@[rn + 1]));
            }
            if row.req_ts <= timestamp && timestamp < next.req_ts {
                if row.exch_ts <= 0 || next.exch_ts <= 0 {
                    return LatencyLookup::Interpolate {
                        x: timestamp,
                        x1: row.req_ts,
                        y1: row.resp_ts - row.req_ts,
                        x2: next.req_ts,
                        y2: next.resp_ts - next.req_ts,
                        negate: true,
                    };
                }
                return LatencyLookup::Interpolate {
                    x: timestamp,
                    x1: row.req_ts,
                    y1: row.exch_ts - row.req_ts,
                    x2: next.req_ts,
                    y2: next.exch_ts - next.req_ts,
                    negate: false,
                };
            }
            self.entry_rn = rn + 1;
        }
    }

    /// The response latency at `timestamp`: before the first exchange time, the first row's
    /// response leg; otherwise the scan from the response cursor, which moves to where it
    /// stopped.
    pub fn response(&mut self, timestamp: i64) -> (r: LatencyLookup)
        requires
            old(self).wf(),
            old(self).rows().len() > 0,
        ensures
            final(self).wf(),
            final(self).rows() == old(self).rows(),
            final(self).entry_row() == old(self).entry_row(),
            ({
                let rows = old(self).rows();
                if timestamp < rows[0].exch_ts {
                    &&& r == LatencyLookup::Fixed((rows[0].resp_ts - rows[0].exch_ts) as i64)
                    &&& final(self).response_row() == old(self).response_row()
                } else {
                    (r, final(self).response_row()) == response_scan(rows, old(self).response_row(), timestamp)
                }
            }),
    {
        let first = self.data[0];
        proof {
            assert(row_spans_fit(self.data@[0]));
        }
        if timestamp < first.exch_ts {
            return LatencyLookup::Fixed(first.resp_ts - first.exch_ts);
        }
        loop
            invariant
                self.wf(),
                self.data@ == old(self).data@,
                self.entry_rn == old(self).entry_rn,
                self.data@.len() > 0,
                timestamp >= self.data@[0].exch_ts,
                response_scan(self.data@, self.resp_rn as int, timestamp) == response_scan(
                    old(self).data@,
                    old(self).resp_rn as int,
                    timestamp,
                ),
            decreases self.data.len() - self.resp_rn,
        {
            let rn = self.resp_rn;
            if rn + 1 >= self.data.len() {
                let last = self.data[self.data.len() - 1];
                proof {
                    assert(row_spans_fit(self.data@[self.data@.len() - 1]));
                }
                return LatencyLookup::Fixed(last.resp_ts - last.exch_ts);
            }
            let row = self.data[rn];
            let next = self.data[rn + 1];
            proof {
                assert(row_spans_fit(self.data@[rn as int]));
                assert(row_spans_fit(self.data@[rn + 1]));
            }
            if row.exch_ts <= timestamp && timestamp < next.exch_ts {
                return LatencyLookup::Interpolate {
                    x: timestamp,
                    x1: row.exch_ts,
                    y1: row.resp_ts - row.exch_ts,
                    x2: next.exch_ts,
                    y2: next.resp_ts - next.exch_ts,
                    negate: false,
                };
            }
            self.resp_rn = rn + 1;
        }
    }
}

/// A queue model that assumes an order advances only when trades consume the queue ahead of it.
pub struct RiskAdverseQueueModel<MD>(PhantomData<MD>);

impl<MD> RiskAdverseQueueModel<MD> {
    pub fn new() -> Self {
        RiskAdverseQueueModel(PhantomData)
    }
}

/// The probability of a queue advance by `ln(1 + back) / (ln(1 + back) + ln(1 + front))`.
pub struct LogProbQueueFunc(());

impl LogProbQueueFunc {
    pub fn new() -> Self {
        LogProbQueueFunc(())
    }
}

/// The probability of a queue advance by `ln(1 + back) / ln(1 + back + front)`.
pub struct LogProbQueueFunc2(());

impl LogProbQueueFunc2 {
    pub fn new() -> Self {
        LogProbQueueFunc2(())
    }
}

} // verus!
