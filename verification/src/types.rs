//! The data model of the ledger: currency units and records, lineage
//! edges, exchange log entries, and the error taxonomy.

use vstd::prelude::*;

verus! {

/// Lifecycle state of a currency unit. A unit is minted `Circulating`
/// and moves to `Destroyed` exactly once, when it is consumed as the
/// input of a later settlement.
#[derive(Clone, Copy, Debug, PartialEq, Eq, Structural)]
pub enum CurrencyStatus {
    Circulating,
    Destroyed,
}

/// Every failure the engine reports. `DoubleSpend` and `NotFound` are
/// expected, non-fatal outcomes; `Storage` covers constraint violations
/// of the stores.
#[derive(Clone, Copy, Debug, PartialEq, Eq, Structural)]
pub enum LedgerError {
    /// The encoded transfer payload is malformed.
    Parse,
    /// The transfer failed structural or cryptographic validation.
    Validation,
    /// An input currency unit is already destroyed.
    DoubleSpend,
    /// The queried currency or transaction does not exist for this caller.
    NotFound,
    /// A store constraint was violated.
    Storage,
}

impl LedgerError {
    /// The stable numeric response code of this error, as the transport
    /// boundary reports it.
    pub fn code(&self) -> (c: i32)
        ensures
            c == match *self {
                LedgerError::Parse => 90003i32,
                LedgerError::Validation => 90004i32,
                LedgerError::DoubleSpend => 90005i32,
                LedgerError::NotFound => 90006i32,
                LedgerError::Storage => 90001i32,
            },
    {
        match *self {
            LedgerError::Parse => 90003,
            LedgerError::Validation => 90004,
            LedgerError::DoubleSpend => 90005,
            LedgerError::NotFound => 90006,
            LedgerError::Storage => 90001,
        }
    }
}

/// One currency unit as a transfer carries it: its identity, its amount
/// in the smallest currency unit, and the raw bytes of the owner's
/// public certificate.
pub struct CurrencyUnit {
    pub id: String,
    pub amount: u64,
    pub owner: Vec<u8>,
}

/// Mathematical model of a `CurrencyUnit`.
pub struct CurrencyUnitV {
    pub id: Seq<char>,
    pub amount: u64,
    pub owner: Seq<u8>,
}

impl View for CurrencyUnit {
    type V = CurrencyUnitV;

    open spec fn view(&self) -> CurrencyUnitV {
        CurrencyUnitV { id: self.id@, amount: self.amount, owner: self.owner@ }
    }
}

/// The model of a sequence of currency units.
pub open spec fn units_view(s: Seq<CurrencyUnit>) -> Seq<CurrencyUnitV> {
    s.map_values(|u: CurrencyUnit| u@)
}

/// A pre-validated transfer, as the external parsing and validation
/// component hands it over: the settlement identity, the spent input
/// units, and the original encoded payload.
pub struct Transfer {
    pub id: String,
    pub inputs: Vec<CurrencyUnit>,
    pub raw: String,
}

/// Mathematical model of a `Transfer`.
pub struct TransferV {
    pub id: Seq<char>,
    pub inputs: Seq<CurrencyUnitV>,
    pub raw: Seq<char>,
}

impl View for Transfer {
    type V = TransferV;

    open spec fn view(&self) -> TransferV {
        TransferV { id: self.id@, inputs: units_view(self.inputs@), raw: self.raw@ }
    }
}

/// One row of the currency record store: the persistent state of one
/// issued currency unit, scoped to the caller that may see it.
pub struct CurrencyRecord {
    pub currency_id: String,
    /// The settlement that last touched this unit.
    pub transaction_id: String,
    pub status: CurrencyStatus,
    /// Hex-encoded bytes of the owner's public certificate.
    pub owner: String,
    pub amount: u64,
    pub user_key: String,
    pub create_time: u64,
    pub update_time: u64,
}

/// Mathematical model of a `CurrencyRecord`.
pub struct CurrencyRecordV {
    pub currency_id: Seq<char>,
    pub transaction_id: Seq<char>,
    pub status: CurrencyStatus,
    pub owner: Seq<char>,
    pub amount: u64,
    pub user_key: Seq<char>,
    pub create_time: u64,
    pub update_time: u64,
}

impl View for CurrencyRecord {
    type V = CurrencyRecordV;

    open spec fn view(&self) -> CurrencyRecordV {
        CurrencyRecordV {
            currency_id: self.currency_id@,
            transaction_id: self.transaction_id@,
            status: self.status,
            owner: self.owner@,
            amount: self.amount,
            user_key: self.user_key@,
            create_time: self.create_time,
            update_time: self.update_time,
        }
    }
}

/// The model of a sequence of currency records.
pub open spec fn records_view(s: Seq<CurrencyRecord>) -> Seq<CurrencyRecordV> {
    s.map_values(|r: CurrencyRecord| r@)
}

/// One provenance edge of the lineage store: the value of `output_id`
/// traces back through `input_id`. Edges are immutable once written.
pub struct LineageEdge {
    pub output_id: String,
    pub input_id: String,
    pub user_key: String,
    pub create_time: u64,
}

/// Mathematical model of a `LineageEdge`.
pub struct LineageEdgeV {
    pub output_id: Seq<char>,
    pub input_id: Seq<char>,
    pub user_key: Seq<char>,
    pub create_time: u64,
}

impl View for LineageEdge {
    type V = LineageEdgeV;

    open spec fn view(&self) -> LineageEdgeV {
        LineageEdgeV {
            output_id: self.output_id@,
            input_id: self.input_id@,
            user_key: self.user_key@,
            create_time: self.create_time,
        }
    }
}

/// The model of a sequence of lineage edges.
pub open spec fn edges_view(s: Seq<LineageEdge>) -> Seq<LineageEdgeV> {
    s.map_values(|e: LineageEdge| e@)
}

/// One entry of the append-only exchange log: a settled transfer with
/// its structured input units, its original encoded payload and the
/// total minted amount.
pub struct ExchangeRecord {
    pub transaction_id: String,
    pub user_key: String,
    /// The structured form of the settled transfer: its input units.
    pub trans_info: Vec<CurrencyUnit>,
    /// The original encoded transfer payload.
    pub trans_bin: String,
    /// Total amount over the settlement's minted outputs.
    pub amount: u64,
    pub create_time: u64,
}

/// Mathematical model of an `ExchangeRecord`.
pub struct ExchangeRecordV {
    pub transaction_id: Seq<char>,
    pub user_key: Seq<char>,
    pub trans_info: Seq<CurrencyUnitV>,
    pub trans_bin: Seq<char>,
    pub amount: u64,
    pub create_time: u64,
}

impl View for ExchangeRecord {
    type V = ExchangeRecordV;

    open spec fn view(&self) -> ExchangeRecordV {
        ExchangeRecordV {
            transaction_id: self.transaction_id@,
            user_key: self.user_key@,
            trans_info: units_view(self.trans_info@),
            trans_bin: self.trans_bin@,
            amount: self.amount,
            create_time: self.create_time,
        }
    }
}

/// The model of a sequence of exchange records.
pub open spec fn exchanges_view(s: Seq<ExchangeRecord>) -> Seq<ExchangeRecordV> {
    s.map_values(|e: ExchangeRecord| e@)
}

/// The model of a sequence of owned strings.
pub open spec fn strings_view(s: Seq<String>) -> Seq<Seq<char>> {
    s.map_values(|x: String| x@)
}

impl ExchangeRecord {
    /// An exact copy of this log entry.
    pub fn duplicate(&self) -> (r: ExchangeRecord)
        ensures
            r@ == self@,
    {
        ExchangeRecord {
            transaction_id: self.transaction_id.clone(),
            user_key: self.user_key.clone(),
            trans_info: clone_units(&self.trans_info),
            trans_bin: self.trans_bin.clone(),
            amount: self.amount,
            create_time: self.create_time,
        }
    }
}

impl CurrencyUnit {
    /// An exact copy of this unit.
    pub fn duplicate(&self) -> (r: CurrencyUnit)
        ensures
            r@ == self@,
    {
        CurrencyUnit { id: self.id.clone(), amount: self.amount, owner: clone_bytes(&self.owner) }
    }
}

/// An exact copy of a byte vector.
pub fn clone_bytes(v: &Vec<u8>) -> (r: Vec<u8>)
    ensures
        r@ == v@,
{
    let mut out: Vec<u8> = Vec::new();
    let mut i: usize = 0;
    while i < v.len()
        invariant
            i <= v.len(),
            out@ == v@.take(i as int),
        decreases v.len() - i,
    {
        out.push(v[i]);
        proof {
            assert(v@.take(i + 1 as int) =~= v@.take(i as int).push(v@[i as int]));
        }
        i = i + 1;
    }
    proof {
        assert(v@.take(v@.len() as int) =~= v@);
    }
    out
}

impl CurrencyRecord {
    /// An exact copy of this record.
    pub fn duplicate(&self) -> (r: CurrencyRecord)
        ensures
            r@ == self@,
    {
        CurrencyRecord {
            currency_id: self.currency_id.clone(),
            transaction_id: self.transaction_id.clone(),
            status: self.status,
            owner: self.owner.clone(),
            amount: self.amount,
            user_key: self.user_key.clone(),
            create_time: self.create_time,
            update_time: self.update_time,
        }
    }
}

/// An exact copy of a vector of currency records.
pub fn clone_records(v: &Vec<CurrencyRecord>) -> (r: Vec<CurrencyRecord>)
    ensures
        records_view(r@) == records_view(v@),
{
    let mut out: Vec<CurrencyRecord> = Vec::new();
    let mut i: usize = 0;
    while i < v.len()
        invariant
            i <= v.len(),
            records_view(out@) == records_view(v@.take(i as int)),
        decreases v.len() - i,
    {
        let u = v[i].duplicate();
        out.push(u);
        proof {
            assert(v@.take(i + 1 as int) =~= v@.take(i as int).push(v@[i as int]));
            assert(records_view(v@.take(i as int).push(v@[i as int])) =~= records_view(
                v@.take(i as int),
            ).push(v@[i as int]@));
        }
        i = i + 1;
    }
    proof {
        assert(v@.take(v@.len() as int) =~= v@);
    }
    out
}

/// An exact copy of a vector of currency units.
pub fn clone_units(v: &Vec<CurrencyUnit>) -> (r: Vec<CurrencyUnit>)
    ensures
        units_view(r@) == units_view(v@),
{
    let mut out: Vec<CurrencyUnit> = Vec::new();
    let mut i: usize = 0;
    while i < v.len()
        invariant
            i <= v.len(),
            units_view(out@) == units_view(v@.take(i as int)),
        decreases v.len() - i,
    {
        let u = v[i].duplicate();
        out.push(u);
        proof {
            assert(v@.take(i + 1 as int) =~= v@.take(i as int).push(v@[i as int]));
            assert(units_view(v@.take(i as int).push(v@[i as int])) =~= units_view(
                v@.take(i as int),
            ).push(v@[i as int]@));
        }
        i = i + 1;
    }
    proof {
        assert(v@.take(v@.len() as int) =~= v@);
    }
    out
}

} // verus!
