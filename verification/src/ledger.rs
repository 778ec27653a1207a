//! The settlement engine: the ledger state, its well-formedness
//! invariant, the mathematical model of one settlement, and the
//! executable settlement that is proved to follow that model.

use vstd::prelude::*;
use crate::types::{
    CurrencyRecord, CurrencyRecordV, CurrencyStatus, CurrencyUnit, CurrencyUnitV, ExchangeRecord,
    ExchangeRecordV, LedgerError, LineageEdge, LineageEdgeV, Transfer, TransferV, clone_records, clone_units,
    edges_view, exchanges_view, records_view, strings_view, units_view,
};
use crate::hexcodec::hex_encode_seq;
use crate::hexcodec::hex_encode_call;

verus! {

/// Mathematical model of the whole ledger: the three stores.
#[verifier::ext_equal]
pub struct LedgerV {
    pub currencies: Seq<CurrencyRecordV>,
    pub lineage: Seq<LineageEdgeV>,
    pub exchanges: Seq<ExchangeRecordV>,
}

/// The ledger: the currency record store, the lineage store and the
/// exchange log. All settlements and queries go through its methods.
pub struct Ledger {
    pub currencies: Vec<CurrencyRecord>,
    pub lineage: Vec<LineageEdge>,
    pub exchanges: Vec<ExchangeRecord>,
}

impl View for Ledger {
    type V = LedgerV;

    open spec fn view(&self) -> LedgerV {
        LedgerV {
            currencies: records_view(self.currencies@),
            lineage: edges_view(self.lineage@),
            exchanges: exchanges_view(self.exchanges@),
        }
    }
}

/// Index of the first currency record for `(id, uk)`, or -1 when there
/// is none.
pub open spec fn find_currency(s: Seq<CurrencyRecordV>, id: Seq<char>, uk: Seq<char>) -> int
    decreases s.len(),
{
    if s.len() == 0 {
        -1
    } else if s[0].currency_id == id && s[0].user_key == uk {
        0
    } else {
        let r = find_currency(s.drop_first(), id, uk);
        if r < 0 {
            -1
        } else {
            r + 1
        }
    }
}

/// Index of the first exchange record for `(txid, uk)`, or -1 when
/// there is none.
pub open spec fn find_exchange(s: Seq<ExchangeRecordV>, txid: Seq<char>, uk: Seq<char>) -> int
    decreases s.len(),
{
    if s.len() == 0 {
        -1
    } else if s[0].transaction_id == txid && s[0].user_key == uk {
        0
    } else {
        let r = find_exchange(s.drop_first(), txid, uk);
        if r < 0 {
            -1
        } else {
            r + 1
        }
    }
}

/// Total amount over a sequence of currency units.
pub open spec fn sum_units(s: Seq<CurrencyUnitV>) -> int
    decreases s.len(),
{
    if s.len() == 0 {
        0
    } else {
        sum_units(s.drop_last()) + s.last().amount
    }
}

/// Total amount over a sequence of currency records.
pub open spec fn sum_records(s: Seq<CurrencyRecordV>) -> int
    decreases s.len(),
{
    if s.len() == 0 {
        0
    } else {
        sum_records(s.drop_last()) + s.last().amount
    }
}

/// No two currency records share an identity within one caller's scope.
pub open spec fn unique_currencies(s: Seq<CurrencyRecordV>) -> bool {
    forall|i: int, j: int|
        0 <= i < j < s.len() ==> !((#[trigger] s[i]).currency_id == (#[trigger] s[j]).currency_id
            && s[i].user_key == s[j].user_key)
}

/// At most one exchange log entry per settlement within one caller's
/// scope.
pub open spec fn unique_exchanges(s: Seq<ExchangeRecordV>) -> bool {
    forall|i: int, j: int|
        0 <= i < j < s.len() ==> !((#[trigger] s[i]).transaction_id == (
        #[trigger] s[j]).transaction_id && s[i].user_key == s[j].user_key)
}

/// Every currency record's owning settlement is logged: some exchange
/// entry carries the same transaction id for the same caller.
pub open spec fn txids_logged(cur: Seq<CurrencyRecordV>, exs: Seq<ExchangeRecordV>) -> bool {
    forall|i: int|
        0 <= i < cur.len() ==> exists|j: int|
            0 <= j < exs.len() && (#[trigger] exs[j]).transaction_id == (
            #[trigger] cur[i]).transaction_id && exs[j].user_key == cur[i].user_key
}

impl LedgerV {
    /// Well-formedness of the ledger: unique currency identities and
    /// settlement log entries per caller, every record traced to a
    /// logged settlement, and amount totals that stay within machine
    /// bounds.
    pub open spec fn wf(self) -> bool {
        &&& unique_currencies(self.currencies)
        &&& unique_exchanges(self.exchanges)
        &&& txids_logged(self.currencies, self.exchanges)
        &&& sum_records(self.currencies) <= u64::MAX
        &&& forall|j: int|
            0 <= j < self.exchanges.len() ==> sum_units(
                (#[trigger] self.exchanges[j]).trans_info,
            ) <= u64::MAX
    }
}

impl Ledger {
    /// Well-formedness of the ledger state.
    pub open spec fn wf(self) -> bool {
        self@.wf()
    }

    /// An empty ledger.
    pub fn new() -> (r: Ledger)
        ensures
            r.wf(),
            r@.currencies == Seq::<CurrencyRecordV>::empty(),
            r@.lineage == Seq::<LineageEdgeV>::empty(),
            r@.exchanges == Seq::<ExchangeRecordV>::empty(),
    {
        let r = Ledger { currencies: Vec::new(), lineage: Vec::new(), exchanges: Vec::new() };
        proof {
            assert(r@.currencies =~= Seq::<CurrencyRecordV>::empty());
            assert(r@.lineage =~= Seq::<LineageEdgeV>::empty());
            assert(r@.exchanges =~= Seq::<ExchangeRecordV>::empty());
        }
        r
    }
}

/// What `find_currency` returns: -1 means no record matches, a
/// non-negative index is the first match.
pub proof fn lemma_find_currency_props(s: Seq<CurrencyRecordV>, id: Seq<char>, uk: Seq<char>)
    ensures
        find_currency(s, id, uk) == -1 ==> forall|i: int|
            0 <= i < s.len() ==> !((#[trigger] s[i]).currency_id == id && s[i].user_key == uk),
        find_currency(s, id, uk) != -1 ==> {
            let f = find_currency(s, id, uk);
            &&& 0 <= f < s.len()
            &&& s[f].currency_id == id
            &&& s[f].user_key == uk
            &&& forall|i: int|
                0 <= i < f ==> !((#[trigger] s[i]).currency_id == id && s[i].user_key == uk)
        },
    decreases s.len(),
{
    if s.len() != 0 {
        if !(s[0].currency_id == id && s[0].user_key == uk) {
            lemma_find_currency_props(s.drop_first(), id, uk);
            assert(forall|i: int| 1 <= i < s.len() ==> s[i] == s.drop_first()[i - 1]);
        }
    }
}

/// What `find_exchange` returns: -1 means no entry matches, a
/// non-negative index is the first match.
pub proof fn lemma_find_exchange_props(s: Seq<ExchangeRecordV>, txid: Seq<char>, uk: Seq<char>)
    ensures
        find_exchange(s, txid, uk) == -1 ==> forall|i: int|
            0 <= i < s.len() ==> !((#[trigger] s[i]).transaction_id == txid && s[i].user_key == uk),
        find_exchange(s, txid, uk) != -1 ==> {
            let f = find_exchange(s, txid, uk);
            &&& 0 <= f < s.len()
            &&& s[f].transaction_id == txid
            &&& s[f].user_key == uk
            &&& forall|i: int|
                0 <= i < f ==> !((#[trigger] s[i]).transaction_id == txid && s[i].user_key == uk)
        },
    decreases s.len(),
{
    if s.len() != 0 {
        if !(s[0].transaction_id == txid && s[0].user_key == uk) {
            lemma_find_exchange_props(s.drop_first(), txid, uk);
            assert(forall|i: int| 1 <= i < s.len() ==> s[i] == s.drop_first()[i - 1]);
        }
    }
}

/// Looks up the currency record for `(id, uk)`; the result is exactly
/// what `find_currency` names on the store's model.
pub fn find_record(v: &Vec<CurrencyRecord>, id: &String, uk: &String) -> (r: Option<usize>)
    ensures
        match r {
            Option::None => find_currency(records_view(v@), id@, uk@) == -1,
            Option::Some(i) => find_currency(records_view(v@), id@, uk@) == i as int
                && i < v.len(),
        },
{
    let mut i: usize = 0;
    while i < v.len()
        invariant
            i <= v.len(),
            forall|j: int|
                0 <= j < i ==> !((#[trigger] records_view(v@)[j]).currency_id == id@
                    && records_view(v@)[j].user_key == uk@),
        decreases v.len() - i,
    {
        if v[i].currency_id == *id && v[i].user_key == *uk {
            proof {
                let s = records_view(v@);
                lemma_find_currency_props(s, id@, uk@);
                let f = find_currency(s, id@, uk@);
                assert(s[i as int].currency_id == id@ && s[i as int].user_key == uk@);
                if f == -1 {
                    assert(false);
                } else {
                    assert(!(f < i) && !(i < f));
                }
            }
            return Some(i);
        }
        i = i + 1;
    }
    proof {
        let s = records_view(v@);
        lemma_find_currency_props(s, id@, uk@);
        let f = find_currency(s, id@, uk@);
        if f != -1 {
            assert(false);
        }
    }
    None
}

/// Looks up the exchange log entry for `(txid, uk)`; the result is
/// exactly what `find_exchange` names on the log's model.
pub fn find_exchange_entry(v: &Vec<ExchangeRecord>, txid: &String, uk: &String) -> (r: Option<
    usize,
>)
    ensures
        match r {
            Option::None => find_exchange(exchanges_view(v@), txid@, uk@) == -1,
            Option::Some(i) => find_exchange(exchanges_view(v@), txid@, uk@) == i as int
                && i < v.len(),
        },
{
    let mut i: usize = 0;
    while i < v.len()
        invariant
            i <= v.len(),
            forall|j: int|
                0 <= j < i ==> !((#[trigger] exchanges_view(v@)[j]).transaction_id == txid@
                    && exchanges_view(v@)[j].user_key == uk@),
        decreases v.len() - i,
    {
        if v[i].transaction_id == *txid && v[i].user_key == *uk {
            proof {
                let s = exchanges_view(v@);
                lemma_find_exchange_props(s, txid@, uk@);
                let f = find_exchange(s, txid@, uk@);
                assert(s[i as int].transaction_id == txid@ && s[i as int].user_key == uk@);
                if f == -1 {
                    assert(false);
                } else {
                    assert(!(f < i) && !(i < f));
                }
            }
            return Some(i);
        }
        i = i + 1;
    }
    proof {
        let s = exchanges_view(v@);
        lemma_find_exchange_props(s, txid@, uk@);
        let f = find_exchange(s, txid@, uk@);
        if f != -1 {
            assert(false);
        }
    }
    None
}


/// The record a first-seen input leaves behind: the unit's mint was
/// not locally recorded, so it is inserted directly in destroyed state.
pub open spec fn destroyed_record(
    u: CurrencyUnitV,
    uk: Seq<char>,
    txid: Seq<char>,
    now: u64,
) -> CurrencyRecordV {
    CurrencyRecordV {
        currency_id: u.id,
        transaction_id: txid,
        status: CurrencyStatus::Destroyed,
        owner: hex_encode_seq(u.owner),
        amount: u.amount,
        user_key: uk,
        create_time: now,
        update_time: now,
    }
}

/// The updated record of a circulating unit that a settlement spends:
/// destroyed, re-owned, and stamped with the spending settlement.
pub open spec fn spent_record(
    r: CurrencyRecordV,
    u: CurrencyUnitV,
    txid: Seq<char>,
    now: u64,
) -> CurrencyRecordV {
    CurrencyRecordV {
        currency_id: r.currency_id,
        transaction_id: txid,
        status: CurrencyStatus::Destroyed,
        owner: hex_encode_seq(u.owner),
        amount: r.amount,
        user_key: r.user_key,
        create_time: r.create_time,
        update_time: now,
    }
}

/// The record of a freshly minted output unit: circulating, owned by
/// the minting settlement.
pub open spec fn minted_record(
    u: CurrencyUnitV,
    uk: Seq<char>,
    txid: Seq<char>,
    now: u64,
) -> CurrencyRecordV {
    CurrencyRecordV {
        currency_id: u.id,
        transaction_id: txid,
        status: CurrencyStatus::Circulating,
        owner: hex_encode_seq(u.owner),
        amount: u.amount,
        user_key: uk,
        create_time: now,
        update_time: now,
    }
}

/// What processing the inputs of a settlement, in order, does to the
/// currency record store: an absent unit is inserted destroyed, a
/// circulating unit is spent, an already destroyed unit is a double
/// spend and fails the whole settlement.
pub open spec fn process_inputs(
    cur: Seq<CurrencyRecordV>,
    uk: Seq<char>,
    txid: Seq<char>,
    ins: Seq<CurrencyUnitV>,
    now: u64,
) -> Option<Seq<CurrencyRecordV>>
    decreases ins.len(),
{
    if ins.len() == 0 {
        Some(cur)
    } else {
        let u = ins[0];
        let f = find_currency(cur, u.id, uk);
        if f < 0 {
            process_inputs(cur.push(destroyed_record(u, uk, txid, now)), uk, txid, ins.drop_first(), now)
        } else if cur[f].status == CurrencyStatus::Destroyed {
            None
        } else {
            process_inputs(cur.update(f, spent_record(cur[f], u, txid, now)), uk, txid, ins.drop_first(), now)
        }
    }
}

/// What inserting the minted outputs of a settlement, in order, does
/// to the currency record store; a unit whose identity is already
/// present violates the store's uniqueness constraint and fails the
/// settlement.
pub open spec fn insert_outputs(
    cur: Seq<CurrencyRecordV>,
    uk: Seq<char>,
    txid: Seq<char>,
    outs: Seq<CurrencyUnitV>,
    now: u64,
) -> Option<Seq<CurrencyRecordV>>
    decreases outs.len(),
{
    if outs.len() == 0 {
        Some(cur)
    } else {
        let u = outs[0];
        if find_currency(cur, u.id, uk) >= 0 {
            None
        } else {
            insert_outputs(cur.push(minted_record(u, uk, txid, now)), uk, txid, outs.drop_first(), now)
        }
    }
}

/// The identities of a sequence of currency units.
pub open spec fn unit_ids(s: Seq<CurrencyUnitV>) -> Seq<Seq<char>> {
    s.map_values(|u: CurrencyUnitV| u.id)
}

/// One lineage edge.
pub open spec fn edge_row(o: Seq<char>, i: Seq<char>, uk: Seq<char>, now: u64) -> LineageEdgeV {
    LineageEdgeV { output_id: o, input_id: i, user_key: uk, create_time: now }
}

/// The lineage edges linking one output to every input, in input order.
pub open spec fn edges_for_output(
    o: Seq<char>,
    ins: Seq<Seq<char>>,
    uk: Seq<char>,
    now: u64,
) -> Seq<LineageEdgeV>
    decreases ins.len(),
{
    if ins.len() == 0 {
        Seq::empty()
    } else {
        edges_for_output(o, ins.drop_last(), uk, now).push(edge_row(o, ins.last(), uk, now))
    }
}

/// The full cross product of lineage edges a settlement writes: for
/// every output, one edge per input, outputs outermost.
pub open spec fn new_edges(
    outs: Seq<Seq<char>>,
    ins: Seq<Seq<char>>,
    uk: Seq<char>,
    now: u64,
) -> Seq<LineageEdgeV>
    decreases outs.len(),
{
    if outs.len() == 0 {
        Seq::empty()
    } else {
        new_edges(outs.drop_last(), ins, uk, now) + edges_for_output(outs.last(), ins, uk, now)
    }
}

/// The exchange log entry a settlement appends.
pub open spec fn exchange_entry(
    uk: Seq<char>,
    t: TransferV,
    total: u64,
    now: u64,
) -> ExchangeRecordV {
    ExchangeRecordV {
        transaction_id: t.id,
        user_key: uk,
        trans_info: t.inputs,
        trans_bin: t.raw,
        amount: total,
        create_time: now,
    }
}

/// The mathematical model of one settlement: process the inputs,
/// insert the minted outputs, refuse a replayed settlement identity,
/// and on success extend the lineage store and the exchange log. Any
/// failure leaves the ledger exactly as it was.
pub open spec fn settle_model(
    l: LedgerV,
    uk: Seq<char>,
    t: TransferV,
    outs: Seq<CurrencyUnitV>,
    now: u64,
) -> Result<(LedgerV, Seq<Seq<char>>), LedgerError> {
    match process_inputs(l.currencies, uk, t.id, t.inputs, now) {
        Option::None => Result::Err(LedgerError::DoubleSpend),
        Option::Some(cur1) => match insert_outputs(cur1, uk, t.id, outs, now) {
            Option::None => Result::Err(LedgerError::Storage),
            Option::Some(cur2) => if find_exchange(l.exchanges, t.id, uk) >= 0 {
                Result::Err(LedgerError::Storage)
            } else {
                Result::Ok(
                    (
                        LedgerV {
                            currencies: cur2,
                            lineage: l.lineage + new_edges(unit_ids(outs), unit_ids(t.inputs), uk, now),
                            exchanges: l.exchanges.push(
                                exchange_entry(uk, t, sum_units(outs) as u64, now),
                            ),
                        },
                        unit_ids(outs),
                    ),
                )
            },
        },
    }
}

/// The settlement result as the mathematical model states it.
pub open spec fn lift_settle_result(r: Result<Vec<String>, LedgerError>) -> Result<
    Seq<Seq<char>>,
    LedgerError,
> {
    match r {
        Result::Ok(v) => Result::Ok(strings_view(v@)),
        Result::Err(e) => Result::Err(e),
    }
}

/// The full contract of a settlement: the returned value and the
/// ledger afterwards are exactly what `settle_model` names, and any
/// failure leaves the ledger unchanged.
pub open spec fn settle_post(
    pre: LedgerV,
    post: LedgerV,
    uk: Seq<char>,
    t: TransferV,
    outs: Seq<CurrencyUnitV>,
    now: u64,
    r: Result<Seq<Seq<char>>, LedgerError>,
) -> bool {
    match settle_model(pre, uk, t, outs, now) {
        Result::Ok(p) => r == Result::Ok::<Seq<Seq<char>>, LedgerError>(p.1) && post == p.0,
        Result::Err(e) => r == Result::Err::<Seq<Seq<char>>, LedgerError>(e) && post == pre,
    }
}


/// Amount totals are non-negative.
pub proof fn lemma_sum_units_nonneg(s: Seq<CurrencyUnitV>)
    ensures
        0 <= sum_units(s),
    decreases s.len(),
{
    if s.len() != 0 {
        lemma_sum_units_nonneg(s.drop_last());
    }
}

/// Amount totals are non-negative.
pub proof fn lemma_sum_records_nonneg(s: Seq<CurrencyRecordV>)
    ensures
        0 <= sum_records(s),
    decreases s.len(),
{
    if s.len() != 0 {
        lemma_sum_records_nonneg(s.drop_last());
    }
}

/// A unit total can also be split off at the front.
pub proof fn lemma_sum_units_drop_first(s: Seq<CurrencyUnitV>)
    requires
        s.len() > 0,
    ensures
        sum_units(s) == s[0].amount + sum_units(s.drop_first()),
    decreases s.len(),
{
    if s.len() == 1 {
        assert(s.drop_first() =~= Seq::<CurrencyUnitV>::empty());
        assert(s.drop_last() =~= Seq::<CurrencyUnitV>::empty());
    } else {
        lemma_sum_units_drop_first(s.drop_last());
        assert(s.drop_last().drop_first() =~= s.drop_first().drop_last());
        assert(s.drop_first().last() == s.last());
        assert(s.drop_last()[0] == s[0]);
    }
}

/// Appending a record adds its amount to the total.
pub proof fn lemma_sum_records_push(s: Seq<CurrencyRecordV>, r: CurrencyRecordV)
    ensures
        sum_records(s.push(r)) == sum_records(s) + r.amount,
{
    assert(s.push(r).drop_last() =~= s);
}

/// Replacing a record swaps its amount in the total.
pub proof fn lemma_sum_records_update(s: Seq<CurrencyRecordV>, i: int, r: CurrencyRecordV)
    requires
        0 <= i < s.len(),
    ensures
        sum_records(s.update(i, r)) == sum_records(s) - s[i].amount + r.amount,
    decreases s.len(),
{
    if i == s.len() - 1 {
        assert(s.update(i, r).drop_last() =~= s.drop_last());
        assert(s.update(i, r).last() == r);
    } else {
        lemma_sum_records_update(s.drop_last(), i, r);
        assert(s.update(i, r).drop_last() =~= s.drop_last().update(i, r));
        assert(s.update(i, r).last() == s.last());
    }
}

/// One more element extends a prefix total by its amount.
pub proof fn lemma_sum_units_take_step(s: Seq<CurrencyUnitV>, k: int)
    requires
        0 <= k < s.len(),
    ensures
        sum_units(s.take(k + 1)) == sum_units(s.take(k)) + s[k].amount,
{
    assert(s.take(k + 1).drop_last() =~= s.take(k));
    assert(s.take(k + 1).last() == s[k]);
}

/// A prefix total never exceeds the whole total.
pub proof fn lemma_sum_units_take_le(s: Seq<CurrencyUnitV>, k: int)
    requires
        0 <= k <= s.len(),
    ensures
        sum_units(s.take(k)) <= sum_units(s),
    decreases s.len() - k,
{
    if k == s.len() {
        assert(s.take(k) =~= s);
    } else {
        lemma_sum_units_take_step(s, k);
        lemma_sum_units_take_le(s, k + 1);
    }
}

/// Every record either traces to a logged settlement or belongs to the
/// settlement `(txid, uk)` now being written.
pub open spec fn covered(
    cur: Seq<CurrencyRecordV>,
    exs: Seq<ExchangeRecordV>,
    txid: Seq<char>,
    uk: Seq<char>,
) -> bool {
    forall|i: int|
        0 <= i < cur.len() ==> ((#[trigger] cur[i]).transaction_id == txid && cur[i].user_key == uk)
            || exists|j: int|
            0 <= j < exs.len() && (#[trigger] exs[j]).transaction_id == cur[i].transaction_id
                && exs[j].user_key == cur[i].user_key
}

/// Processing the inputs of a settlement preserves the store's
/// invariants: identities stay unique, the amount total grows by at
/// most the inputs' total, and every row still traces to a logged
/// settlement or to the one being written.
pub proof fn lemma_process_inputs_preserves(
    cur: Seq<CurrencyRecordV>,
    uk: Seq<char>,
    txid: Seq<char>,
    ins: Seq<CurrencyUnitV>,
    now: u64,
    exs: Seq<ExchangeRecordV>,
)
    ensures
        process_inputs(cur, uk, txid, ins, now) matches Some(cur2) ==> {
            &&& (unique_currencies(cur) ==> unique_currencies(cur2))
            &&& sum_records(cur2) <= sum_records(cur) + sum_units(ins)
            &&& (covered(cur, exs, txid, uk) ==> covered(cur2, exs, txid, uk))
        },
    decreases ins.len(),
{
    if ins.len() != 0 && process_inputs(cur, uk, txid, ins, now) is Some {
        let u = ins[0];
        let f = find_currency(cur, u.id, uk);
        lemma_find_currency_props(cur, u.id, uk);
        lemma_sum_units_drop_first(ins);
        lemma_sum_units_nonneg(ins.drop_first());
        if f < 0 {
            let cur1 = cur.push(destroyed_record(u, uk, txid, now));
            lemma_sum_records_push(cur, destroyed_record(u, uk, txid, now));
            lemma_process_inputs_preserves(cur1, uk, txid, ins.drop_first(), now, exs);
            if unique_currencies(cur) {
                assert forall|i: int, j: int| 0 <= i < j < cur1.len() implies !((
                #[trigger] cur1[i]).currency_id == (#[trigger] cur1[j]).currency_id
                    && cur1[i].user_key == cur1[j].user_key) by {
                    if j == cur.len() {
                        assert(cur1[j] == destroyed_record(u, uk, txid, now));
                        assert(cur1[i] == cur[i]);
                    }
                }
            }
        } else if cur[f].status == CurrencyStatus::Destroyed {
        } else {
            let r2 = spent_record(cur[f], u, txid, now);
            let cur1 = cur.update(f, r2);
            lemma_sum_records_update(cur, f, r2);
            lemma_process_inputs_preserves(cur1, uk, txid, ins.drop_first(), now, exs);
            if covered(cur, exs, txid, uk) {
                assert forall|i: int|
                    0 <= i < cur1.len() implies ((#[trigger] cur1[i]).transaction_id == txid
                    && cur1[i].user_key == uk) || exists|j: int|
                    0 <= j < exs.len() && (#[trigger] exs[j]).transaction_id
                        == cur1[i].transaction_id && exs[j].user_key == cur1[i].user_key by {
                    if i == f {
                        assert(cur1[i].transaction_id == txid && cur1[i].user_key == uk);
                    } else {
                        assert(cur1[i] == cur[i]);
                    }
                }
            }
        }
    }
}

/// Inserting the minted outputs preserves the store's invariants and
/// grows the amount total by exactly the outputs' total.
pub proof fn lemma_insert_outputs_preserves(
    cur: Seq<CurrencyRecordV>,
    uk: Seq<char>,
    txid: Seq<char>,
    outs: Seq<CurrencyUnitV>,
    now: u64,
    exs: Seq<ExchangeRecordV>,
)
    ensures
        insert_outputs(cur, uk, txid, outs, now) matches Some(cur2) ==> {
            &&& (unique_currencies(cur) ==> unique_currencies(cur2))
            &&& sum_records(cur2) == sum_records(cur) + sum_units(outs)
            &&& (covered(cur, exs, txid, uk) ==> covered(cur2, exs, txid, uk))
        },
    decreases outs.len(),
{
    if outs.len() != 0 && insert_outputs(cur, uk, txid, outs, now) is Some {
        let u = outs[0];
        lemma_find_currency_props(cur, u.id, uk);
        lemma_sum_units_drop_first(outs);
        let cur1 = cur.push(minted_record(u, uk, txid, now));
        lemma_sum_records_push(cur, minted_record(u, uk, txid, now));
        lemma_insert_outputs_preserves(cur1, uk, txid, outs.drop_first(), now, exs);
        if unique_currencies(cur) {
            assert forall|i: int, j: int| 0 <= i < j < cur1.len() implies !((
            #[trigger] cur1[i]).currency_id == (#[trigger] cur1[j]).currency_id
                && cur1[i].user_key == cur1[j].user_key) by {
                if j == cur.len() {
                    assert(cur1[j] == minted_record(u, uk, txid, now));
                    assert(cur1[i] == cur[i]);
                }
            }
        }
    }
}

/// A successful settlement leaves a well-formed ledger.
pub proof fn lemma_settle_model_wf(
    l: LedgerV,
    uk: Seq<char>,
    t: TransferV,
    outs: Seq<CurrencyUnitV>,
    now: u64,
)
    requires
        l.wf(),
        sum_records(l.currencies) + sum_units(t.inputs) + sum_units(outs) <= u64::MAX,
    ensures
        settle_model(l, uk, t, outs, now) matches Ok(p) ==> p.0.wf(),
{
    if settle_model(l, uk, t, outs, now) is Ok {
        let cur1 = process_inputs(l.currencies, uk, t.id, t.inputs, now).unwrap();
        let cur2 = insert_outputs(cur1, uk, t.id, outs, now).unwrap();
        let entry = exchange_entry(uk, t, sum_units(outs) as u64, now);
        let exs2 = l.exchanges.push(entry);
        lemma_process_inputs_preserves(l.currencies, uk, t.id, t.inputs, now, l.exchanges);
        lemma_insert_outputs_preserves(cur1, uk, t.id, outs, now, l.exchanges);
        lemma_sum_units_nonneg(t.inputs);
        lemma_sum_units_nonneg(outs);
        lemma_sum_records_nonneg(l.currencies);
        lemma_find_exchange_props(l.exchanges, t.id, uk);
        // the two currency stages keep identities unique
        assert(unique_currencies(cur2));
        // the settlement identity is fresh, so the log stays unique
        assert forall|i: int, j: int| 0 <= i < j < exs2.len() implies !((
        #[trigger] exs2[i]).transaction_id == (#[trigger] exs2[j]).transaction_id
            && exs2[i].user_key == exs2[j].user_key) by {
            if j == l.exchanges.len() {
                assert(exs2[j] == entry);
                assert(exs2[i] == l.exchanges[i]);
            }
        }
        // every record traces to a logged settlement, the new rows to
        // the entry appended now
        assert(covered(l.currencies, l.exchanges, t.id, uk));
        assert(covered(cur2, l.exchanges, t.id, uk));
        assert forall|i: int| 0 <= i < cur2.len() implies exists|j: int|
            0 <= j < exs2.len() && (#[trigger] exs2[j]).transaction_id == (
            #[trigger] cur2[i]).transaction_id && exs2[j].user_key == cur2[i].user_key by {
            if cur2[i].transaction_id == t.id && cur2[i].user_key == uk {
                assert(exs2[l.exchanges.len() as int].transaction_id == cur2[i].transaction_id
                    && exs2[l.exchanges.len() as int].user_key == cur2[i].user_key);
            } else {
                let j = choose|j: int|
                    0 <= j < l.exchanges.len() && (#[trigger] l.exchanges[j]).transaction_id
                        == cur2[i].transaction_id && l.exchanges[j].user_key == cur2[i].user_key;
                assert(exs2[j].transaction_id == cur2[i].transaction_id && exs2[j].user_key
                    == cur2[i].user_key);
            }
        }
        // amount totals stay within machine bounds
        assert(sum_records(cur2) <= u64::MAX);
        assert forall|j: int| 0 <= j < exs2.len() implies sum_units(
            (#[trigger] exs2[j]).trans_info,
        ) <= u64::MAX by {
            if j == l.exchanges.len() {
                assert(exs2[j].trans_info == t.inputs);
            } else {
                assert(exs2[j] == l.exchanges[j]);
            }
        }
    }
}


impl Ledger {
    /// Settles one pre-validated transfer as an all-or-nothing unit of
    /// work: every input unit is destroyed (or the whole settlement
    /// fails with a double-spend), every minted output unit is
    /// recorded circulating, one lineage edge is written per
    /// (output, input) pair, and the transfer is logged with the total
    /// minted amount. On any failure the ledger is left untouched.
    /// Returns the identities of the minted outputs.
    #[verifier::loop_isolation(false)]
    pub fn settle(
        &mut self,
        user_key: &String,
        transfer: &Transfer,
        outputs: &Vec<CurrencyUnit>,
        now: u64,
    ) -> (r: Result<Vec<String>, LedgerError>)
        requires
            old(self).wf(),
            sum_records(old(self)@.currencies) + sum_units(transfer@.inputs) + sum_units(
                units_view(outputs@),
            ) <= u64::MAX,
        ensures
            final(self).wf(),
            settle_post(
                old(self)@,
                final(self)@,
                user_key@,
                transfer@,
                units_view(outputs@),
                now,
                lift_settle_result(r),
            ),
    {
        let ghost c0 = old(self)@.currencies;
        let ghost ukv = user_key@;
        let ghost tid = transfer@.id;
        let ghost insv = transfer@.inputs;
        let ghost outsv = units_view(outputs@);

        // spend the inputs on a scratch copy of the store, so that a
        // failure leaves the ledger untouched
        let mut cur = clone_records(&self.currencies);
        let mut input_ids: Vec<String> = Vec::new();
        proof {
            assert(records_view(cur@) == c0);
            assert(insv.skip(0) =~= insv);
            assert(strings_view(input_ids@) =~= unit_ids(insv.take(0)));
        }
        let mut k: usize = 0;
        while k < transfer.inputs.len()
            invariant
                k <= transfer.inputs.len(),
                process_inputs(c0, ukv, tid, insv, now) == process_inputs(
                    records_view(cur@),
                    ukv,
                    tid,
                    insv.skip(k as int),
                    now,
                ),
                strings_view(input_ids@) == unit_ids(insv.take(k as int)),
            decreases transfer.inputs.len() - k,
        {
            let u = &transfer.inputs[k];
            proof {
                assert(insv.skip(k as int)[0] == insv[k as int]);
                assert(insv[k as int] == transfer.inputs@[k as int]@);
            }
            let ghost cvpre = records_view(cur@);
            match find_record(&cur, &u.id, user_key) {
                Option::None => {
                    let owner_hex = hex_encode_call(&u.owner);
                    let rec = CurrencyRecord {
                        currency_id: u.id.clone(),
                        transaction_id: transfer.id.clone(),
                        status: CurrencyStatus::Destroyed,
                        owner: owner_hex,
                        amount: u.amount,
                        user_key: user_key.clone(),
                        create_time: now,
                        update_time: now,
                    };
                    proof {
                        assert(rec@ == destroyed_record(insv[k as int], ukv, tid, now));
                    }
                    cur.push(rec);
                    proof {
                        assert(records_view(cur@) =~= cvpre.push(
                            destroyed_record(insv[k as int], ukv, tid, now),
                        ));
                        assert(insv.skip(k as int).drop_first() =~= insv.skip(k as int + 1));
                    }
                },
                Option::Some(i) => {
                    if cur[i].status == CurrencyStatus::Destroyed {
                        proof {
                            assert(cvpre[i as int].status == CurrencyStatus::Destroyed);
                            assert(process_inputs(c0, ukv, tid, insv, now) is None);
                        }
                        return Result::Err(LedgerError::DoubleSpend);
                    }
                    let ghost vecpre = cur@;
                    let old_rec = cur.remove(i);
                    let owner_hex = hex_encode_call(&u.owner);
                    let rec = CurrencyRecord {
                        currency_id: old_rec.currency_id,
                        transaction_id: transfer.id.clone(),
                        status: CurrencyStatus::Destroyed,
                        owner: owner_hex,
                        amount: old_rec.amount,
                        user_key: old_rec.user_key,
                        create_time: old_rec.create_time,
                        update_time: now,
                    };
                    cur.insert(i, rec);
                    proof {
                        let specrec = spent_record(cvpre[i as int], insv[k as int], tid, now);
                        assert(cvpre[i as int].status != CurrencyStatus::Destroyed);
                        assert(rec@ == specrec);
                        assert(cur@ =~= vecpre.update(i as int, rec));
                        assert(records_view(cur@) =~= cvpre.update(i as int, specrec));
                        assert(insv.skip(k as int).drop_first() =~= insv.skip(k as int + 1));
                    }
                },
            }
            let idc = u.id.clone();
            let ghost idspre = input_ids@;
            input_ids.push(idc);
            proof {
                assert(strings_view(input_ids@) =~= strings_view(idspre).push(insv[k as int].id));
                assert(insv.take(k as int + 1) =~= insv.take(k as int).push(insv[k as int]));
                assert(unit_ids(insv.take(k as int).push(insv[k as int])) =~= unit_ids(
                    insv.take(k as int),
                ).push(insv[k as int].id));
            }
            k = k + 1;
        }
        proof {
            assert(insv.skip(insv.len() as int) =~= Seq::<CurrencyUnitV>::empty());
        }
        let ghost cur1v = records_view(cur@);

        // record the minted outputs; a clashing identity violates the
        // store's uniqueness constraint
        let mut output_ids: Vec<String> = Vec::new();
        let mut total: u64 = 0;
        proof {
            assert(outsv.skip(0) =~= outsv);
            assert(strings_view(output_ids@) =~= unit_ids(outsv.take(0)));
            assert(sum_units(outsv.take(0)) == 0);
        }
        let mut k2: usize = 0;
        while k2 < outputs.len()
            invariant
                k2 <= outputs.len(),
                insert_outputs(cur1v, ukv, tid, outsv, now) == insert_outputs(
                    records_view(cur@),
                    ukv,
                    tid,
                    outsv.skip(k2 as int),
                    now,
                ),
                strings_view(output_ids@) == unit_ids(outsv.take(k2 as int)),
                total as int == sum_units(outsv.take(k2 as int)),
            decreases outputs.len() - k2,
        {
            let o = &outputs[k2];
            proof {
                assert(outsv.skip(k2 as int)[0] == outsv[k2 as int]);
                assert(outsv[k2 as int] == outputs@[k2 as int]@);
            }
            let ghost cvpre = records_view(cur@);
            match find_record(&cur, &o.id, user_key) {
                Option::Some(_) => {
                    proof {
                        assert(insert_outputs(cur1v, ukv, tid, outsv, now) is None);
                    }
                    return Result::Err(LedgerError::Storage);
                },
                Option::None => {},
            }
            let owner_hex = hex_encode_call(&o.owner);
            let rec = CurrencyRecord {
                currency_id: o.id.clone(),
                transaction_id: transfer.id.clone(),
                status: CurrencyStatus::Circulating,
                owner: owner_hex,
                amount: o.amount,
                user_key: user_key.clone(),
                create_time: now,
                update_time: now,
            };
            proof {
                assert(rec@ == minted_record(outsv[k2 as int], ukv, tid, now));
            }
            cur.push(rec);
            proof {
                assert(records_view(cur@) =~= cvpre.push(
                    minted_record(outsv[k2 as int], ukv, tid, now),
                ));
                assert(outsv.skip(k2 as int).drop_first() =~= outsv.skip(k2 as int + 1));
                lemma_sum_units_take_step(outsv, k2 as int);
                lemma_sum_units_take_le(outsv, k2 as int + 1);
                lemma_sum_records_nonneg(c0);
                lemma_sum_units_nonneg(insv);
            }
            total = total + o.amount;
            let idc = o.id.clone();
            let ghost idspre = output_ids@;
            output_ids.push(idc);
            proof {
                assert(strings_view(output_ids@) =~= strings_view(idspre).push(
                    outsv[k2 as int].id,
                ));
                assert(outsv.take(k2 as int + 1) =~= outsv.take(k2 as int).push(outsv[k2 as int]));
                assert(unit_ids(outsv.take(k2 as int).push(outsv[k2 as int])) =~= unit_ids(
                    outsv.take(k2 as int),
                ).push(outsv[k2 as int].id));
            }
            k2 = k2 + 1;
        }
        proof {
            assert(outsv.skip(outsv.len() as int) =~= Seq::<CurrencyUnitV>::empty());
            assert(outsv.take(outsv.len() as int) =~= outsv);
            assert(insv.take(insv.len() as int) =~= insv);
        }
        let ghost cur2v = records_view(cur@);

        // a replayed settlement identity violates the log's uniqueness
        // constraint
        match find_exchange_entry(&self.exchanges, &transfer.id, user_key) {
            Option::Some(_) => {
                return Result::Err(LedgerError::Storage);
            },
            Option::None => {},
        }

        // all checks passed: commit the new store, the lineage edges
        // and the log entry
        self.currencies = cur;
        let ghost inidsv = unit_ids(insv);
        let ghost outidsv = unit_ids(outsv);
        let mut oi: usize = 0;
        while oi < output_ids.len()
            invariant
                oi <= output_ids.len(),
                records_view(self.currencies@) == cur2v,
                exchanges_view(self.exchanges@) == old(self)@.exchanges,
                edges_view(self.lineage@) == old(self)@.lineage + new_edges(
                    outidsv.take(oi as int),
                    inidsv,
                    ukv,
                    now,
                ),
            decreases output_ids.len() - oi,
        {
            let mut ii: usize = 0;
            while ii < input_ids.len()
                invariant
                    ii <= input_ids.len(),
                    oi < output_ids.len(),
                    records_view(self.currencies@) == cur2v,
                    exchanges_view(self.exchanges@) == old(self)@.exchanges,
                    edges_view(self.lineage@) == old(self)@.lineage + new_edges(
                        outidsv.take(oi as int),
                        inidsv,
                        ukv,
                        now,
                    ) + edges_for_output(outidsv[oi as int], inidsv.take(ii as int), ukv, now),
                decreases input_ids.len() - ii,
            {
                let ghost epre = edges_view(self.lineage@);
                let e = LineageEdge {
                    output_id: output_ids[oi].clone(),
                    input_id: input_ids[ii].clone(),
                    user_key: user_key.clone(),
                    create_time: now,
                };
                proof {
                    assert(output_ids@[oi as int]@ == outidsv[oi as int]);
                    assert(input_ids@[ii as int]@ == inidsv[ii as int]);
                    assert(e@ == edge_row(outidsv[oi as int], inidsv[ii as int], ukv, now));
                }
                self.lineage.push(e);
                proof {
                    assert(edges_view(self.lineage@) =~= epre.push(
                        edge_row(outidsv[oi as int], inidsv[ii as int], ukv, now),
                    ));
                    assert(inidsv.take(ii as int + 1).drop_last() =~= inidsv.take(ii as int));
                    assert(inidsv.take(ii as int + 1).last() == inidsv[ii as int]);
                    assert(epre.push(edge_row(outidsv[oi as int], inidsv[ii as int], ukv, now))
                        =~= old(self)@.lineage + new_edges(outidsv.take(oi as int), inidsv, ukv, now)
                        + edges_for_output(outidsv[oi as int], inidsv.take(ii as int + 1), ukv, now));
                }
                ii = ii + 1;
            }
            proof {
                assert(inidsv.take(inidsv.len() as int) =~= inidsv);
                assert(outidsv.take(oi as int + 1).drop_last() =~= outidsv.take(oi as int));
                assert(outidsv.take(oi as int + 1).last() == outidsv[oi as int]);
                assert(old(self)@.lineage + new_edges(outidsv.take(oi as int), inidsv, ukv, now)
                    + edges_for_output(outidsv[oi as int], inidsv, ukv, now) =~= old(self)@.lineage
                    + new_edges(outidsv.take(oi as int + 1), inidsv, ukv, now));
            }
            oi = oi + 1;
        }
        let info = clone_units(&transfer.inputs);
        let entry = ExchangeRecord {
            transaction_id: transfer.id.clone(),
            user_key: user_key.clone(),
            trans_info: info,
            trans_bin: transfer.raw.clone(),
            amount: total,
            create_time: now,
        };
        let ghost entryv = entry@;
        let ghost expre = exchanges_view(self.exchanges@);
        self.exchanges.push(entry);
        proof {
            assert(outidsv.take(output_ids@.len() as int) =~= outidsv);
            assert(exchanges_view(self.exchanges@) =~= expre.push(entryv));
            lemma_sum_units_nonneg(outsv);
            assert(total == sum_units(outsv) as u64);
            assert(entryv == exchange_entry(ukv, transfer@, sum_units(outsv) as u64, now));
            let m = settle_model(old(self)@, ukv, transfer@, outsv, now);
            assert(m is Ok);
            assert(self@ == m.unwrap().0);
            assert(strings_view(output_ids@) == m.unwrap().1);
            lemma_settle_model_wf(old(self)@, ukv, transfer@, outsv, now);
        }
        Result::Ok(output_ids)
    }
}


impl Ledger {
    /// One settlement request as the transport hands it over: the
    /// external component's validation verdict and the parsed
    /// transfer. A transfer that failed validation is refused without
    /// touching the ledger; a validated one is settled.
    pub fn process_transfer(
        &mut self,
        user_key: &String,
        validated: bool,
        transfer: &Transfer,
        outputs: &Vec<CurrencyUnit>,
        now: u64,
    ) -> (r: Result<Vec<String>, LedgerError>)
        requires
            old(self).wf(),
            sum_records(old(self)@.currencies) + sum_units(transfer@.inputs) + sum_units(
                units_view(outputs@),
            ) <= u64::MAX,
        ensures
            final(self).wf(),
            !validated ==> r == Result::<Vec<String>, LedgerError>::Err(LedgerError::Validation)
                && final(self)@ == old(self)@,
            validated ==> settle_post(
                old(self)@,
                final(self)@,
                user_key@,
                transfer@,
                units_view(outputs@),
                now,
                lift_settle_result(r),
            ),
    {
        if !validated {
            return Result::Err(LedgerError::Validation);
        }
        self.settle(user_key, transfer, outputs, now)
    }
}

} // verus!
