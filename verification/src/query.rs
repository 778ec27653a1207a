//! The query engine: point lookups, filtered paginated listings and
//! time-windowed aggregates over the ledger, each scoped to one
//! caller's records.

use vstd::prelude::*;
use crate::types::{
    CurrencyRecord, CurrencyRecordV, CurrencyStatus, CurrencyUnit, CurrencyUnitV, ExchangeRecord,
    ExchangeRecordV, LedgerError, LineageEdge, LineageEdgeV, edges_view, exchanges_view,
    records_view, units_view,
};
use crate::ledger::{
    Ledger, LedgerV, find_currency, find_exchange, find_record, find_exchange_entry, sum_records,
    sum_units,
};
use vstd::arithmetic::mul::lemma_mul_inequality;
use vstd::arithmetic::mul::lemma_mul_is_distributive_add_other_way;
use vstd::arithmetic::div_mod::lemma_fundamental_div_mod;
use vstd::arithmetic::div_mod::lemma_mod_bound;
use vstd::string::StrSliceExecFns;

verus! {

/// Index of the first lineage edge that consumes `input_id`, or -1
/// when there is none.
pub open spec fn find_edge(s: Seq<LineageEdgeV>, input_id: Seq<char>, uk: Seq<char>) -> int
    decreases s.len(),
{
    if s.len() == 0 {
        -1
    } else if s[0].input_id == input_id && s[0].user_key == uk {
        0
    } else {
        let r = find_edge(s.drop_first(), input_id, uk);
        if r < 0 {
            -1
        } else {
            r + 1
        }
    }
}

/// What `find_edge` returns: -1 means no edge matches, a non-negative
/// index is the first match.
pub proof fn lemma_find_edge_props(s: Seq<LineageEdgeV>, input_id: Seq<char>, uk: Seq<char>)
    ensures
        find_edge(s, input_id, uk) == -1 ==> forall|i: int|
            0 <= i < s.len() ==> !((#[trigger] s[i]).input_id == input_id && s[i].user_key == uk),
        find_edge(s, input_id, uk) != -1 ==> {
            let f = find_edge(s, input_id, uk);
            &&& 0 <= f < s.len()
            &&& s[f].input_id == input_id
            &&& s[f].user_key == uk
            &&& forall|i: int|
                0 <= i < f ==> !((#[trigger] s[i]).input_id == input_id && s[i].user_key == uk)
        },
    decreases s.len(),
{
    if s.len() != 0 {
        if !(s[0].input_id == input_id && s[0].user_key == uk) {
            lemma_find_edge_props(s.drop_first(), input_id, uk);
            assert(forall|i: int| 1 <= i < s.len() ==> s[i] == s.drop_first()[i - 1]);
        }
    }
}

/// Looks up the first lineage edge consuming `input_id`; the result is
/// exactly what `find_edge` names on the store's model.
fn find_edge_entry(v: &Vec<LineageEdge>, input_id: &String, uk: &String) -> (r: Option<usize>)
    ensures
        match r {
            Option::None => find_edge(edges_view(v@), input_id@, uk@) == -1,
            Option::Some(i) => find_edge(edges_view(v@), input_id@, uk@) == i as int && i
                < v.len(),
        },
{
    let mut i: usize = 0;
    while i < v.len()
        invariant
            i <= v.len(),
            forall|j: int|
                0 <= j < i ==> !((#[trigger] edges_view(v@)[j]).input_id == input_id@
                    && edges_view(v@)[j].user_key == uk@),
        decreases v.len() - i,
    {
        if v[i].input_id == *input_id && v[i].user_key == *uk {
            proof {
                let s = edges_view(v@);
                lemma_find_edge_props(s, input_id@, uk@);
                let f = find_edge(s, input_id@, uk@);
                assert(s[i as int].input_id == input_id@ && s[i as int].user_key == uk@);
                if f == -1 {
                    assert(false);
                } else {
                    assert(!(f < i) && !(i < f));
                }
            }
            return Some(i);
        }
        i = i + 1;
    }
    proof {
        let s = edges_view(v@);
        lemma_find_edge_props(s, input_id@, uk@);
        let f = find_edge(s, input_id@, uk@);
        if f != -1 {
            assert(false);
        }
    }
    None
}

/// The settlement that destroyed unit `id`, resolved through the first
/// lineage edge that consumes it: the owning settlement of that edge's
/// output unit. Absent when no edge consumes the unit, or when the
/// paired output is not recorded for this caller.
pub open spec fn destroying_txid(l: LedgerV, id: Seq<char>, uk: Seq<char>) -> Option<Seq<char>> {
    let e = find_edge(l.lineage, id, uk);
    if e < 0 {
        Option::None
    } else {
        let o = find_currency(l.currencies, l.lineage[e].output_id, uk);
        if o < 0 {
            Option::None
        } else {
            Option::Some(l.currencies[o].transaction_id)
        }
    }
}

/// The detail view of one currency unit: its record, and the
/// settlement that later destroyed it, if any.
pub struct CurrencyDetail {
    pub currency_id: String,
    pub transaction_id: String,
    pub destroytrans_id: Option<String>,
    pub status: CurrencyStatus,
    pub owner: String,
    pub amount: u64,
    pub create_time: u64,
    pub late_time: u64,
}

impl Ledger {
    /// The currency detail query: the record of `(currency_id, caller)`
    /// — absent exactly when the caller owns no such unit — together
    /// with the settlement that destroyed the unit, resolved through
    /// its lineage edge.
    pub fn get_currency_info(&self, user_key: &String, currency_id: &String) -> (r: Result<
        CurrencyDetail,
        LedgerError,
    >)
        ensures
            r is Err <==> find_currency(self@.currencies, currency_id@, user_key@) == -1,
            r matches Err(e) ==> e == LedgerError::NotFound,
            r matches Ok(d) ==> {
                let rec = self@.currencies[find_currency(
                    self@.currencies,
                    currency_id@,
                    user_key@,
                )];
                &&& d.currency_id@ == currency_id@
                &&& d.transaction_id@ == rec.transaction_id
                &&& d.status == rec.status
                &&& d.owner@ == rec.owner
                &&& d.amount == rec.amount
                &&& d.create_time == rec.create_time
                &&& d.late_time == rec.update_time
                &&& match destroying_txid(self@, currency_id@, user_key@) {
                    Option::Some(t) => d.destroytrans_id matches Some(x) && x@ == t,
                    Option::None => d.destroytrans_id is None,
                }
            },
    {
        let i = match find_record(&self.currencies, currency_id, user_key) {
            Option::None => {
                return Result::Err(LedgerError::NotFound);
            },
            Option::Some(i) => i,
        };
        let rec = &self.currencies[i];
        let destroytrans_id: Option<String> = match find_edge_entry(
            &self.lineage,
            currency_id,
            user_key,
        ) {
            Option::None => Option::None,
            Option::Some(e) => {
                match find_record(&self.currencies, &self.lineage[e].output_id, user_key) {
                    Option::None => Option::None,
                    Option::Some(o) => Option::Some(self.currencies[o].transaction_id.clone()),
                }
            },
        };
        Result::Ok(
            CurrencyDetail {
                currency_id: currency_id.clone(),
                transaction_id: rec.transaction_id.clone(),
                destroytrans_id,
                status: rec.status,
                owner: rec.owner.clone(),
                amount: rec.amount,
                create_time: rec.create_time,
                late_time: rec.update_time,
            },
        )
    }
}


/// The model of a sequence of `(identity, amount)` pairs.
pub open spec fn pairs_view(s: Seq<(String, u64)>) -> Seq<(Seq<char>, u64)> {
    s.map_values(|p: (String, u64)| (p.0@, p.1))
}

/// The `(identity, amount)` pairs of a sequence of currency units.
pub open spec fn unit_pairs(s: Seq<CurrencyUnitV>) -> Seq<(Seq<char>, u64)> {
    s.map_values(|u: CurrencyUnitV| (u.id, u.amount))
}

/// The identities of a sequence of currency units.
pub open spec fn input_ids_of(s: Seq<CurrencyUnitV>) -> Seq<Seq<char>> {
    s.map_values(|u: CurrencyUnitV| u.id)
}

/// The `(identity, amount)` pairs of the output units of settlement
/// `txid`: the caller's records carrying that settlement whose
/// identity is not among the settlement's inputs, in store order.
pub open spec fn outputs_of(
    cur: Seq<CurrencyRecordV>,
    txid: Seq<char>,
    uk: Seq<char>,
    ins: Seq<CurrencyUnitV>,
) -> Seq<(Seq<char>, u64)>
    decreases cur.len(),
{
    if cur.len() == 0 {
        Seq::empty()
    } else {
        let rest = outputs_of(cur.drop_last(), txid, uk, ins);
        let r = cur.last();
        if r.transaction_id == txid && r.user_key == uk && !input_ids_of(ins).contains(
            r.currency_id,
        ) {
            rest.push((r.currency_id, r.amount))
        } else {
            rest
        }
    }
}

/// Whether some unit in `units` carries the identity `id`.
fn contains_unit_id(units: &Vec<CurrencyUnit>, id: &String) -> (b: bool)
    ensures
        b == input_ids_of(units_view(units@)).contains(id@),
{
    let ghost ids = input_ids_of(units_view(units@));
    let mut i: usize = 0;
    while i < units.len()
        invariant
            i <= units.len(),
            ids == input_ids_of(units_view(units@)),
            forall|j: int| 0 <= j < i ==> #[trigger] ids[j] != id@,
        decreases units.len() - i,
    {
        if units[i].id == *id {
            proof {
                assert(ids[i as int] == id@);
            }
            return true;
        }
        i = i + 1;
    }
    proof {
        assert forall|j: int| 0 <= j < ids.len() implies #[trigger] ids[j] != id@ by {}
    }
    false
}

/// The detail view of one settled transfer: its stored input units,
/// the output units recovered from the currency store, the inputs'
/// total amount and the settlement time.
pub struct TransactionDetail {
    pub transaction_id: String,
    pub trans_amount: u64,
    pub transaction_time: u64,
    pub input: Vec<(String, u64)>,
    pub output: Vec<(String, u64)>,
}

impl Ledger {
    /// The transaction detail query: absent exactly when the caller
    /// settled no transfer under `transaction_id`; otherwise the
    /// inputs as the exchange log stored them (with their total
    /// amount), and the outputs recovered as the caller's records of
    /// this settlement that are not among those inputs.
    pub fn get_exchange_info(&self, user_key: &String, transaction_id: &String) -> (r: Result<
        TransactionDetail,
        LedgerError,
    >)
        requires
            self.wf(),
        ensures
            r is Err <==> find_exchange(self@.exchanges, transaction_id@, user_key@) == -1,
            r matches Err(e) ==> e == LedgerError::NotFound,
            r matches Ok(d) ==> {
                let e = self@.exchanges[find_exchange(
                    self@.exchanges,
                    transaction_id@,
                    user_key@,
                )];
                &&& d.transaction_id@ == transaction_id@
                &&& d.trans_amount as int == sum_units(e.trans_info)
                &&& d.transaction_time == e.create_time
                &&& pairs_view(d.input@) == unit_pairs(e.trans_info)
                &&& pairs_view(d.output@) == outputs_of(
                    self@.currencies,
                    transaction_id@,
                    user_key@,
                    e.trans_info,
                )
            },
    {
        let f = match find_exchange_entry(&self.exchanges, transaction_id, user_key) {
            Option::None => {
                return Result::Err(LedgerError::NotFound);
            },
            Option::Some(f) => f,
        };
        let entry = &self.exchanges[f];
        let ghost infov = units_view(entry.trans_info@);
        proof {
            assert(self@.exchanges[f as int].trans_info == infov);
            assert(sum_units(infov) <= u64::MAX);
            crate::ledger::lemma_sum_units_nonneg(infov);
        }

        // the stored inputs and their total amount
        let mut input: Vec<(String, u64)> = Vec::new();
        let mut trans_amount: u64 = 0;
        proof {
            assert(infov.take(0) =~= Seq::<CurrencyUnitV>::empty());
            assert(pairs_view(input@) =~= unit_pairs(infov.take(0)));
        }
        let mut k: usize = 0;
        while k < entry.trans_info.len()
            invariant
                k <= entry.trans_info.len(),
                infov == units_view(entry.trans_info@),
                sum_units(infov) <= u64::MAX,
                trans_amount as int == sum_units(infov.take(k as int)),
                pairs_view(input@) == unit_pairs(infov.take(k as int)),
            decreases entry.trans_info.len() - k,
        {
            let u = &entry.trans_info[k];
            proof {
                assert(infov[k as int] == entry.trans_info@[k as int]@);
                crate::ledger::lemma_sum_units_take_step(infov, k as int);
                crate::ledger::lemma_sum_units_take_le(infov, k as int + 1);
                crate::ledger::lemma_sum_units_nonneg(infov.take(k as int));
            }
            trans_amount = trans_amount + u.amount;
            let idc = u.id.clone();
            let ghost inpre = input@;
            input.push((idc, u.amount));
            proof {
                assert(pairs_view(input@) =~= pairs_view(inpre).push(
                    (infov[k as int].id, infov[k as int].amount),
                ));
                assert(infov.take(k as int + 1) =~= infov.take(k as int).push(infov[k as int]));
                assert(unit_pairs(infov.take(k as int).push(infov[k as int])) =~= unit_pairs(
                    infov.take(k as int),
                ).push((infov[k as int].id, infov[k as int].amount)));
            }
            k = k + 1;
        }
        proof {
            assert(infov.take(infov.len() as int) =~= infov);
        }

        // the outputs: this settlement's records that are not inputs
        let mut output: Vec<(String, u64)> = Vec::new();
        proof {
            assert(records_view(self.currencies@).take(0) =~= Seq::<CurrencyRecordV>::empty());
            assert(pairs_view(output@) =~= outputs_of(
                records_view(self.currencies@).take(0),
                transaction_id@,
                user_key@,
                infov,
            ));
        }
        let mut i: usize = 0;
        while i < self.currencies.len()
            invariant
                i <= self.currencies.len(),
                infov == units_view(entry.trans_info@),
                pairs_view(output@) == outputs_of(
                    records_view(self.currencies@).take(i as int),
                    transaction_id@,
                    user_key@,
                    infov,
                ),
            decreases self.currencies.len() - i,
        {
            let rec = &self.currencies[i];
            let ghost cv = records_view(self.currencies@);
            proof {
                assert(cv[i as int] == self.currencies@[i as int]@);
                assert(cv.take(i as int + 1).drop_last() =~= cv.take(i as int));
                assert(cv.take(i as int + 1).last() == cv[i as int]);
            }
            if rec.transaction_id == *transaction_id && rec.user_key == *user_key
                && !contains_unit_id(&entry.trans_info, &rec.currency_id) {
                let idc = rec.currency_id.clone();
                let ghost outpre = output@;
                output.push((idc, rec.amount));
                proof {
                    assert(pairs_view(output@) =~= pairs_view(outpre).push(
                        (cv[i as int].currency_id, cv[i as int].amount),
                    ));
                }
            }
            i = i + 1;
        }
        proof {
            let cv = records_view(self.currencies@);
            assert(cv.take(cv.len() as int) =~= cv);
        }

        Result::Ok(
            TransactionDetail {
                transaction_id: transaction_id.clone(),
                trans_amount,
                transaction_time: entry.create_time,
                input,
                output,
            },
        )
    }
}


/// Whether `p` is a prefix of `s`, character by character.
fn str_has_prefix(s: &String, p: &String) -> (b: bool)
    ensures
        b == p@.is_prefix_of(s@),
{
    let sl = s.as_str();
    let pl = p.as_str();
    let n = pl.unicode_len();
    let m = sl.unicode_len();
    if n > m {
        return false;
    }
    let mut i: usize = 0;
    while i < n
        invariant
            i <= n,
            n == p@.len(),
            m == s@.len(),
            n <= m,
            sl@ == s@,
            pl@ == p@,
            forall|j: int| 0 <= j < i ==> s@[j] == p@[j],
        decreases n - i,
    {
        let cs = sl.get_char(i);
        let cp = pl.get_char(i);
        if cs != cp {
            proof {
                assert(s@.subrange(0, n as int)[i as int] == s@[i as int]);
            }
            return false;
        }
        i = i + 1;
    }
    proof {
        assert(p@ =~= s@.subrange(0, n as int));
    }
    true
}

/// The optional filters of a currency listing: a currency identity
/// prefix, an exact status or amount, and half-open intervals on the
/// creation and the destruction (last update) timestamps.
pub struct CurrencyFilter {
    pub currency_id: Option<String>,
    pub status: Option<CurrencyStatus>,
    pub amount: Option<u64>,
    pub create_time: Option<u64>,
    pub create_end_time: Option<u64>,
    pub destroy_time: Option<u64>,
    pub destroy_end_time: Option<u64>,
}

/// Mathematical model of a `CurrencyFilter`.
pub struct CurrencyFilterV {
    pub currency_id: Option<Seq<char>>,
    pub status: Option<CurrencyStatus>,
    pub amount: Option<u64>,
    pub create_time: Option<u64>,
    pub create_end_time: Option<u64>,
    pub destroy_time: Option<u64>,
    pub destroy_end_time: Option<u64>,
}

impl View for CurrencyFilter {
    type V = CurrencyFilterV;

    open spec fn view(&self) -> CurrencyFilterV {
        CurrencyFilterV {
            currency_id: match self.currency_id {
                Option::Some(p) => Option::Some(p@),
                Option::None => Option::None,
            },
            status: self.status,
            amount: self.amount,
            create_time: self.create_time,
            create_end_time: self.create_end_time,
            destroy_time: self.destroy_time,
            destroy_end_time: self.destroy_end_time,
        }
    }
}

impl CurrencyFilter {
    /// A filter that matches every record of the caller.
    pub fn none() -> (r: CurrencyFilter)
        ensures
            r@ == (CurrencyFilterV {
                currency_id: Option::None,
                status: Option::None,
                amount: Option::None,
                create_time: Option::None,
                create_end_time: Option::None,
                destroy_time: Option::None,
                destroy_end_time: Option::None,
            }),
    {
        CurrencyFilter {
            currency_id: Option::None,
            status: Option::None,
            amount: Option::None,
            create_time: Option::None,
            create_end_time: Option::None,
            destroy_time: Option::None,
            destroy_end_time: Option::None,
        }
    }
}

/// Whether one currency record belongs to the caller and passes every
/// present filter.
pub open spec fn currency_matches(r: CurrencyRecordV, uk: Seq<char>, f: CurrencyFilterV) -> bool {
    &&& r.user_key == uk
    &&& (f.currency_id matches Some(p) ==> p.is_prefix_of(r.currency_id))
    &&& (f.status matches Some(st) ==> r.status == st)
    &&& (f.amount matches Some(a) ==> r.amount == a)
    &&& (f.create_time matches Some(b) ==> r.create_time >= b)
    &&& (f.create_end_time matches Some(e) ==> r.create_time < e)
    &&& (f.destroy_time matches Some(b) ==> r.update_time >= b)
    &&& (f.destroy_end_time matches Some(e) ==> r.update_time < e)
}

/// The caller's records that pass the filter, in store order.
pub open spec fn filtered_currencies(
    s: Seq<CurrencyRecordV>,
    uk: Seq<char>,
    f: CurrencyFilterV,
) -> Seq<CurrencyRecordV> {
    s.filter(|r: CurrencyRecordV| currency_matches(r, uk, f))
}

/// Whether one currency record belongs to the caller and passes every
/// present filter.
fn matches_currency(rec: &CurrencyRecord, uk: &String, f: &CurrencyFilter) -> (b: bool)
    ensures
        b == currency_matches(rec@, uk@, f@),
{
    if !(rec.user_key == *uk) {
        return false;
    }
    match &f.currency_id {
        Option::Some(p) => {
            if !str_has_prefix(&rec.currency_id, p) {
                return false;
            }
        },
        Option::None => {},
    }
    match &f.status {
        Option::Some(st) => {
            if !(rec.status == *st) {
                return false;
            }
        },
        Option::None => {},
    }
    match &f.amount {
        Option::Some(a) => {
            if !(rec.amount == *a) {
                return false;
            }
        },
        Option::None => {},
    }
    match &f.create_time {
        Option::Some(b) => {
            if rec.create_time < *b {
                return false;
            }
        },
        Option::None => {},
    }
    match &f.create_end_time {
        Option::Some(e) => {
            if rec.create_time >= *e {
                return false;
            }
        },
        Option::None => {},
    }
    match &f.destroy_time {
        Option::Some(b) => {
            if rec.update_time < *b {
                return false;
            }
        },
        Option::None => {},
    }
    match &f.destroy_end_time {
        Option::Some(e) => {
            if rec.update_time >= *e {
                return false;
            }
        },
        Option::None => {},
    }
    true
}

/// Where a record sorts among records already ordered newest first: it
/// goes after every record created at the same time or later, and
/// before the first one created strictly earlier.
pub open spec fn sorted_insert_desc(
    x: CurrencyRecordV,
    s: Seq<CurrencyRecordV>,
) -> Seq<CurrencyRecordV>
    decreases s.len(),
{
    if s.len() == 0 {
        seq![x]
    } else if x.create_time > s[0].create_time {
        seq![x] + s
    } else {
        seq![s[0]] + sorted_insert_desc(x, s.drop_first())
    }
}

/// The records ordered newest first by creation time; records created
/// at the same time keep their store order.
pub open spec fn sort_desc(s: Seq<CurrencyRecordV>) -> Seq<CurrencyRecordV>
    decreases s.len(),
{
    if s.len() == 0 {
        Seq::empty()
    } else {
        sorted_insert_desc(s.last(), sort_desc(s.drop_last()))
    }
}

/// Inserting keeps every record and adds the new one.
pub proof fn lemma_sorted_insert_len(x: CurrencyRecordV, s: Seq<CurrencyRecordV>)
    ensures
        sorted_insert_desc(x, s).len() == s.len() + 1,
    decreases s.len(),
{
    if s.len() != 0 && !(x.create_time > s[0].create_time) {
        lemma_sorted_insert_len(x, s.drop_first());
    }
}

/// Sorting keeps the number of records.
pub proof fn lemma_sort_desc_len(s: Seq<CurrencyRecordV>)
    ensures
        sort_desc(s).len() == s.len(),
    decreases s.len(),
{
    if s.len() != 0 {
        lemma_sort_desc_len(s.drop_last());
        lemma_sorted_insert_len(s.last(), sort_desc(s.drop_last()));
    }
}

/// Where the first strictly older record stands is where the new one
/// is inserted.
pub proof fn lemma_sorted_insert_at(s: Seq<CurrencyRecordV>, x: CurrencyRecordV, j: int)
    requires
        0 <= j <= s.len(),
        forall|m: int| 0 <= m < j ==> (#[trigger] s[m]).create_time >= x.create_time,
        j < s.len() ==> s[j].create_time < x.create_time,
    ensures
        sorted_insert_desc(x, s) == s.insert(j, x),
    decreases j,
{
    if j == 0 {
        if s.len() == 0 {
            assert(seq![x] =~= s.insert(0, x));
        } else {
            assert(x.create_time > s[0].create_time);
            assert(seq![x] + s =~= s.insert(0, x));
        }
    } else {
        assert(s[0].create_time >= x.create_time);
        assert forall|m: int| 0 <= m < j - 1 implies (
        #[trigger] s.drop_first()[m]).create_time >= x.create_time by {
            assert(s.drop_first()[m] == s[m + 1]);
        }
        assert(j - 1 < s.drop_first().len() ==> s.drop_first()[j - 1].create_time
            < x.create_time);
        lemma_sorted_insert_at(s.drop_first(), x, j - 1);
        assert(seq![s[0]] + s.drop_first().insert(j - 1, x) =~= s.insert(j, x));
    }
}

/// Orders the given records newest first by creation time, keeping
/// store order among records created at the same time.
fn sort_records_desc(v: Vec<CurrencyRecord>) -> (r: Vec<CurrencyRecord>)
    ensures
        records_view(r@) == sort_desc(records_view(v@)),
{
    let ghost vv = records_view(v@);
    let mut out: Vec<CurrencyRecord> = Vec::new();
    proof {
        assert(vv.take(0) =~= Seq::<CurrencyRecordV>::empty());
        assert(records_view(out@) =~= sort_desc(vv.take(0)));
    }
    let mut k: usize = 0;
    while k < v.len()
        invariant
            k <= v.len(),
            vv == records_view(v@),
            records_view(out@) == sort_desc(vv.take(k as int)),
        decreases v.len() - k,
    {
        let x = v[k].duplicate();
        let ghost xv = x@;
        let ghost outv = records_view(out@);
        proof {
            assert(xv == vv[k as int]);
        }
        let mut j: usize = 0;
        while j < out.len() && out[j].create_time >= x.create_time
            invariant
                j <= out.len(),
                outv == records_view(out@),
                xv == x@,
                forall|m: int| 0 <= m < j ==> (#[trigger] outv[m]).create_time >= xv.create_time,
            decreases out.len() - j,
        {
            proof {
                assert(outv[j as int].create_time >= xv.create_time);
            }
            j = j + 1;
        }
        let ghost outpre = out@;
        out.insert(j, x);
        proof {
            lemma_sorted_insert_at(outv, xv, j as int);
            assert(out@ == outpre.insert(j as int, x));
            assert(records_view(outpre.insert(j as int, x)) =~= outv.insert(j as int, xv));
            assert(vv.take(k as int + 1).drop_last() =~= vv.take(k as int));
            assert(vv.take(k as int + 1).last() == vv[k as int]);
        }
        k = k + 1;
    }
    proof {
        assert(vv.take(vv.len() as int) =~= vv);
    }
    out
}

/// One page of a listing: `count` items starting at item
/// `(page - 1) * count`, clipped to the listing's length.
pub open spec fn page_slice<A>(s: Seq<A>, page: u64, count: u64) -> Seq<A>
    recommends
        page >= 1,
{
    let off = ((page as int) - 1) * (count as int);
    let lo = if off > s.len() as int {
        s.len() as int
    } else {
        off
    };
    let hi = if off + count > s.len() as int {
        s.len() as int
    } else {
        off + count
    };
    s.subrange(lo, hi)
}

/// One row of a currency listing.
pub struct CurrencyListItem {
    pub currency_id: String,
    pub amount: u64,
    pub create_time: u64,
    pub status: CurrencyStatus,
    pub late_time: u64,
}

/// Mathematical model of a `CurrencyListItem`.
pub struct CurrencyListItemV {
    pub currency_id: Seq<char>,
    pub amount: u64,
    pub create_time: u64,
    pub status: CurrencyStatus,
    pub late_time: u64,
}

impl View for CurrencyListItem {
    type V = CurrencyListItemV;

    open spec fn view(&self) -> CurrencyListItemV {
        CurrencyListItemV {
            currency_id: self.currency_id@,
            amount: self.amount,
            create_time: self.create_time,
            status: self.status,
            late_time: self.late_time,
        }
    }
}

/// The model of a sequence of listing rows.
pub open spec fn items_view(s: Seq<CurrencyListItem>) -> Seq<CurrencyListItemV> {
    s.map_values(|x: CurrencyListItem| x@)
}

/// The listing row of one currency record.
pub open spec fn item_of(r: CurrencyRecordV) -> CurrencyListItemV {
    CurrencyListItemV {
        currency_id: r.currency_id,
        amount: r.amount,
        create_time: r.create_time,
        status: r.status,
        late_time: r.update_time,
    }
}

/// The listing rows of a sequence of currency records.
pub open spec fn list_items_of(s: Seq<CurrencyRecordV>) -> Seq<CurrencyListItemV> {
    s.map_values(|r: CurrencyRecordV| item_of(r))
}

/// A currency listing page: how many records match in all, and the
/// requested page of them.
pub struct CurrencyList {
    pub total: u64,
    pub inner: Vec<CurrencyListItem>,
}

impl Ledger {
    /// The currency listing query: all the caller's records that pass
    /// the filter, ordered newest first by creation time, cut into
    /// pages of `count` items; `page` is 1-indexed. `total` counts
    /// every match, and is 0 — with an empty page — when nothing
    /// matches.
    pub fn get_currency_list(
        &self,
        user_key: &String,
        page: u64,
        count: u64,
        filter: &CurrencyFilter,
    ) -> (r: CurrencyList)
        requires
            page >= 1,
        ensures
            ({
                let fl = filtered_currencies(self@.currencies, user_key@, filter@);
                &&& r.total as int == fl.len()
                &&& items_view(r.inner@) == list_items_of(page_slice(sort_desc(fl), page, count))
            }),
    {
        let ghost cv = records_view(self.currencies@);
        let ghost fl = filtered_currencies(cv, user_key@, filter@);
        let ghost pred = |r: CurrencyRecordV| currency_matches(r, user_key@, filter@);

        // collect the caller's matching records
        let mut matched: Vec<CurrencyRecord> = Vec::new();
        proof {
            reveal(Seq::filter);
            assert(cv.take(0) =~= Seq::<CurrencyRecordV>::empty());
            assert(records_view(matched@) =~= cv.take(0).filter(pred));
        }
        let mut i: usize = 0;
        while i < self.currencies.len()
            invariant
                i <= self.currencies.len(),
                cv == records_view(self.currencies@),
                pred == (|r: CurrencyRecordV| currency_matches(r, user_key@, filter@)),
                records_view(matched@) == cv.take(i as int).filter(pred),
            decreases self.currencies.len() - i,
        {
            let rec = &self.currencies[i];
            proof {
                reveal(Seq::filter);
                assert(cv[i as int] == self.currencies@[i as int]@);
                assert(cv.take(i as int + 1).drop_last() =~= cv.take(i as int));
                assert(cv.take(i as int + 1).last() == cv[i as int]);
                assert(cv.take(i as int + 1).filter(pred) == (if pred(cv[i as int]) {
                    cv.take(i as int).filter(pred).push(cv[i as int])
                } else {
                    cv.take(i as int).filter(pred)
                }));
            }
            if matches_currency(rec, user_key, filter) {
                let ghost mpre = records_view(matched@);
                let dup = rec.duplicate();
                matched.push(dup);
                proof {
                    assert(records_view(matched@) =~= mpre.push(cv[i as int]));
                }
            }
            i = i + 1;
        }
        proof {
            assert(cv.take(cv.len() as int) =~= cv);
            assert(records_view(matched@) == fl);
        }

        let total_count = matched.len();
        let sorted = sort_records_desc(matched);
        let ghost sv = sort_desc(fl);
        proof {
            lemma_sort_desc_len(fl);
        }

        // clip the requested page to the listing
        let len = sorted.len();
        let lo: usize;
        let hi: usize;
        if count == 0 {
            lo = 0;
            hi = 0;
            proof {
                assert(sv.subrange(0, 0) =~= page_slice(sv, page, count));
            }
        } else if page - 1 > (len as u64) / count {
            lo = len;
            hi = len;
            proof {
                let q = len as int / count as int;
                lemma_fundamental_div_mod(len as int, count as int);
                lemma_mod_bound(len as int, count as int);
                lemma_mul_inequality(q + 1, page as int - 1, count as int);
                lemma_mul_is_distributive_add_other_way(count as int, q, 1);
                assert((q + 1) * (count as int) == q * (count as int) + count as int);
                assert(len as int == (count as int) * q + len as int % (count as int));
                assert(((page as int) - 1) * (count as int) > len as int);
                assert(sv.subrange(len as int, len as int) =~= page_slice(sv, page, count));
            }
        } else {
            proof {
                let q = len as int / count as int;
                lemma_fundamental_div_mod(len as int, count as int);
                lemma_mod_bound(len as int, count as int);
                lemma_mul_inequality(page as int - 1, q, count as int);
                assert(q * (count as int) <= len as int);
                assert(((page as int) - 1) * (count as int) <= len as int);
            }
            let offu: u64 = (page - 1) * count;
            lo = offu as usize;
            if count > (len as u64) - offu {
                hi = len;
            } else {
                hi = (offu + count) as usize;
            }
            proof {
                assert(sv.subrange(lo as int, hi as int) =~= page_slice(sv, page, count));
            }
        }

        // copy the page's rows
        let mut inner: Vec<CurrencyListItem> = Vec::new();
        proof {
            assert(sv.subrange(lo as int, lo as int) =~= Seq::<CurrencyRecordV>::empty());
            assert(items_view(inner@) =~= list_items_of(sv.subrange(lo as int, lo as int)));
        }
        let mut idx: usize = lo;
        while idx < hi
            invariant
                lo <= idx <= hi <= sorted.len(),
                sv == records_view(sorted@),
                items_view(inner@) == list_items_of(sv.subrange(lo as int, idx as int)),
            decreases hi - idx,
        {
            let rec = &sorted[idx];
            let ghost ipre = inner@;
            let item = CurrencyListItem {
                currency_id: rec.currency_id.clone(),
                amount: rec.amount,
                create_time: rec.create_time,
                status: rec.status,
                late_time: rec.update_time,
            };
            inner.push(item);
            proof {
                assert(sv[idx as int] == sorted@[idx as int]@);
                assert(items_view(inner@) =~= items_view(ipre).push(item_of(sv[idx as int])));
                assert(sv.subrange(lo as int, idx as int + 1) =~= sv.subrange(
                    lo as int,
                    idx as int,
                ).push(sv[idx as int]));
                assert(list_items_of(sv.subrange(lo as int, idx as int).push(sv[idx as int]))
                    =~= list_items_of(sv.subrange(lo as int, idx as int)).push(
                    item_of(sv[idx as int]),
                ));
            }
            idx = idx + 1;
        }

        CurrencyList { total: total_count as u64, inner }
    }
}


/// The optional filters of a transaction listing: a settlement
/// identity prefix, an exact total amount, and a half-open interval on
/// the settlement timestamp.
pub struct TransactionFilter {
    pub transaction_id: Option<String>,
    pub amount: Option<u64>,
    pub begin_time: Option<u64>,
    pub end_time: Option<u64>,
}

/// Mathematical model of a `TransactionFilter`.
pub struct TransactionFilterV {
    pub transaction_id: Option<Seq<char>>,
    pub amount: Option<u64>,
    pub begin_time: Option<u64>,
    pub end_time: Option<u64>,
}

impl View for TransactionFilter {
    type V = TransactionFilterV;

    open spec fn view(&self) -> TransactionFilterV {
        TransactionFilterV {
            transaction_id: match self.transaction_id {
                Option::Some(p) => Option::Some(p@),
                Option::None => Option::None,
            },
            amount: self.amount,
            begin_time: self.begin_time,
            end_time: self.end_time,
        }
    }
}

impl TransactionFilter {
    /// A filter that matches every settlement of the caller.
    pub fn none() -> (r: TransactionFilter)
        ensures
            r@ == (TransactionFilterV {
                transaction_id: Option::None,
                amount: Option::None,
                begin_time: Option::None,
                end_time: Option::None,
            }),
    {
        TransactionFilter {
            transaction_id: Option::None,
            amount: Option::None,
            begin_time: Option::None,
            end_time: Option::None,
        }
    }
}

/// Whether one exchange log entry belongs to the caller and passes
/// every present filter.
pub open spec fn exchange_matches(r: ExchangeRecordV, uk: Seq<char>, f: TransactionFilterV) -> bool {
    &&& r.user_key == uk
    &&& (f.transaction_id matches Some(p) ==> p.is_prefix_of(r.transaction_id))
    &&& (f.amount matches Some(a) ==> r.amount == a)
    &&& (f.begin_time matches Some(b) ==> r.create_time >= b)
    &&& (f.end_time matches Some(e) ==> r.create_time < e)
}

/// The caller's settlements that pass the filter, in log order.
pub open spec fn filtered_exchanges(
    s: Seq<ExchangeRecordV>,
    uk: Seq<char>,
    f: TransactionFilterV,
) -> Seq<ExchangeRecordV> {
    s.filter(|r: ExchangeRecordV| exchange_matches(r, uk, f))
}

/// Whether one exchange log entry belongs to the caller and passes
/// every present filter.
fn matches_exchange(rec: &ExchangeRecord, uk: &String, f: &TransactionFilter) -> (b: bool)
    ensures
        b == exchange_matches(rec@, uk@, f@),
{
    if !(rec.user_key == *uk) {
        return false;
    }
    match &f.transaction_id {
        Option::Some(p) => {
            if !str_has_prefix(&rec.transaction_id, p) {
                return false;
            }
        },
        Option::None => {},
    }
    match &f.amount {
        Option::Some(a) => {
            if !(rec.amount == *a) {
                return false;
            }
        },
        Option::None => {},
    }
    match &f.begin_time {
        Option::Some(b) => {
            if rec.create_time < *b {
                return false;
            }
        },
        Option::None => {},
    }
    match &f.end_time {
        Option::Some(e) => {
            if rec.create_time >= *e {
                return false;
            }
        },
        Option::None => {},
    }
    true
}

/// Where a log entry sorts among entries already ordered newest first.
pub open spec fn sorted_insert_desc_ex(
    x: ExchangeRecordV,
    s: Seq<ExchangeRecordV>,
) -> Seq<ExchangeRecordV>
    decreases s.len(),
{
    if s.len() == 0 {
        seq![x]
    } else if x.create_time > s[0].create_time {
        seq![x] + s
    } else {
        seq![s[0]] + sorted_insert_desc_ex(x, s.drop_first())
    }
}

/// The log entries ordered newest first by settlement time; entries
/// settled at the same time keep their log order.
pub open spec fn sort_desc_ex(s: Seq<ExchangeRecordV>) -> Seq<ExchangeRecordV>
    decreases s.len(),
{
    if s.len() == 0 {
        Seq::empty()
    } else {
        sorted_insert_desc_ex(s.last(), sort_desc_ex(s.drop_last()))
    }
}

/// Inserting keeps every entry and adds the new one.
pub proof fn lemma_sorted_insert_len_ex(x: ExchangeRecordV, s: Seq<ExchangeRecordV>)
    ensures
        sorted_insert_desc_ex(x, s).len() == s.len() + 1,
    decreases s.len(),
{
    if s.len() != 0 && !(x.create_time > s[0].create_time) {
        lemma_sorted_insert_len_ex(x, s.drop_first());
    }
}

/// Sorting keeps the number of entries.
pub proof fn lemma_sort_desc_len_ex(s: Seq<ExchangeRecordV>)
    ensures
        sort_desc_ex(s).len() == s.len(),
    decreases s.len(),
{
    if s.len() != 0 {
        lemma_sort_desc_len_ex(s.drop_last());
        lemma_sorted_insert_len_ex(s.last(), sort_desc_ex(s.drop_last()));
    }
}

/// Where the first strictly older entry stands is where the new one is
/// inserted.
pub proof fn lemma_sorted_insert_at_ex(s: Seq<ExchangeRecordV>, x: ExchangeRecordV, j: int)
    requires
        0 <= j <= s.len(),
        forall|m: int| 0 <= m < j ==> (#[trigger] s[m]).create_time >= x.create_time,
        j < s.len() ==> s[j].create_time < x.create_time,
    ensures
        sorted_insert_desc_ex(x, s) == s.insert(j, x),
    decreases j,
{
    if j == 0 {
        if s.len() == 0 {
            assert(seq![x] =~= s.insert(0, x));
        } else {
            assert(x.create_time > s[0].create_time);
            assert(seq![x] + s =~= s.insert(0, x));
        }
    } else {
        assert(s[0].create_time >= x.create_time);
        assert forall|m: int| 0 <= m < j - 1 implies (
        #[trigger] s.drop_first()[m]).create_time >= x.create_time by {
            assert(s.drop_first()[m] == s[m + 1]);
        }
        assert(j - 1 < s.drop_first().len() ==> s.drop_first()[j - 1].create_time
            < x.create_time);
        lemma_sorted_insert_at_ex(s.drop_first(), x, j - 1);
        assert(seq![s[0]] + s.drop_first().insert(j - 1, x) =~= s.insert(j, x));
    }
}

/// Orders the given log entries newest first by settlement time,
/// keeping log order among entries settled at the same time.
fn sort_exchanges_desc(v: Vec<ExchangeRecord>) -> (r: Vec<ExchangeRecord>)
    ensures
        exchanges_view(r@) == sort_desc_ex(exchanges_view(v@)),
{
    let ghost vv = exchanges_view(v@);
    let mut out: Vec<ExchangeRecord> = Vec::new();
    proof {
        assert(vv.take(0) =~= Seq::<ExchangeRecordV>::empty());
        assert(exchanges_view(out@) =~= sort_desc_ex(vv.take(0)));
    }
    let mut k: usize = 0;
    while k < v.len()
        invariant
            k <= v.len(),
            vv == exchanges_view(v@),
            exchanges_view(out@) == sort_desc_ex(vv.take(k as int)),
        decreases v.len() - k,
    {
        let x = v[k].duplicate();
        let ghost xv = x@;
        let ghost outv = exchanges_view(out@);
        proof {
            assert(xv == vv[k as int]);
        }
        let mut j: usize = 0;
        while j < out.len() && out[j].create_time >= x.create_time
            invariant
                j <= out.len(),
                outv == exchanges_view(out@),
                xv == x@,
                forall|m: int| 0 <= m < j ==> (#[trigger] outv[m]).create_time >= xv.create_time,
            decreases out.len() - j,
        {
            proof {
                assert(outv[j as int].create_time >= xv.create_time);
            }
            j = j + 1;
        }
        let ghost outpre = out@;
        out.insert(j, x);
        proof {
            lemma_sorted_insert_at_ex(outv, xv, j as int);
            assert(out@ == outpre.insert(j as int, x));
            assert(exchanges_view(outpre.insert(j as int, x)) =~= outv.insert(j as int, xv));
            assert(vv.take(k as int + 1).drop_last() =~= vv.take(k as int));
            assert(vv.take(k as int + 1).last() == vv[k as int]);
        }
        k = k + 1;
    }
    proof {
        assert(vv.take(vv.len() as int) =~= vv);
    }
    out
}

/// One row of a transaction listing.
pub struct TransactionListItem {
    pub transaction_id: String,
    pub amount: u64,
    pub create_time: u64,
}

/// Mathematical model of a `TransactionListItem`.
pub struct TransactionListItemV {
    pub transaction_id: Seq<char>,
    pub amount: u64,
    pub create_time: u64,
}

impl View for TransactionListItem {
    type V = TransactionListItemV;

    open spec fn view(&self) -> TransactionListItemV {
        TransactionListItemV {
            transaction_id: self.transaction_id@,
            amount: self.amount,
            create_time: self.create_time,
        }
    }
}

/// The model of a sequence of listing rows.
pub open spec fn tx_items_view(s: Seq<TransactionListItem>) -> Seq<TransactionListItemV> {
    s.map_values(|x: TransactionListItem| x@)
}

/// The listing row of one log entry.
pub open spec fn tx_item_of(r: ExchangeRecordV) -> TransactionListItemV {
    TransactionListItemV {
        transaction_id: r.transaction_id,
        amount: r.amount,
        create_time: r.create_time,
    }
}

/// The listing rows of a sequence of log entries.
pub open spec fn tx_items_of(s: Seq<ExchangeRecordV>) -> Seq<TransactionListItemV> {
    s.map_values(|r: ExchangeRecordV| tx_item_of(r))
}

/// A transaction listing page: how many settlements match in all, and
/// the requested page of them.
pub struct TransactionList {
    pub total: u64,
    pub inner: Vec<TransactionListItem>,
}

impl Ledger {
    /// The transaction listing query: all the caller's settlements that
    /// pass the filter, ordered newest first by settlement time, cut
    /// into pages of `count` items; `page` is 1-indexed. `total` counts
    /// every match, and is 0 — with an empty page — when nothing
    /// matches.
    pub fn get_transaction_list(
        &self,
        user_key: &String,
        page: u64,
        count: u64,
        filter: &TransactionFilter,
    ) -> (r: TransactionList)
        requires
            page >= 1,
        ensures
            ({
                let fl = filtered_exchanges(self@.exchanges, user_key@, filter@);
                &&& r.total as int == fl.len()
                &&& tx_items_view(r.inner@) == tx_items_of(
                    page_slice(sort_desc_ex(fl), page, count),
                )
            }),
    {
        let ghost ev = exchanges_view(self.exchanges@);
        let ghost fl = filtered_exchanges(ev, user_key@, filter@);
        let ghost pred = |r: ExchangeRecordV| exchange_matches(r, user_key@, filter@);

        // collect the caller's matching settlements
        let mut matched: Vec<ExchangeRecord> = Vec::new();
        proof {
            reveal(Seq::filter);
            assert(ev.take(0) =~= Seq::<ExchangeRecordV>::empty());
            assert(exchanges_view(matched@) =~= ev.take(0).filter(pred));
        }
        let mut i: usize = 0;
        while i < self.exchanges.len()
            invariant
                i <= self.exchanges.len(),
                ev == exchanges_view(self.exchanges@),
                pred == (|r: ExchangeRecordV| exchange_matches(r, user_key@, filter@)),
                exchanges_view(matched@) == ev.take(i as int).filter(pred),
            decreases self.exchanges.len() - i,
        {
            let rec = &self.exchanges[i];
            proof {
                reveal(Seq::filter);
                assert(ev[i as int] == self.exchanges@[i as int]@);
                assert(ev.take(i as int + 1).drop_last() =~= ev.take(i as int));
                assert(ev.take(i as int + 1).last() == ev[i as int]);
                assert(ev.take(i as int + 1).filter(pred) == (if pred(ev[i as int]) {
                    ev.take(i as int).filter(pred).push(ev[i as int])
                } else {
                    ev.take(i as int).filter(pred)
                }));
            }
            if matches_exchange(rec, user_key, filter) {
                let ghost mpre = exchanges_view(matched@);
                let dup = rec.duplicate();
                matched.push(dup);
                proof {
                    assert(exchanges_view(matched@) =~= mpre.push(ev[i as int]));
                }
            }
            i = i + 1;
        }
        proof {
            assert(ev.take(ev.len() as int) =~= ev);
            assert(exchanges_view(matched@) == fl);
        }

        let total_count = matched.len();
        let sorted = sort_exchanges_desc(matched);
        let ghost sv = sort_desc_ex(fl);
        proof {
            lemma_sort_desc_len_ex(fl);
        }

        // clip the requested page to the listing
        let len = sorted.len();
        let lo: usize;
        let hi: usize;
        if count == 0 {
            lo = 0;
            hi = 0;
            proof {
                assert(sv.subrange(0, 0) =~= page_slice(sv, page, count));
            }
        } else if page - 1 > (len as u64) / count {
            lo = len;
            hi = len;
            proof {
                let q = len as int / count as int;
                lemma_fundamental_div_mod(len as int, count as int);
                lemma_mod_bound(len as int, count as int);
                lemma_mul_inequality(q + 1, page as int - 1, count as int);
                lemma_mul_is_distributive_add_other_way(count as int, q, 1);
                assert((q + 1) * (count as int) == q * (count as int) + count as int);
                assert(len as int == (count as int) * q + len as int % (count as int));
                assert(((page as int) - 1) * (count as int) > len as int);
                assert(sv.subrange(len as int, len as int) =~= page_slice(sv, page, count));
            }
        } else {
            proof {
                let q = len as int / count as int;
                lemma_fundamental_div_mod(len as int, count as int);
                lemma_mod_bound(len as int, count as int);
                lemma_mul_inequality(page as int - 1, q, count as int);
                assert(q * (count as int) <= len as int);
                assert(((page as int) - 1) * (count as int) <= len as int);
            }
            let offu: u64 = (page - 1) * count;
            lo = offu as usize;
            if count > (len as u64) - offu {
                hi = len;
            } else {
                hi = (offu + count) as usize;
            }
            proof {
                assert(sv.subrange(lo as int, hi as int) =~= page_slice(sv, page, count));
            }
        }

        // copy the page's rows
        let mut inner: Vec<TransactionListItem> = Vec::new();
        proof {
            assert(sv.subrange(lo as int, lo as int) =~= Seq::<ExchangeRecordV>::empty());
            assert(tx_items_view(inner@) =~= tx_items_of(sv.subrange(lo as int, lo as int)));
        }
        let mut idx: usize = lo;
        while idx < hi
            invariant
                lo <= idx <= hi <= sorted.len(),
                sv == exchanges_view(sorted@),
                tx_items_view(inner@) == tx_items_of(sv.subrange(lo as int, idx as int)),
            decreases hi - idx,
        {
            let rec = &sorted[idx];
            let ghost ipre = inner@;
            let item = TransactionListItem {
                transaction_id: rec.transaction_id.clone(),
                amount: rec.amount,
                create_time: rec.create_time,
            };
            inner.push(item);
            proof {
                assert(sv[idx as int] == sorted@[idx as int]@);
                assert(tx_items_view(inner@) =~= tx_items_view(ipre).push(
                    tx_item_of(sv[idx as int]),
                ));
                assert(sv.subrange(lo as int, idx as int + 1) =~= sv.subrange(
                    lo as int,
                    idx as int,
                ).push(sv[idx as int]));
                assert(tx_items_of(sv.subrange(lo as int, idx as int).push(sv[idx as int]))
                    =~= tx_items_of(sv.subrange(lo as int, idx as int)).push(
                    tx_item_of(sv[idx as int]),
                ));
            }
            idx = idx + 1;
        }

        TransactionList { total: total_count as u64, inner }
    }
}


/// Whether a timestamp lies in the half-open, optionally bounded query
/// window.
pub open spec fn in_window(ts: u64, begin: Option<u64>, end: Option<u64>) -> bool {
    &&& (begin matches Some(b) ==> ts >= b)
    &&& (end matches Some(e) ==> ts < e)
}

/// Whether a timestamp lies in the half-open query window.
fn ts_in_window(ts: u64, begin: Option<u64>, end: Option<u64>) -> (r: bool)
    ensures
        r == in_window(ts, begin, end),
{
    let after_begin = match begin {
        Option::Some(b) => ts >= b,
        Option::None => true,
    };
    let before_end = match end {
        Option::Some(e) => ts < e,
        Option::None => true,
    };
    after_begin && before_end
}

/// Total amount of the caller's records with the given status created
/// in the window.
pub open spec fn status_window_total(
    s: Seq<CurrencyRecordV>,
    uk: Seq<char>,
    status: CurrencyStatus,
    begin: Option<u64>,
    end: Option<u64>,
) -> int
    decreases s.len(),
{
    if s.len() == 0 {
        0
    } else {
        status_window_total(s.drop_last(), uk, status, begin, end) + if s.last().user_key == uk
            && s.last().status == status && in_window(s.last().create_time, begin, end) {
            s.last().amount as int
        } else {
            0
        }
    }
}

/// The day a timestamp falls on, in days since the epoch.
pub open spec fn day_of(ts: u64) -> int {
    ts as int / 86400
}

/// Total amount of the caller's circulating records created on `day`.
pub open spec fn day_circulating_total(s: Seq<CurrencyRecordV>, uk: Seq<char>, day: int) -> int
    decreases s.len(),
{
    if s.len() == 0 {
        0
    } else {
        day_circulating_total(s.drop_last(), uk, day) + if s.last().user_key == uk
            && s.last().status == CurrencyStatus::Circulating && day_of(s.last().create_time)
            == day {
            s.last().amount as int
        } else {
            0
        }
    }
}

/// How many of the caller's settlements are logged in the window.
pub open spec fn window_exchange_count(
    s: Seq<ExchangeRecordV>,
    uk: Seq<char>,
    begin: Option<u64>,
    end: Option<u64>,
) -> int
    decreases s.len(),
{
    if s.len() == 0 {
        0
    } else {
        window_exchange_count(s.drop_last(), uk, begin, end) + if s.last().user_key == uk
            && in_window(s.last().create_time, begin, end) {
            1int
        } else {
            0int
        }
    }
}

/// A windowed total stays between 0 and the store's whole total.
pub proof fn lemma_status_window_total_bound(
    s: Seq<CurrencyRecordV>,
    uk: Seq<char>,
    status: CurrencyStatus,
    begin: Option<u64>,
    end: Option<u64>,
)
    ensures
        0 <= status_window_total(s, uk, status, begin, end) <= sum_records(s),
    decreases s.len(),
{
    if s.len() != 0 {
        lemma_status_window_total_bound(s.drop_last(), uk, status, begin, end);
    }
}

/// A daily total stays between 0 and the store's whole total.
pub proof fn lemma_day_circulating_total_bound(s: Seq<CurrencyRecordV>, uk: Seq<char>, day: int)
    ensures
        0 <= day_circulating_total(s, uk, day) <= sum_records(s),
    decreases s.len(),
{
    if s.len() != 0 {
        lemma_day_circulating_total_bound(s.drop_last(), uk, day);
    }
}

/// No record was created on a day before the epoch.
pub proof fn lemma_day_total_before_epoch(s: Seq<CurrencyRecordV>, uk: Seq<char>, day: int)
    requires
        day < 0,
    ensures
        day_circulating_total(s, uk, day) == 0,
    decreases s.len(),
{
    if s.len() != 0 {
        lemma_day_total_before_epoch(s.drop_last(), uk, day);
    }
}

/// A settlement count stays between 0 and the log's length.
pub proof fn lemma_window_exchange_count_bound(
    s: Seq<ExchangeRecordV>,
    uk: Seq<char>,
    begin: Option<u64>,
    end: Option<u64>,
)
    ensures
        0 <= window_exchange_count(s, uk, begin, end) <= s.len(),
    decreases s.len(),
{
    if s.len() != 0 {
        lemma_window_exchange_count_bound(s.drop_last(), uk, begin, end);
    }
}

/// A prefix total never exceeds the whole total.
pub proof fn lemma_sum_records_take_le(s: Seq<CurrencyRecordV>, k: int)
    requires
        0 <= k <= s.len(),
    ensures
        sum_records(s.take(k)) <= sum_records(s),
    decreases s.len() - k,
{
    if k == s.len() {
        assert(s.take(k) =~= s);
    } else {
        assert(s.take(k + 1).drop_last() =~= s.take(k));
        assert(s.take(k + 1).last() == s[k]);
        lemma_sum_records_take_le(s, k + 1);
    }
}

/// Total amount of the caller's records with the given status created
/// in the window.
fn sum_status_window(
    v: &Vec<CurrencyRecord>,
    uk: &String,
    status: CurrencyStatus,
    begin: Option<u64>,
    end: Option<u64>,
) -> (t: u64)
    requires
        sum_records(records_view(v@)) <= u64::MAX,
    ensures
        t as int == status_window_total(records_view(v@), uk@, status, begin, end),
{
    let ghost cv = records_view(v@);
    let mut t: u64 = 0;
    proof {
        assert(cv.take(0) =~= Seq::<CurrencyRecordV>::empty());
    }
    let mut i: usize = 0;
    while i < v.len()
        invariant
            i <= v.len(),
            cv == records_view(v@),
            sum_records(cv) <= u64::MAX,
            t as int == status_window_total(cv.take(i as int), uk@, status, begin, end),
        decreases v.len() - i,
    {
        let rec = &v[i];
        proof {
            assert(cv[i as int] == v@[i as int]@);
            assert(cv.take(i as int + 1).drop_last() =~= cv.take(i as int));
            assert(cv.take(i as int + 1).last() == cv[i as int]);
            lemma_status_window_total_bound(cv.take(i as int + 1), uk@, status, begin, end);
            lemma_sum_records_take_le(cv, i as int + 1);
            lemma_status_window_total_bound(cv.take(i as int), uk@, status, begin, end);
        }
        if rec.user_key == *uk && rec.status == status && ts_in_window(
            rec.create_time,
            begin,
            end,
        ) {
            t = t + rec.amount;
        }
        i = i + 1;
    }
    proof {
        assert(cv.take(cv.len() as int) =~= cv);
    }
    t
}

/// Total amount of the caller's circulating records created on `day`.
fn sum_day_circulating(v: &Vec<CurrencyRecord>, uk: &String, day: u64) -> (t: u64)
    requires
        sum_records(records_view(v@)) <= u64::MAX,
    ensures
        t as int == day_circulating_total(records_view(v@), uk@, day as int),
{
    let ghost cv = records_view(v@);
    let mut t: u64 = 0;
    proof {
        assert(cv.take(0) =~= Seq::<CurrencyRecordV>::empty());
    }
    let mut i: usize = 0;
    while i < v.len()
        invariant
            i <= v.len(),
            cv == records_view(v@),
            sum_records(cv) <= u64::MAX,
            t as int == day_circulating_total(cv.take(i as int), uk@, day as int),
        decreases v.len() - i,
    {
        let rec = &v[i];
        proof {
            assert(cv[i as int] == v@[i as int]@);
            assert(cv.take(i as int + 1).drop_last() =~= cv.take(i as int));
            assert(cv.take(i as int + 1).last() == cv[i as int]);
            lemma_day_circulating_total_bound(cv.take(i as int + 1), uk@, day as int);
            lemma_sum_records_take_le(cv, i as int + 1);
            lemma_day_circulating_total_bound(cv.take(i as int), uk@, day as int);
        }
        if rec.user_key == *uk && rec.status == CurrencyStatus::Circulating && rec.create_time
            / 86400 == day {
            t = t + rec.amount;
        }
        i = i + 1;
    }
    proof {
        assert(cv.take(cv.len() as int) =~= cv);
    }
    t
}

/// The aggregate statistics report: the circulating and destroyed
/// totals and the settlement count in the window, and the circulating
/// amounts minted on each of the last seven days, today first.
pub struct Statistics {
    pub circulation_quota: u64,
    pub destroy_quota: u64,
    pub transaction_number: u64,
    pub circulation_day: Vec<u64>,
}

impl Ledger {
    /// The statistics query: sums the caller's circulating and
    /// destroyed amounts over records created in the optional
    /// half-open window, counts the caller's settlements logged in
    /// that window, and reports the circulating amounts created on
    /// each of the seven calendar days up to `today_day` (days since
    /// the epoch), today first.
    #[verifier::loop_isolation(false)]
    pub fn get_currency_statis(
        &self,
        user_key: &String,
        begin_time: Option<u64>,
        end_time: Option<u64>,
        today_day: u64,
    ) -> (r: Statistics)
        requires
            self.wf(),
        ensures
            r.circulation_quota as int == status_window_total(
                self@.currencies,
                user_key@,
                CurrencyStatus::Circulating,
                begin_time,
                end_time,
            ),
            r.destroy_quota as int == status_window_total(
                self@.currencies,
                user_key@,
                CurrencyStatus::Destroyed,
                begin_time,
                end_time,
            ),
            r.transaction_number as int == window_exchange_count(
                self@.exchanges,
                user_key@,
                begin_time,
                end_time,
            ),
            r.circulation_day@.len() == 7,
            forall|d: int|
                0 <= d < 7 ==> (#[trigger] r.circulation_day@[d]) as int == day_circulating_total(
                    self@.currencies,
                    user_key@,
                    today_day as int - d,
                ),
    {
        let circulation_quota = sum_status_window(
            &self.currencies,
            user_key,
            CurrencyStatus::Circulating,
            begin_time,
            end_time,
        );
        let destroy_quota = sum_status_window(
            &self.currencies,
            user_key,
            CurrencyStatus::Destroyed,
            begin_time,
            end_time,
        );

        // count the settlements logged in the window
        let ghost ev = exchanges_view(self.exchanges@);
        let mut transaction_number: usize = 0;
        proof {
            assert(ev.take(0) =~= Seq::<ExchangeRecordV>::empty());
        }
        let mut i: usize = 0;
        while i < self.exchanges.len()
            invariant
                i <= self.exchanges.len(),
                ev == exchanges_view(self.exchanges@),
                transaction_number as int == window_exchange_count(
                    ev.take(i as int),
                    user_key@,
                    begin_time,
                    end_time,
                ),
            decreases self.exchanges.len() - i,
        {
            let rec = &self.exchanges[i];
            proof {
                assert(ev[i as int] == self.exchanges@[i as int]@);
                assert(ev.take(i as int + 1).drop_last() =~= ev.take(i as int));
                assert(ev.take(i as int + 1).last() == ev[i as int]);
                lemma_window_exchange_count_bound(
                    ev.take(i as int),
                    user_key@,
                    begin_time,
                    end_time,
                );
            }
            if rec.user_key == *user_key && ts_in_window(rec.create_time, begin_time, end_time) {
                transaction_number = transaction_number + 1;
            }
            i = i + 1;
        }
        proof {
            assert(ev.take(ev.len() as int) =~= ev);
        }

        // the circulating amounts created on each of the last 7 days
        let mut circulation_day: Vec<u64> = Vec::new();
        let mut d: usize = 0;
        while d < 7
            invariant
                d <= 7,
                circulation_day@.len() == d,
                forall|x: int|
                    0 <= x < d ==> (#[trigger] circulation_day@[x]) as int
                        == day_circulating_total(
                        records_view(self.currencies@),
                        user_key@,
                        today_day as int - x,
                    ),
            decreases 7 - d,
        {
            let slot: u64 = if (d as u64) <= today_day {
                sum_day_circulating(&self.currencies, user_key, today_day - (d as u64))
            } else {
                proof {
                    lemma_day_total_before_epoch(
                        records_view(self.currencies@),
                        user_key@,
                        today_day as int - d,
                    );
                }
                0
            };
            circulation_day.push(slot);
            d = d + 1;
        }

        Statistics {
            circulation_quota,
            destroy_quota,
            transaction_number: transaction_number as u64,
            circulation_day,
        }
    }
}

} // verus!
