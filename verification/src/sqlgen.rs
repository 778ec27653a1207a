//! Builds the relational queries behind the two listing endpoints for
//! a deployment that keeps the stores in a relational database. Every
//! caller-supplied value travels as a numbered positional parameter —
//! including the identity-prefix matches — and the produced query text
//! is proved to depend only on which filters are present, never on
//! their values: no caller-supplied text can reach the query.

use vstd::prelude::*;
use vstd::string::StringExecFns;
use crate::query::{CurrencyFilter, TransactionFilter};

verus! {

/// 1 when a filter is present, else 0.
pub open spec fn bi(present: bool) -> int {
    if present {
        1int
    } else {
        0int
    }
}

/// The text of the positional parameter number `n`.
pub open spec fn param_num(n: int) -> Seq<char> {
    if n == 1 {
        "1"@
    } else if n == 2 {
        "2"@
    } else if n == 3 {
        "3"@
    } else if n == 4 {
        "4"@
    } else if n == 5 {
        "5"@
    } else if n == 6 {
        "6"@
    } else if n == 7 {
        "7"@
    } else if n == 8 {
        "8"@
    } else if n == 9 {
        "9"@
    } else {
        "10"@
    }
}

/// A filter clause: its fixed text and its parameter number when the
/// filter is present, nothing when it is not.
pub open spec fn opt_clause(present: bool, text: Seq<char>, n: int) -> Seq<char> {
    if present {
        text + param_num(n)
    } else {
        Seq::empty()
    }
}

/// The filter clauses of a currency listing, numbered in order after
/// the caller-key parameter `$1`.
pub open spec fn currency_clauses(
    hp: bool,
    hs: bool,
    ha: bool,
    hcb: bool,
    hce: bool,
    hdb: bool,
    hde: bool,
) -> Seq<char> {
    opt_clause(hp, " and currency_id like $"@, 2) + opt_clause(
        hs,
        " and status = $"@,
        2 + bi(hp),
    ) + opt_clause(ha, " and amount = $"@, 2 + bi(hp) + bi(hs)) + opt_clause(
        hcb,
        " and create_time >= $"@,
        2 + bi(hp) + bi(hs) + bi(ha),
    ) + opt_clause(hce, " and create_time < $"@, 2 + bi(hp) + bi(hs) + bi(ha) + bi(hcb))
        + opt_clause(
        hdb,
        " and update_time >= $"@,
        2 + bi(hp) + bi(hs) + bi(ha) + bi(hcb) + bi(hce),
    ) + opt_clause(
        hde,
        " and update_time < $"@,
        2 + bi(hp) + bi(hs) + bi(ha) + bi(hcb) + bi(hce) + bi(hdb),
    )
}

/// The counting query of a currency listing.
pub open spec fn currency_count_sql(
    hp: bool,
    hs: bool,
    ha: bool,
    hcb: bool,
    hce: bool,
    hdb: bool,
    hde: bool,
) -> Seq<char> {
    "SELECT COUNT(*) FROM transactions where cloud_user_id = $1"@ + currency_clauses(
        hp,
        hs,
        ha,
        hcb,
        hce,
        hdb,
        hde,
    )
}

/// The page query of a currency listing: the rows, newest first, with
/// the page limit and offset as the last two parameters.
pub open spec fn currency_page_sql(
    hp: bool,
    hs: bool,
    ha: bool,
    hcb: bool,
    hce: bool,
    hdb: bool,
    hde: bool,
) -> Seq<char> {
    let next = 2 + bi(hp) + bi(hs) + bi(ha) + bi(hcb) + bi(hce) + bi(hdb) + bi(hde);
    "SELECT currency_id, status, amount, create_time, update_time from transactions where cloud_user_id = $1"@
        + currency_clauses(hp, hs, ha, hcb, hce, hdb, hde)
        + " ORDER BY create_time DESC LIMIT $"@ + param_num(next) + " OFFSET $"@ + param_num(
        next + 1,
    )
}

/// The filter clauses of a transaction listing.
pub open spec fn transaction_clauses(hp: bool, ha: bool, hb: bool, he: bool) -> Seq<char> {
    opt_clause(hp, " and transaction_id like $"@, 2) + opt_clause(
        ha,
        " and amount = $"@,
        2 + bi(hp),
    ) + opt_clause(hb, " and create_time >= $"@, 2 + bi(hp) + bi(ha)) + opt_clause(
        he,
        " and create_time < $"@,
        2 + bi(hp) + bi(ha) + bi(hb),
    )
}

/// The counting query of a transaction listing.
pub open spec fn transaction_count_sql(hp: bool, ha: bool, hb: bool, he: bool) -> Seq<char> {
    "SELECT COUNT(*) from exchanges where cloud_user_id = $1"@ + transaction_clauses(
        hp,
        ha,
        hb,
        he,
    )
}

/// The page query of a transaction listing.
pub open spec fn transaction_page_sql(hp: bool, ha: bool, hb: bool, he: bool) -> Seq<char> {
    let next = 2 + bi(hp) + bi(ha) + bi(hb) + bi(he);
    "SELECT transaction_id, amount, create_time from exchanges where cloud_user_id = $1"@
        + transaction_clauses(hp, ha, hb, he) + " ORDER BY create_time DESC LIMIT $"@ + param_num(
        next,
    ) + " OFFSET $"@ + param_num(next + 1)
}

/// The text of the positional parameter number `n`.
fn param_str(n: u64) -> (r: &'static str)
    requires
        1 <= n <= 10,
    ensures
        r@ == param_num(n as int),
{
    if n == 1 {
        "1"
    } else if n == 2 {
        "2"
    } else if n == 3 {
        "3"
    } else if n == 4 {
        "4"
    } else if n == 5 {
        "5"
    } else if n == 6 {
        "6"
    } else if n == 7 {
        "7"
    } else if n == 8 {
        "8"
    } else if n == 9 {
        "9"
    } else {
        "10"
    }
}

/// The two queries of one listing, and how many positional parameters
/// the page query takes: the caller key, one value per present filter,
/// then the page limit and offset.
pub struct BuiltQuery {
    pub count_sql: String,
    pub page_sql: String,
    pub params: u64,
}

/// Appends one optional filter clause: its fixed text and its
/// parameter number when the filter is present, nothing when it is
/// not. Returns the next parameter number.
fn add_clause(s: &mut String, present: bool, text: &'static str, n: u64) -> (n2: u64)
    requires
        1 <= n <= 9,
    ensures
        final(s)@ == old(s)@ + opt_clause(present, text@, n as int),
        n2 as int == n + bi(present),
{
    if present {
        s.append(text);
        s.append(param_str(n));
        n + 1
    } else {
        proof {
            assert(s@ =~= old(s)@ + opt_clause(present, text@, n as int));
        }
        n
    }
}

/// Builds the currency listing queries for the given filter. The query
/// text depends only on which filters are present — the filters'
/// values never reach it, they are bound as positional parameters.
#[verifier::rlimit(100)]
pub fn build_currency_list_query(filter: &CurrencyFilter) -> (r: BuiltQuery)
    ensures
        ({
            let f = filter@;
            let hp = f.currency_id is Some;
            let hs = f.status is Some;
            let ha = f.amount is Some;
            let hcb = f.create_time is Some;
            let hce = f.create_end_time is Some;
            let hdb = f.destroy_time is Some;
            let hde = f.destroy_end_time is Some;
            &&& r.count_sql@ == currency_count_sql(hp, hs, ha, hcb, hce, hdb, hde)
            &&& r.page_sql@ == currency_page_sql(hp, hs, ha, hcb, hce, hdb, hde)
            &&& r.params as int == 3 + bi(hp) + bi(hs) + bi(ha) + bi(hcb) + bi(hce) + bi(hdb)
                + bi(hde)
        }),
{
    let ghost hp = filter@.currency_id is Some;
    let ghost hs = filter@.status is Some;
    let ghost ha = filter@.amount is Some;
    let ghost hcb = filter@.create_time is Some;
    let ghost hce = filter@.create_end_time is Some;
    let ghost hdb = filter@.destroy_time is Some;
    let ghost hde = filter@.destroy_end_time is Some;

    let mut clauses = String::new();
    let mut n: u64 = 2;
    n = add_clause(&mut clauses, filter.currency_id.is_some(), " and currency_id like $", n);
    n = add_clause(&mut clauses, filter.status.is_some(), " and status = $", n);
    n = add_clause(&mut clauses, filter.amount.is_some(), " and amount = $", n);
    n = add_clause(&mut clauses, filter.create_time.is_some(), " and create_time >= $", n);
    n = add_clause(&mut clauses, filter.create_end_time.is_some(), " and create_time < $", n);
    n = add_clause(&mut clauses, filter.destroy_time.is_some(), " and update_time >= $", n);
    n = add_clause(&mut clauses, filter.destroy_end_time.is_some(), " and update_time < $", n);
    proof {
        assert(clauses@ =~= currency_clauses(hp, hs, ha, hcb, hce, hdb, hde));
    }

    let mut count_sql = String::from_str(
        "SELECT COUNT(*) FROM transactions where cloud_user_id = $1",
    );
    count_sql.append(clauses.as_str());
    let mut page_sql = String::from_str(
        "SELECT currency_id, status, amount, create_time, update_time from transactions where cloud_user_id = $1",
    );
    page_sql.append(clauses.as_str());
    page_sql.append(" ORDER BY create_time DESC LIMIT $");
    page_sql.append(param_str(n));
    page_sql.append(" OFFSET $");
    page_sql.append(param_str(n + 1));
    proof {
        assert(page_sql@ =~= currency_page_sql(hp, hs, ha, hcb, hce, hdb, hde));
    }
    BuiltQuery { count_sql, page_sql, params: n + 1 }
}

/// Builds the transaction listing queries for the given filter, with
/// the same guarantee: the filters' values never reach the query text.
#[verifier::rlimit(100)]
pub fn build_transaction_list_query(filter: &TransactionFilter) -> (r: BuiltQuery)
    ensures
        ({
            let f = filter@;
            let hp = f.transaction_id is Some;
            let ha = f.amount is Some;
            let hb = f.begin_time is Some;
            let he = f.end_time is Some;
            &&& r.count_sql@ == transaction_count_sql(hp, ha, hb, he)
            &&& r.page_sql@ == transaction_page_sql(hp, ha, hb, he)
            &&& r.params as int == 3 + bi(hp) + bi(ha) + bi(hb) + bi(he)
        }),
{
    let ghost hp = filter@.transaction_id is Some;
    let ghost ha = filter@.amount is Some;
    let ghost hb = filter@.begin_time is Some;
    let ghost he = filter@.end_time is Some;

    let mut clauses = String::new();
    let mut n: u64 = 2;
    n = add_clause(&mut clauses, filter.transaction_id.is_some(), " and transaction_id like $", n);
    n = add_clause(&mut clauses, filter.amount.is_some(), " and amount = $", n);
    n = add_clause(&mut clauses, filter.begin_time.is_some(), " and create_time >= $", n);
    n = add_clause(&mut clauses, filter.end_time.is_some(), " and create_time < $", n);
    proof {
        assert(clauses@ =~= transaction_clauses(hp, ha, hb, he));
    }

    let mut count_sql = String::from_str("SELECT COUNT(*) from exchanges where cloud_user_id = $1");
    count_sql.append(clauses.as_str());
    let mut page_sql = String::from_str(
        "SELECT transaction_id, amount, create_time from exchanges where cloud_user_id = $1",
    );
    page_sql.append(clauses.as_str());
    page_sql.append(" ORDER BY create_time DESC LIMIT $");
    page_sql.append(param_str(n));
    page_sql.append(" OFFSET $");
    page_sql.append(param_str(n + 1));
    proof {
        assert(page_sql@ =~= transaction_page_sql(hp, ha, hb, he));
    }
    BuiltQuery { count_sql, page_sql, params: n + 1 }
}

} // verus!
