use currency_ledger::query::{CurrencyFilter, TransactionFilter};
use currency_ledger::sqlgen::{build_currency_list_query, build_transaction_list_query};
use currency_ledger::types::CurrencyStatus;

#[test]
fn currency_query_without_filters() {
    let q = build_currency_list_query(&CurrencyFilter::none());
    assert_eq!(q.count_sql, "SELECT COUNT(*) FROM transactions where cloud_user_id = $1");
    assert_eq!(
        q.page_sql,
        "SELECT currency_id, status, amount, create_time, update_time from transactions \
         where cloud_user_id = $1 ORDER BY create_time DESC LIMIT $2 OFFSET $3"
    );
    assert_eq!(q.params, 3);
}

#[test]
fn currency_query_numbers_present_filters_in_order() {
    let f = CurrencyFilter {
        currency_id: Some(String::from("ab")),
        status: Some(CurrencyStatus::Circulating),
        create_end_time: Some(99),
        ..CurrencyFilter::none()
    };
    let q = build_currency_list_query(&f);
    assert_eq!(
        q.count_sql,
        "SELECT COUNT(*) FROM transactions where cloud_user_id = $1 and currency_id like $2 \
         and status = $3 and create_time < $4"
    );
    assert_eq!(
        q.page_sql,
        "SELECT currency_id, status, amount, create_time, update_time from transactions \
         where cloud_user_id = $1 and currency_id like $2 and status = $3 and create_time < $4 \
         ORDER BY create_time DESC LIMIT $5 OFFSET $6"
    );
    assert_eq!(q.params, 6);
}

#[test]
fn query_text_ignores_filter_values() {
    // a hostile prefix value cannot alter the query text: only its
    // presence is reflected, the value stays a bound parameter
    let hostile = CurrencyFilter {
        currency_id: Some(String::from("x' OR '1'='1; DROP TABLE transactions; --")),
        ..CurrencyFilter::none()
    };
    let benign =
        CurrencyFilter { currency_id: Some(String::from("a")), ..CurrencyFilter::none() };
    let qh = build_currency_list_query(&hostile);
    let qb = build_currency_list_query(&benign);
    assert_eq!(qh.count_sql, qb.count_sql);
    assert_eq!(qh.page_sql, qb.page_sql);
    assert!(!qh.page_sql.contains("DROP"));
}

#[test]
fn transaction_query_with_all_filters() {
    let f = TransactionFilter {
        transaction_id: Some(String::from("tx")),
        amount: Some(5),
        begin_time: Some(1),
        end_time: Some(2),
    };
    let q = build_transaction_list_query(&f);
    assert_eq!(
        q.count_sql,
        "SELECT COUNT(*) from exchanges where cloud_user_id = $1 and transaction_id like $2 \
         and amount = $3 and create_time >= $4 and create_time < $5"
    );
    assert_eq!(
        q.page_sql,
        "SELECT transaction_id, amount, create_time from exchanges where cloud_user_id = $1 \
         and transaction_id like $2 and amount = $3 and create_time >= $4 and create_time < $5 \
         ORDER BY create_time DESC LIMIT $6 OFFSET $7"
    );
    assert_eq!(q.params, 7);
}
