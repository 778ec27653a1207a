use currency_ledger::ledger::Ledger;
use currency_ledger::query::{CurrencyFilter, TransactionFilter};
use currency_ledger::types::{CurrencyStatus, CurrencyUnit, LedgerError, Transfer};

fn unit(id: &str, amount: u64, owner: &[u8]) -> CurrencyUnit {
    CurrencyUnit { id: String::from(id), amount, owner: owner.to_vec() }
}

fn transfer(id: &str, inputs: Vec<CurrencyUnit>, raw: &str) -> Transfer {
    Transfer { id: String::from(id), inputs, raw: String::from(raw) }
}

/// A ledger with three mints for user-1 at rising times, one spend, and
/// one mint for another caller.
fn sample_ledger() -> (Ledger, String) {
    let mut l = Ledger::new();
    let uk = String::from("user-1");
    l.settle(&uk, &transfer("tx1", vec![], "00"), &vec![unit("a100", 50, &[1])], 1000).unwrap();
    l.settle(&uk, &transfer("tx2", vec![], "00"), &vec![unit("a200", 70, &[1])], 2000).unwrap();
    l.settle(&uk, &transfer("tx3", vec![unit("a100", 50, &[2])], "0b"), &vec![unit("b100", 50, &[3])], 3000)
        .unwrap();
    let other = String::from("user-2");
    l.settle(&other, &transfer("tx9", vec![], "00"), &vec![unit("z900", 11, &[9])], 1500).unwrap();
    (l, uk)
}

#[test]
fn currency_detail_of_spent_unit() {
    let (l, uk) = sample_ledger();
    let d = l.get_currency_info(&uk, &String::from("a100")).unwrap();
    assert_eq!(d.currency_id, "a100");
    assert!(matches!(d.status, CurrencyStatus::Destroyed));
    assert_eq!(d.amount, 50);
    assert_eq!(d.create_time, 1000);
    assert_eq!(d.late_time, 3000);
    // spent by tx3: resolved through the lineage edge to b100's settlement
    assert_eq!(d.transaction_id, "tx3");
    assert_eq!(d.destroytrans_id, Some(String::from("tx3")));
}

#[test]
fn currency_detail_of_circulating_unit_has_no_destroyer() {
    let (l, uk) = sample_ledger();
    let d = l.get_currency_info(&uk, &String::from("a200")).unwrap();
    assert!(matches!(d.status, CurrencyStatus::Circulating));
    assert_eq!(d.destroytrans_id, None);
    assert_eq!(d.owner, "01");
}

#[test]
fn currency_detail_not_found() {
    let (l, uk) = sample_ledger();
    let r = l.get_currency_info(&uk, &String::from("missing"));
    assert_eq!(r.err(), Some(LedgerError::NotFound));
    // another caller's unit is invisible
    let r2 = l.get_currency_info(&uk, &String::from("z900"));
    assert_eq!(r2.err(), Some(LedgerError::NotFound));
}

#[test]
fn exchange_detail_recovers_inputs_and_outputs() {
    let (l, uk) = sample_ledger();
    let d = l.get_exchange_info(&uk, &String::from("tx3")).unwrap();
    assert_eq!(d.transaction_id, "tx3");
    assert_eq!(d.trans_amount, 50);
    assert_eq!(d.transaction_time, 3000);
    assert_eq!(d.input, vec![(String::from("a100"), 50)]);
    assert_eq!(d.output, vec![(String::from("b100"), 50)]);
}

#[test]
fn exchange_detail_not_found() {
    let (l, uk) = sample_ledger();
    assert_eq!(l.get_exchange_info(&uk, &String::from("tx9")).err(), Some(LedgerError::NotFound));
}

#[test]
fn currency_list_orders_newest_first_and_paginates() {
    let (l, uk) = sample_ledger();
    let page1 = l.get_currency_list(&uk, 1, 2, &CurrencyFilter::none());
    assert_eq!(page1.total, 3);
    assert_eq!(page1.inner.len(), 2);
    assert_eq!(page1.inner[0].currency_id, "b100");
    assert_eq!(page1.inner[0].create_time, 3000);
    assert_eq!(page1.inner[1].currency_id, "a200");
    let page2 = l.get_currency_list(&uk, 2, 2, &CurrencyFilter::none());
    assert_eq!(page2.total, 3);
    assert_eq!(page2.inner.len(), 1);
    assert_eq!(page2.inner[0].currency_id, "a100");
    // concatenating the pages yields every match exactly once
    let mut seen: Vec<String> = Vec::new();
    for it in page1.inner.iter().chain(page2.inner.iter()) {
        assert!(!seen.contains(&it.currency_id));
        seen.push(it.currency_id.clone());
    }
    assert_eq!(seen.len(), 3);
    // a page past the end is empty, not an error
    let page3 = l.get_currency_list(&uk, 3, 2, &CurrencyFilter::none());
    assert_eq!(page3.total, 3);
    assert_eq!(page3.inner.len(), 0);
}

#[test]
fn currency_list_filters() {
    let (l, uk) = sample_ledger();
    let by_prefix = CurrencyFilter { currency_id: Some(String::from("a")), ..CurrencyFilter::none() };
    let r = l.get_currency_list(&uk, 1, 10, &by_prefix);
    assert_eq!(r.total, 2);
    assert!(r.inner.iter().all(|i| i.currency_id.starts_with('a')));

    let by_status =
        CurrencyFilter { status: Some(CurrencyStatus::Destroyed), ..CurrencyFilter::none() };
    let r = l.get_currency_list(&uk, 1, 10, &by_status);
    assert_eq!(r.total, 1);
    assert_eq!(r.inner[0].currency_id, "a100");

    let by_amount = CurrencyFilter { amount: Some(70), ..CurrencyFilter::none() };
    let r = l.get_currency_list(&uk, 1, 10, &by_amount);
    assert_eq!(r.total, 1);
    assert_eq!(r.inner[0].currency_id, "a200");

    // the creation interval is half-open: [2000, 3000) keeps only a200
    let by_created = CurrencyFilter {
        create_time: Some(2000),
        create_end_time: Some(3000),
        ..CurrencyFilter::none()
    };
    let r = l.get_currency_list(&uk, 1, 10, &by_created);
    assert_eq!(r.total, 1);
    assert_eq!(r.inner[0].currency_id, "a200");

    let none_match = CurrencyFilter { amount: Some(999), ..CurrencyFilter::none() };
    let r = l.get_currency_list(&uk, 1, 10, &none_match);
    assert_eq!(r.total, 0);
    assert_eq!(r.inner.len(), 0);
}

#[test]
fn currency_list_with_zero_count_is_empty() {
    let (l, uk) = sample_ledger();
    let r = l.get_currency_list(&uk, 1, 0, &CurrencyFilter::none());
    assert_eq!(r.total, 3);
    assert_eq!(r.inner.len(), 0);
}

#[test]
fn transaction_list_orders_and_filters() {
    let (l, uk) = sample_ledger();
    let all = l.get_transaction_list(&uk, 1, 10, &TransactionFilter::none());
    assert_eq!(all.total, 3);
    assert_eq!(all.inner[0].transaction_id, "tx3");
    assert_eq!(all.inner[1].transaction_id, "tx2");
    assert_eq!(all.inner[2].transaction_id, "tx1");
    assert_eq!(all.inner[0].amount, 50);

    let page2 = l.get_transaction_list(&uk, 2, 2, &TransactionFilter::none());
    assert_eq!(page2.inner.len(), 1);
    assert_eq!(page2.inner[0].transaction_id, "tx1");

    let by_window = TransactionFilter {
        begin_time: Some(2000),
        end_time: Some(3000),
        ..TransactionFilter::none()
    };
    let r = l.get_transaction_list(&uk, 1, 10, &by_window);
    assert_eq!(r.total, 1);
    assert_eq!(r.inner[0].transaction_id, "tx2");

    let by_amount = TransactionFilter { amount: Some(70), ..TransactionFilter::none() };
    let r = l.get_transaction_list(&uk, 1, 10, &by_amount);
    assert_eq!(r.total, 1);
    assert_eq!(r.inner[0].transaction_id, "tx2");

    let by_prefix =
        TransactionFilter { transaction_id: Some(String::from("tx")), ..TransactionFilter::none() };
    let r = l.get_transaction_list(&uk, 1, 10, &by_prefix);
    assert_eq!(r.total, 3);
}

#[test]
fn statistics_over_one_settlement_window() {
    let mut l = Ledger::new();
    let uk = String::from("user-1");
    let day = 86400u64;
    // an older mint, outside the window below
    l.settle(&uk, &transfer("tx1", vec![], "00"), &vec![unit("old1", 30, &[1])], 9 * day).unwrap();
    // one settlement at day 10 whose input was never recorded locally
    let t = transfer("tx2", vec![unit("ext1", 40, &[2])], "0d");
    l.settle(&uk, &t, &vec![unit("new1", 25, &[3]), unit("new2", 15, &[3])], 10 * day + 5).unwrap();

    // a window holding exactly that settlement
    let s = l.get_currency_statis(&uk, Some(10 * day), Some(11 * day), 10);
    assert_eq!(s.transaction_number, 1);
    assert_eq!(s.circulation_quota, 40);
    assert_eq!(s.destroy_quota, 40);

    // daily totals: today (day 10) minted 40 circulating, day 9 minted 30
    assert_eq!(s.circulation_day, vec![40, 30, 0, 0, 0, 0, 0]);
}

#[test]
fn statistics_without_window_cover_everything() {
    let (l, uk) = sample_ledger();
    let s = l.get_currency_statis(&uk, None, None, 0);
    // a200 (70) and b100 (50) circulate; a100 (50) is destroyed
    assert_eq!(s.circulation_quota, 120);
    assert_eq!(s.destroy_quota, 50);
    assert_eq!(s.transaction_number, 3);
    assert_eq!(s.circulation_day.len(), 7);
    // every sample timestamp lies on day 0
    assert_eq!(s.circulation_day[0], 120);
}

#[test]
fn prefix_filter_handles_multibyte_characters() {
    let mut l = Ledger::new();
    let uk = String::from("user-1");
    l.settle(&uk, &transfer("tx1", vec![], "00"), &vec![unit("币a", 5, &[1])], 1000).unwrap();
    l.settle(&uk, &transfer("tx2", vec![], "00"), &vec![unit("ba", 6, &[1])], 2000).unwrap();
    let f = CurrencyFilter { currency_id: Some(String::from("币")), ..CurrencyFilter::none() };
    let r = l.get_currency_list(&uk, 1, 10, &f);
    assert_eq!(r.total, 1);
    assert_eq!(r.inner[0].currency_id, "币a");
    // a prefix longer than the identity matches nothing
    let f = CurrencyFilter { currency_id: Some(String::from("ba000")), ..CurrencyFilter::none() };
    let r = l.get_currency_list(&uk, 1, 10, &f);
    assert_eq!(r.total, 0);
}
