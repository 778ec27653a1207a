use currency_ledger::ledger::Ledger;
use currency_ledger::types::{CurrencyStatus, CurrencyUnit, LedgerError, Transfer};

fn unit(id: &str, amount: u64, owner: &[u8]) -> CurrencyUnit {
    CurrencyUnit { id: String::from(id), amount, owner: owner.to_vec() }
}

fn transfer(id: &str, inputs: Vec<CurrencyUnit>, raw: &str) -> Transfer {
    Transfer { id: String::from(id), inputs, raw: String::from(raw) }
}

#[test]
fn settle_mints_outputs() {
    let mut l = Ledger::new();
    let uk = String::from("user-1");
    let t = transfer("tx1", vec![], "00");
    let outs = vec![unit("a100", 50, &[1, 2])];
    let r = l.settle(&uk, &t, &outs, 1000).unwrap();
    assert_eq!(r, vec![String::from("a100")]);
    assert_eq!(l.currencies.len(), 1);
    assert_eq!(l.currencies[0].currency_id, "a100");
    assert!(matches!(l.currencies[0].status, CurrencyStatus::Circulating));
    assert_eq!(l.currencies[0].amount, 50);
    assert_eq!(l.currencies[0].transaction_id, "tx1");
    assert_eq!(l.currencies[0].user_key, "user-1");
    // a settlement with no inputs writes no lineage edges
    assert_eq!(l.lineage.len(), 0);
    assert_eq!(l.exchanges.len(), 1);
    assert_eq!(l.exchanges[0].amount, 50);
}

#[test]
fn settle_spends_input_and_links_lineage() {
    let mut l = Ledger::new();
    let uk = String::from("user-1");
    l.settle(&uk, &transfer("tx1", vec![], "00"), &vec![unit("a100", 50, &[1])], 1000).unwrap();

    let t2 = transfer("tx2", vec![unit("a100", 50, &[3])], "0a");
    let outs2 = vec![unit("b200", 50, &[4])];
    let r = l.settle(&uk, &t2, &outs2, 2000).unwrap();
    assert_eq!(r, vec![String::from("b200")]);

    // the input is destroyed, the output circulates
    assert!(matches!(l.currencies[0].status, CurrencyStatus::Destroyed));
    assert_eq!(l.currencies[0].transaction_id, "tx2");
    assert_eq!(l.currencies[0].update_time, 2000);
    assert_eq!(l.currencies[0].create_time, 1000);
    assert_eq!(l.currencies[1].currency_id, "b200");
    assert!(matches!(l.currencies[1].status, CurrencyStatus::Circulating));

    // exactly one lineage edge, output to input
    assert_eq!(l.lineage.len(), 1);
    assert_eq!(l.lineage[0].output_id, "b200");
    assert_eq!(l.lineage[0].input_id, "a100");

    // one exchange log entry with the stored inputs and total
    assert_eq!(l.exchanges.len(), 2);
    assert_eq!(l.exchanges[1].transaction_id, "tx2");
    assert_eq!(l.exchanges[1].amount, 50);
    assert_eq!(l.exchanges[1].trans_info.len(), 1);
    assert_eq!(l.exchanges[1].trans_info[0].id, "a100");
    assert_eq!(l.exchanges[1].trans_bin, "0a");
}

#[test]
fn double_spend_is_rejected_and_nothing_changes() {
    let mut l = Ledger::new();
    let uk = String::from("user-1");
    l.settle(&uk, &transfer("tx1", vec![], "00"), &vec![unit("a100", 50, &[1])], 1000).unwrap();
    l.settle(&uk, &transfer("tx2", vec![unit("a100", 50, &[3])], "0a"), &vec![unit("b200", 50, &[4])], 2000)
        .unwrap();

    let n_cur = l.currencies.len();
    let n_edges = l.lineage.len();
    let n_ex = l.exchanges.len();
    let r = l.settle(
        &uk,
        &transfer("tx3", vec![unit("a100", 50, &[5])], "0b"),
        &vec![unit("c300", 50, &[6])],
        3000,
    );
    assert_eq!(r, Err(LedgerError::DoubleSpend));
    // the failed settlement left every store unchanged
    assert_eq!(l.currencies.len(), n_cur);
    assert_eq!(l.lineage.len(), n_edges);
    assert_eq!(l.exchanges.len(), n_ex);
    assert!(l.currencies.iter().all(|c| c.currency_id != "c300"));
}

#[test]
fn duplicate_input_in_one_transfer_is_a_double_spend() {
    let mut l = Ledger::new();
    let uk = String::from("user-1");
    let t = transfer("tx1", vec![unit("x", 5, &[1]), unit("x", 5, &[1])], "00");
    let r = l.settle(&uk, &t, &vec![], 1000);
    assert_eq!(r, Err(LedgerError::DoubleSpend));
    assert_eq!(l.currencies.len(), 0);
    assert_eq!(l.exchanges.len(), 0);
}

#[test]
fn first_seen_input_is_recorded_destroyed() {
    let mut l = Ledger::new();
    let uk = String::from("user-1");
    // the input unit was never recorded locally: it is inserted
    // directly in destroyed state
    let t = transfer("tx1", vec![unit("foreign", 7, &[9])], "00");
    l.settle(&uk, &t, &vec![unit("mine", 7, &[2])], 500).unwrap();
    let rec = l.currencies.iter().find(|c| c.currency_id == "foreign").unwrap();
    assert!(matches!(rec.status, CurrencyStatus::Destroyed));
    assert_eq!(rec.create_time, 500);
    assert_eq!(rec.amount, 7);
}

#[test]
fn replayed_transaction_id_is_a_storage_error() {
    let mut l = Ledger::new();
    let uk = String::from("user-1");
    l.settle(&uk, &transfer("tx1", vec![], "00"), &vec![unit("a", 1, &[1])], 1000).unwrap();
    let r = l.settle(&uk, &transfer("tx1", vec![], "00"), &vec![unit("b", 1, &[1])], 2000);
    assert_eq!(r, Err(LedgerError::Storage));
    assert_eq!(l.exchanges.len(), 1);
    assert_eq!(l.currencies.len(), 1);
}

#[test]
fn clashing_output_identity_is_a_storage_error() {
    let mut l = Ledger::new();
    let uk = String::from("user-1");
    l.settle(&uk, &transfer("tx1", vec![], "00"), &vec![unit("a", 1, &[1])], 1000).unwrap();
    let r = l.settle(&uk, &transfer("tx2", vec![], "00"), &vec![unit("a", 2, &[1])], 2000);
    assert_eq!(r, Err(LedgerError::Storage));
    assert_eq!(l.currencies.len(), 1);
    assert_eq!(l.currencies[0].amount, 1);
}

#[test]
fn lineage_is_the_full_cross_product() {
    let mut l = Ledger::new();
    let uk = String::from("user-1");
    l.settle(
        &uk,
        &transfer("tx1", vec![], "00"),
        &vec![unit("i1", 10, &[1]), unit("i2", 20, &[1])],
        1000,
    )
    .unwrap();
    let t = transfer("tx2", vec![unit("i1", 10, &[1]), unit("i2", 20, &[1])], "0c");
    let outs = vec![unit("o1", 15, &[2]), unit("o2", 15, &[2]), unit("o3", 0, &[2])];
    l.settle(&uk, &t, &outs, 2000).unwrap();
    // 3 outputs x 2 inputs
    assert_eq!(l.lineage.len(), 6);
    for o in ["o1", "o2", "o3"] {
        for i in ["i1", "i2"] {
            assert!(l.lineage.iter().any(|e| e.output_id == o && e.input_id == i));
        }
    }
    assert_eq!(l.exchanges[1].amount, 30);
}

#[test]
fn settlements_are_scoped_per_caller() {
    let mut l = Ledger::new();
    let alice = String::from("alice");
    let bob = String::from("bob");
    l.settle(&alice, &transfer("tx1", vec![], "00"), &vec![unit("a", 5, &[1])], 1000).unwrap();
    // the same unit identity for another caller is a separate record
    l.settle(&bob, &transfer("tx2", vec![], "00"), &vec![unit("a", 9, &[1])], 1000).unwrap();
    assert_eq!(l.currencies.len(), 2);
    // bob spending his unit does not touch alice's
    l.settle(&bob, &transfer("tx3", vec![unit("a", 9, &[1])], "00"), &vec![unit("b", 9, &[1])], 2000)
        .unwrap();
    let a_alice = l.currencies.iter().find(|c| c.user_key == "alice").unwrap();
    assert!(matches!(a_alice.status, CurrencyStatus::Circulating));
}

#[test]
fn unvalidated_transfer_is_refused() {
    let mut l = Ledger::new();
    let uk = String::from("user-1");
    let t = transfer("tx1", vec![], "00");
    let r = l.process_transfer(&uk, false, &t, &vec![unit("a", 1, &[1])], 1000);
    assert_eq!(r, Err(LedgerError::Validation));
    assert_eq!(l.currencies.len(), 0);
    let r2 = l.process_transfer(&uk, true, &t, &vec![unit("a", 1, &[1])], 1000);
    assert_eq!(r2, Ok(vec![String::from("a")]));
    assert_eq!(l.currencies.len(), 1);
}

#[test]
fn owner_is_stored_hex_encoded() {
    let mut l = Ledger::new();
    let uk = String::from("user-1");
    l.settle(&uk, &transfer("tx1", vec![], "00"), &vec![unit("a", 1, &[0x0a, 0xff, 0x00])], 1000)
        .unwrap();
    assert_eq!(l.currencies[0].owner, "0aff00");
}
