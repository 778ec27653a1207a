use currency_ledger::hexcodec::decode_transfer_payload;
use currency_ledger::response::{ConfigPath, DatabaseAddr, ResponseBody};
use currency_ledger::types::LedgerError;

#[test]
fn decode_valid_hex_payload() {
    let r = decode_transfer_payload(&String::from("0aff"));
    assert_eq!(r, Ok(vec![0x0a, 0xff]));
    let r = decode_transfer_payload(&String::from("00"));
    assert_eq!(r, Ok(vec![0]));
    let r = decode_transfer_payload(&String::from(""));
    assert_eq!(r, Ok(vec![]));
    // both cases are accepted
    let r = decode_transfer_payload(&String::from("AbCd"));
    assert_eq!(r, Ok(vec![0xab, 0xcd]));
}

#[test]
fn decode_rejects_malformed_payloads() {
    // odd length
    assert_eq!(decode_transfer_payload(&String::from("0af")), Err(LedgerError::Parse));
    // non-digit characters
    assert_eq!(decode_transfer_payload(&String::from("zz")), Err(LedgerError::Parse));
    assert_eq!(decode_transfer_payload(&String::from("0g")), Err(LedgerError::Parse));
}

#[test]
fn error_codes_are_stable() {
    assert_eq!(LedgerError::Storage.code(), 90001);
    assert_eq!(LedgerError::Parse.code(), 90003);
    assert_eq!(LedgerError::Validation.code(), 90004);
    assert_eq!(LedgerError::DoubleSpend.code(), 90005);
    assert_eq!(LedgerError::NotFound.code(), 90006);
}

#[test]
fn response_constructors_carry_their_codes() {
    let ok: ResponseBody<Vec<String>> = ResponseBody::new_success(Some(vec![String::from("a")]));
    assert_eq!(ok.code, 0);
    assert_eq!(ok.message, "success");
    assert_eq!(ok.data, Some(vec![String::from("a")]));

    let e: ResponseBody<()> = ResponseBody::return_unwrap_error(String::from("boom"));
    assert_eq!(e.code, 90001);
    assert_eq!(e.message, "boom");
    assert_eq!(e.data, None);

    let e: ResponseBody<()> = ResponseBody::new_file_error();
    assert_eq!(e.code, 90002);
    let e: ResponseBody<()> = ResponseBody::new_str_conver_error();
    assert_eq!(e.code, 90003);
    let e: ResponseBody<()> = ResponseBody::transaction_error();
    assert_eq!(e.code, 90004);
    let e: ResponseBody<()> = ResponseBody::currency_state_error();
    assert_eq!(e.code, 90005);
    let e: ResponseBody<()> = ResponseBody::currency_is_none();
    assert_eq!(e.code, 90006);
    assert_eq!(e.data, None);
}

#[test]
fn config_defaults() {
    let c = ConfigPath::default();
    assert_eq!(c.meta_path, "./digital_currency.json");

    let d = DatabaseAddr::new(None, None, None);
    assert_eq!(d.data_addr, "localhost");
    assert_eq!(d.user_name, "postgres");
    assert_eq!(d.base_name, "currencytransaction");

    let d = DatabaseAddr::new(Some(String::from("db.host")), None, Some(String::from("ledger")));
    assert_eq!(d.data_addr, "db.host");
    assert_eq!(d.user_name, "postgres");
    assert_eq!(d.base_name, "ledger");
}
