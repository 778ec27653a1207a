//! The response envelope the transport returns for every request, with
//! its stable numeric codes, and the service's configuration values.

use vstd::prelude::*;
use vstd::string::StringExecFns;

verus! {

/// The envelope of every response: a stable numeric code (0 for
/// success), a human-readable message, and the payload when there is
/// one.
pub struct ResponseBody<T> {
    pub code: i32,
    pub message: String,
    pub data: Option<T>,
}

impl<T> ResponseBody<T> {
    /// A success response carrying the given payload.
    pub fn new_success(data: Option<T>) -> (r: ResponseBody<T>)
        ensures
            r.code == 0,
            r.message@ == "success"@,
            r.data == data,
    {
        ResponseBody { code: 0, message: String::from_str("success"), data }
    }

    /// A storage-fault response carrying the fault's description.
    pub fn return_unwrap_error(data: String) -> (r: ResponseBody<T>)
        ensures
            r.code == 90001,
            r.message == data,
            r.data is None,
    {
        ResponseBody { code: 90001, message: data, data: Option::None }
    }

    /// The response when the key-material file cannot be read.
    pub fn new_file_error() -> (r: ResponseBody<T>)
        ensures
            r.code == 90002,
            r.message@ == "file open or write or read error."@,
            r.data is None,
    {
        ResponseBody {
            code: 90002,
            message: String::from_str("file open or write or read error."),
            data: Option::None,
        }
    }

    /// The response when a payload cannot be decoded.
    pub fn new_str_conver_error() -> (r: ResponseBody<T>)
        ensures
            r.code == 90003,
            r.message@ == "char conversion error"@,
            r.data is None,
    {
        ResponseBody {
            code: 90003,
            message: String::from_str("char conversion error"),
            data: Option::None,
        }
    }

    /// The response when the transfer fails validation.
    pub fn transaction_error() -> (r: ResponseBody<T>)
        ensures
            r.code == 90004,
            r.message@ == "transaction body check failed"@,
            r.data is None,
    {
        ResponseBody {
            code: 90004,
            message: String::from_str("transaction body check failed"),
            data: Option::None,
        }
    }

    /// The response when an input unit is already destroyed.
    pub fn currency_state_error() -> (r: ResponseBody<T>)
        ensures
            r.code == 90005,
            r.message@ == "currency state does not allow the transaction"@,
            r.data is None,
    {
        ResponseBody {
            code: 90005,
            message: String::from_str("currency state does not allow the transaction"),
            data: Option::None,
        }
    }

    /// The response when the caller owns no such currency unit.
    pub fn currency_is_none() -> (r: ResponseBody<T>)
        ensures
            r.code == 90006,
            r.message@ == "no such currency for this user"@,
            r.data is None,
    {
        ResponseBody {
            code: 90006,
            message: String::from_str("no such currency for this user"),
            data: Option::None,
        }
    }
}

/// Where the signing key material is read from.
pub struct ConfigPath {
    pub meta_path: String,
}

impl Default for ConfigPath {
    /// The default key-material location.
    fn default() -> (r: ConfigPath)
        ensures
            r.meta_path@ == "./digital_currency.json"@,
    {
        ConfigPath { meta_path: String::from_str("./digital_currency.json") }
    }
}

/// Where the relational store is reached: its address, user and
/// database name.
pub struct DatabaseAddr {
    pub data_addr: String,
    pub user_name: String,
    pub base_name: String,
}

impl DatabaseAddr {
    /// The store's address from the optional command-line values, each
    /// falling back to its default.
    pub fn new(database: Option<String>, username: Option<String>, basename: Option<String>) -> (r:
        DatabaseAddr)
        ensures
            r.data_addr@ == match database {
                Option::Some(d) => d@,
                Option::None => "localhost"@,
            },
            r.user_name@ == match username {
                Option::Some(n) => n@,
                Option::None => "postgres"@,
            },
            r.base_name@ == match basename {
                Option::Some(b) => b@,
                Option::None => "currencytransaction"@,
            },
    {
        let data_addr = match database {
            Option::Some(d) => d,
            Option::None => String::from_str("localhost"),
        };
        let user_name = match username {
            Option::Some(n) => n,
            Option::None => String::from_str("postgres"),
        };
        let base_name = match basename {
            Option::Some(b) => b,
            Option::None => String::from_str("currencytransaction"),
        };
        DatabaseAddr { data_addr, user_name, base_name }
    }
}

} // verus!
