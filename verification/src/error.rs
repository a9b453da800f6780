use vstd::prelude::*;

verus! {

/// An error of the server: a short message and a stable numeric code.
///
/// Codes come in bands: 1xxx I/O, 2xxx HTTP, 3xxx script handoff,
/// 4xxx connection, 5xxx TLS.
#[derive(Debug)]
pub struct Error {
    pub msg: String,
    pub code: u16,
}

impl Error {
    pub fn new(msg: &str, code: u16) -> (e: Error)
        ensures
            e.code == code,
            e.msg@ == msg@,
    {
        Error { msg: msg.to_owned(), code }
    }
}

} // verus!
