use vstd::prelude::*;

verus! {

/// Why the mint turned a request down.
#[derive(Clone, Debug, PartialEq, Eq)]
pub enum Error {
    /// No quote, keyset or hash mapping stands under the key that was given.
    NotFound,
    /// The Lightning invoice has not been paid yet; the client may try again.
    InvoiceNotPaid,
    /// The Lightning invoice expired; the client needs a new quote.
    InvoiceExpired,
    /// The amount asked for is not the amount of the quote.
    AmountMismatch,
    /// Tokens were already handed out for this quote.
    TokenAlreadyIssued,
    /// A token of the request was redeemed before, or stands twice in it.
    TokenAlreadySpent,
    /// A quote already stands under this hash or this payment hash.
    DuplicateInvoice,
    /// Booking the amount would take the circulation below zero or beyond
    /// what the counter can hold.
    AmountOutOfRange,
    /// The text is no Lightning invoice.
    DecodeInvoice,
    /// The Lightning node failed, or answered in a shape nobody expected.
    Backend(String),
    /// The store could not read or write.
    Storage(String),
}

impl Error {
    /// The HTTP status that tells a client of this error.
    pub open spec fn spec_status_code(&self) -> u16 {
        match self {
            Error::NotFound => 404,
            Error::InvoiceNotPaid => 200,
            Error::InvoiceExpired => 400,
            Error::AmountMismatch => 400,
            Error::TokenAlreadyIssued => 400,
            Error::TokenAlreadySpent => 400,
            Error::DuplicateInvoice => 500,
            Error::AmountOutOfRange => 400,
            Error::DecodeInvoice => 400,
            Error::Backend(_) => 500,
            Error::Storage(_) => 500,
        }
    }

    /// The HTTP status that tells a client of this error. An unpaid invoice
    /// is answered with 200 and an error body, so that a wallet polls on.
    #[verifier::when_used_as_spec(spec_status_code)]
    pub fn status_code(&self) -> (code: u16)
        ensures
            code == self.spec_status_code(),
    {
        match self {
            Error::NotFound => 404,
            Error::InvoiceNotPaid => 200,
            Error::InvoiceExpired => 400,
            Error::AmountMismatch => 400,
            Error::TokenAlreadyIssued => 400,
            Error::TokenAlreadySpent => 400,
            Error::DuplicateInvoice => 500,
            Error::AmountOutOfRange => 400,
            Error::DecodeInvoice => 400,
            Error::Backend(_) => 500,
            Error::Storage(_) => 500,
        }
    }

    /// The text of the error.
    pub open spec fn spec_message(&self) -> Seq<char> {
        match self {
            Error::NotFound => "Not found"@,
            Error::InvoiceNotPaid => "Lightning invoice not paid yet."@,
            Error::InvoiceExpired => "Lightning invoice expired."@,
            Error::AmountMismatch => "Amount does not match the quote"@,
            Error::TokenAlreadyIssued => "Tokens already issued for this quote"@,
            Error::TokenAlreadySpent => "Token already spent"@,
            Error::DuplicateInvoice => "Invoice already known"@,
            Error::AmountOutOfRange => "Amount out of range"@,
            Error::DecodeInvoice => "Failed to decode LN Invoice"@,
            Error::Backend(text) => text@,
            Error::Storage(text) => text@,
        }
    }

    /// The text of the error, for logs and response bodies.
    pub fn to_string(&self) -> (text: String)
        ensures
            text@ == self.spec_message(),
    {
        match self {
            Error::NotFound => "Not found".to_owned(),
            Error::InvoiceNotPaid => "Lightning invoice not paid yet.".to_owned(),
            Error::InvoiceExpired => "Lightning invoice expired.".to_owned(),
            Error::AmountMismatch => "Amount does not match the quote".to_owned(),
            Error::TokenAlreadyIssued => "Tokens already issued for this quote".to_owned(),
            Error::TokenAlreadySpent => "Token already spent".to_owned(),
            Error::DuplicateInvoice => "Invoice already known".to_owned(),
            Error::AmountOutOfRange => "Amount out of range".to_owned(),
            Error::DecodeInvoice => "Failed to decode LN Invoice".to_owned(),
            Error::Backend(text) => text.clone(),
            Error::Storage(text) => text.clone(),
        }
    }
}

/// The body that tells a client of an error.
#[derive(Clone, Debug, PartialEq, Eq)]
pub struct ErrorResponse {
    pub code: u16,
    pub error: String,
}

impl ErrorResponse {
    pub fn new(code: u16, error: &str) -> (response: Self)
        ensures
            response.code == code,
            response.error@ == error@,
    {
        ErrorResponse { code, error: error.to_owned() }
    }
}

} // verus!
