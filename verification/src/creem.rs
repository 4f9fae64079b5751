//! The creem.io transaction model and the rules for reading its API's
//! answers: which status codes mean what, where the transactions sit in the
//! response envelope, and how errors read to the user.

use vstd::prelude::*;

use crate::text::{decimal, parse_u64, push_decimal, trim, trimmed, u64_reading};

verus! {

/// One creem transaction. Amounts are in minor units (cents); `created_at`
/// is in Unix epoch seconds.
#[derive(Debug)]
pub struct Transaction {
    pub id: String,
    pub amount: i64,
    pub amount_paid: Option<i64>,
    pub currency: String,
    pub status: String,
    pub kind: String,
    pub created_at: i64,
    pub customer: Option<String>,
    pub order: Option<String>,
    pub description: Option<String>,
}

fn copy_text_option(o: &Option<String>) -> (r: Option<String>)
    ensures
        r == *o,
{
    match o {
        Some(s) => Some(s.clone()),
        None => None,
    }
}

impl Clone for Transaction {
    fn clone(&self) -> (r: Self)
        ensures
            r == *self,
    {
        Transaction {
            id: self.id.clone(),
            amount: self.amount,
            amount_paid: self.amount_paid,
            currency: self.currency.clone(),
            status: self.status.clone(),
            kind: self.kind.clone(),
            created_at: self.created_at,
            customer: copy_text_option(&self.customer),
            order: copy_text_option(&self.order),
            description: copy_text_option(&self.description),
        }
    }
}

/// Why a request to creem failed.
#[derive(Debug)]
pub enum CreemError {
    /// 401 / 403: missing or invalid API key.
    Unauthorized,
    /// 429: rate limited, with the Retry-After seconds when they were readable.
    RateLimited(Option<u64>),
    Network(String),
    Decode(String),
}

/// A `CreemError` with its texts taken as character sequences.
pub enum CreemErrorView {
    Unauthorized,
    RateLimited(Option<u64>),
    Network(Seq<char>),
    Decode(Seq<char>),
}

impl View for CreemError {
    type V = CreemErrorView;

    open spec fn view(&self) -> CreemErrorView {
        match self {
            CreemError::Unauthorized => CreemErrorView::Unauthorized,
            CreemError::RateLimited(r) => CreemErrorView::RateLimited(*r),
            CreemError::Network(m) => CreemErrorView::Network(m@),
            CreemError::Decode(m) => CreemErrorView::Decode(m@),
        }
    }
}

/// The sentence shown for an error.
pub open spec fn error_message(e: CreemErrorView) -> Seq<char> {
    match e {
        CreemErrorView::Unauthorized => "Invalid API key"@,
        CreemErrorView::RateLimited(_) => "Rate limited"@,
        CreemErrorView::Network(m) => "Network error: "@ + m,
        CreemErrorView::Decode(m) => "Unexpected response: "@ + m,
    }
}

impl CreemError {
    /// The user-facing sentence for this error.
    pub fn message(&self) -> (r: String)
        ensures
            r@ == error_message(self@),
    {
        match self {
            CreemError::Unauthorized => String::from_str("Invalid API key"),
            CreemError::RateLimited(_) => String::from_str("Rate limited"),
            CreemError::Network(m) => {
                let mut s = String::from_str("Network error: ");
                s.append(m.as_str());
                s
            },
            CreemError::Decode(m) => {
                let mut s = String::from_str("Unexpected response: ");
                s.append(m.as_str());
                s
            },
        }
    }
}

/// The API root for production or for test mode.
pub open spec fn base_url_text(test_mode: bool) -> Seq<char> {
    if test_mode {
        "https://test-api.creem.io"@
    } else {
        "https://api.creem.io"@
    }
}

/// The API root: `test-api.creem.io` in test mode, `api.creem.io` otherwise.
pub fn base_url(test_mode: bool) -> (r: &'static str)
    ensures
        r@ == base_url_text(test_mode),
{
    if test_mode {
        "https://test-api.creem.io"
    } else {
        "https://api.creem.io"
    }
}

/// The first page of the transaction search, `page_size` items long.
pub open spec fn search_url_text(test_mode: bool, page_size: nat) -> Seq<char> {
    base_url_text(test_mode) + "/v1/transactions/search?page_number=1&page_size="@ + decimal(
        page_size,
    )
}

/// The URL that fetches the most recent `page_size` transactions.
pub fn search_url(test_mode: bool, page_size: u32) -> (r: String)
    ensures
        r@ == search_url_text(test_mode, page_size as nat),
{
    let mut s = String::from_str(base_url(test_mode));
    s.append("/v1/transactions/search?page_number=1&page_size=");
    push_decimal(&mut s, page_size as u64);
    s
}

/// What a Retry-After header says, in seconds, when it reads as a number.
pub open spec fn retry_seconds(header: Option<Seq<char>>) -> Option<u64> {
    match header {
        Some(h) => match u64_reading(trimmed(h)) {
            Some(v) => Some(v as u64),
            None => None,
        },
        None => None,
    }
}

/// What an HTTP status means before the body is read: 401 and 403 are a bad
/// key, 429 is rate limiting, any other code outside 200..=299 is a network
/// failure naming the code, and a 2xx lets the body be read.
pub open spec fn status_verdict(code: u16, retry_after: Option<Seq<char>>) -> Result<
    (),
    CreemErrorView,
> {
    if code == 401 || code == 403 {
        Err(CreemErrorView::Unauthorized)
    } else if code == 429 {
        Err(CreemErrorView::RateLimited(retry_seconds(retry_after)))
    } else if !(200 <= code && code <= 299) {
        Err(CreemErrorView::Network("HTTP "@ + decimal(code as nat)))
    } else {
        Ok(())
    }
}

pub open spec fn optional_text(o: Option<&str>) -> Option<Seq<char>> {
    match o {
        Some(s) => Some(s@),
        None => None,
    }
}

pub open spec fn unit_result_view(r: Result<(), CreemError>) -> Result<(), CreemErrorView> {
    match r {
        Ok(()) => Ok(()),
        Err(e) => Err(e@),
    }
}

/// Classifies a response by its status code and its Retry-After header.
pub fn check_status(code: u16, retry_after: Option<&str>) -> (r: Result<(), CreemError>)
    ensures
        unit_result_view(r) == status_verdict(code, optional_text(retry_after)),
{
    if code == 401 || code == 403 {
        return Err(CreemError::Unauthorized);
    }
    if code == 429 {
        let retry = match retry_after {
            Some(h) => parse_u64(trim(h)),
            None => None,
        };
        return Err(CreemError::RateLimited(retry));
    }
    if !(200 <= code && code <= 299) {
        let mut m = String::from_str("HTTP ");
        push_decimal(&mut m, code as u64);
        return Err(CreemError::Network(m));
    }
    Ok(())
}

/// Which field of the response envelope holds the transactions: `items`
/// as documented, else `data`, else `transactions`.
pub open spec fn envelope_choice(has_items: bool, has_data: bool, has_transactions: bool) -> Result<
    Seq<char>,
    CreemErrorView,
> {
    if has_items {
        Ok("items"@)
    } else if has_data {
        Ok("data"@)
    } else if has_transactions {
        Ok("transactions"@)
    } else {
        Err(CreemErrorView::Decode("no items array in response"@))
    }
}

/// Picks the envelope field to read, given which of them the response has.
pub fn envelope_key(has_items: bool, has_data: bool, has_transactions: bool) -> (r: Result<
    &'static str,
    CreemError,
>)
    ensures
        match r {
            Ok(k) => envelope_choice(has_items, has_data, has_transactions) == Ok::<
                Seq<char>,
                CreemErrorView,
            >(k@),
            Err(e) => envelope_choice(has_items, has_data, has_transactions) == Err::<
                Seq<char>,
                CreemErrorView,
            >(e@),
        },
{
    if has_items {
        Ok("items")
    } else if has_data {
        Ok("data")
    } else if has_transactions {
        Ok("transactions")
    } else {
        Err(CreemError::Decode(String::from_str("no items array in response")))
    }
}

} // verus!
