//! What the quote provider answers, held as plain values.

use vstd::prelude::*;

verus! {

/// One closing price at a point in time.
#[derive(Clone, Copy, PartialEq, Eq, Structural, Debug)]
pub struct Quote {
    pub timestamp: i64,
    pub close: i64,
}

/// A provider answer: the valid quotes of the requested window, oldest
/// first, or `None` when the answer held no readable series.
#[derive(Debug)]
pub struct QuoteResponse {
    pub quotes: Option<Vec<Quote>>,
}

impl View for QuoteResponse {
    type V = Option<Seq<Quote>>;

    open spec fn view(&self) -> Option<Seq<Quote>> {
        match self.quotes {
            Some(v) => Some(v@),
            None => None,
        }
    }
}

/// Close of the most recent quote of a response view.
pub open spec fn last_close_of(r: Option<Seq<Quote>>) -> Option<i64> {
    match r {
        Some(q) => if q.len() > 0 {
            Some(q.last().close)
        } else {
            None
        },
        None => None,
    }
}

/// Previous close read from a trailing window: the second-to-last close
/// when there are two or more, the only close when there is one.
pub open spec fn previous_close_of(q: Seq<Quote>) -> Option<i64> {
    if q.len() >= 2 {
        Some(q[q.len() - 2].close)
    } else if q.len() == 1 {
        Some(q[0].close)
    } else {
        None
    }
}

impl QuoteResponse {
    pub fn new(quotes: Option<Vec<Quote>>) -> (r: QuoteResponse)
        ensures
            r.quotes == quotes,
    {
        QuoteResponse { quotes }
    }

    /// Close of the most recent valid quote.
    pub fn last_close(&self) -> (r: Option<i64>)
        ensures
            r == last_close_of(self@),
    {
        match &self.quotes {
            Some(q) => if q.len() > 0 {
                Some(q[q.len() - 1].close)
            } else {
                None
            },
            None => None,
        }
    }

    pub fn duplicate(&self) -> (r: QuoteResponse)
        ensures
            r@ == self@,
    {
        match &self.quotes {
            Some(q) => {
                let mut out: Vec<Quote> = Vec::new();
                let mut i: usize = 0;
                while i < q.len()
                    invariant
                        0 <= i <= q@.len(),
                        out@ == q@.subrange(0, i as int),
                    decreases q@.len() - i,
                {
                    out.push(q[i]);
                    i = i + 1;
                    assert(out@ =~= q@.subrange(0, i as int));
                }
                assert(out@ =~= q@);
                QuoteResponse { quotes: Some(out) }
            },
            None => QuoteResponse { quotes: None },
        }
    }
}

/// Previous close from a trailing window of quotes.
pub fn previous_close_from(quotes: &Vec<Quote>) -> (r: Option<i64>)
    ensures
        r == previous_close_of(quotes@),
{
    let n = quotes.len();
    if n >= 2 {
        Some(quotes[n - 2].close)
    } else if n == 1 {
        Some(quotes[0].close)
    } else {
        None
    }
}

/// Why a provider call failed.
#[derive(Debug)]
pub enum ProviderError {
    /// The provider refused the request (a provider quirk, skipped quietly
    /// by historic aggregation).
    BadRequest,
    /// The ticker is unknown to the provider.
    NotFound,
    /// A search found nothing.
    NoResult,
    /// The answer held no valid quote.
    NoQuotes,
    /// The provider could not be reached.
    Network(String),
    /// Any other failure, with the provider's words.
    Other(String),
}

/// Text of an error, as used in warnings.
pub open spec fn error_text(e: ProviderError) -> Seq<char> {
    match e {
        ProviderError::BadRequest => "Bad Request"@,
        ProviderError::NotFound => "Not Found"@,
        ProviderError::NoResult => "empty result set"@,
        ProviderError::NoQuotes => "no quotes"@,
        ProviderError::Network(m) => m@,
        ProviderError::Other(m) => m@,
    }
}

impl ProviderError {
    pub fn is_bad_request(&self) -> (r: bool)
        ensures
            r <==> *self is BadRequest,
    {
        match self {
            ProviderError::BadRequest => true,
            _ => false,
        }
    }

    pub fn message(&self) -> (r: String)
        ensures
            r@ == error_text(*self),
    {
        match self {
            ProviderError::BadRequest => "Bad Request".to_owned(),
            ProviderError::NotFound => "Not Found".to_owned(),
            ProviderError::NoResult => "empty result set".to_owned(),
            ProviderError::NoQuotes => "no quotes".to_owned(),
            ProviderError::Network(m) => m.clone(),
            ProviderError::Other(m) => m.clone(),
        }
    }

    pub fn duplicate(&self) -> (r: ProviderError)
        ensures
            r == *self,
    {
        match self {
            ProviderError::BadRequest => ProviderError::BadRequest,
            ProviderError::NotFound => ProviderError::NotFound,
            ProviderError::NoResult => ProviderError::NoResult,
            ProviderError::NoQuotes => ProviderError::NoQuotes,
            ProviderError::Network(m) => ProviderError::Network(m.clone()),
            ProviderError::Other(m) => ProviderError::Other(m.clone()),
        }
    }
}

} // verus!
