use vstd::prelude::*;

use crate::text::{decimal, push_decimal};

verus! {

/// Errors a bus operation can surface.
#[derive(Debug, PartialEq, Eq, Structural)]
pub enum BusError {
    /// No receiver (inbound) or no subscriber (outbound) remains.
    Closed,
    /// A subscriber fell behind and this many messages were dropped.
    Lagged(u64),
}

/// The message a bus error reports.
pub open spec fn bus_error_text(e: BusError) -> Seq<char> {
    match e {
        BusError::Closed => "bus closed"@,
        BusError::Lagged(n) => "subscriber lagged by "@ + decimal(n as nat) + " messages"@,
    }
}

impl BusError {
    /// The message this error reports.
    pub fn message(&self) -> (r: String)
        ensures
            r@ == bus_error_text(*self),
    {
        match self {
            BusError::Closed => "bus closed".to_owned(),
            BusError::Lagged(n) => {
                let mut m = "subscriber lagged by ".to_owned();
                push_decimal(&mut m, *n);
                m.append(" messages");
                m
            },
        }
    }
}

} // verus!
