//! HTTP statuses: which mean success, and how they are written in a message.
use vstd::prelude::*;

use crate::outside::{is_status, reason_phrase, status_display, status_line};
use crate::text::{decimal, decimal_text};

verus! {

/// A status that means success.
pub open spec fn is_success(status: u16) -> bool {
    200 <= status <= 299
}

/// How a status is written in a message.
pub open spec fn status_text(status: u16) -> Seq<char> {
    if is_status(status) {
        status_line(status)
    } else {
        decimal(status as nat)
    }
}

/// Whether the status means success.
pub(crate) fn succeeded(status: u16) -> (r: bool)
    ensures
        r == is_success(status),
{
    200 <= status && status <= 299
}

/// The status as it is written in a message.
pub(crate) fn written_status(status: u16) -> (r: String)
    ensures
        r@ == status_text(status),
{
    match status_display(status) {
        Some(line) => line,
        None => decimal_text(status as u64),
    }
}

/// The statuses from 200 to 299 mean success, and no others.
pub proof fn law_success_is_the_two_hundreds(status: u16)
    ensures
        is_success(status) <==> status / 100 == 2,
{
}

/// A status of three digits is written as its number and its phrase; any other
/// as its number alone.
pub proof fn law_statuses_are_written_with_their_number(status: u16)
    ensures
        decimal(status as nat).is_prefix_of(status_text(status)),
        100 <= status <= 999 ==> status_text(status) == decimal(status as nat) + " "@
            + reason_phrase(status),
        !(100 <= status <= 999) ==> status_text(status) == decimal(status as nat),
{
    let number = decimal(status as nat);
    assert(status_text(status).subrange(0, number.len() as int) =~= number);
}

} // verus!
