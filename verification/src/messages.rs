//! The texts of the library's errors.

use vstd::prelude::*;

use crate::driver_client::{AddModeError, AddModeQueryError, MonNotFound, QueryNotFound};
use crate::text::{chars_of, decimal, push_decimal, string_from_chars};
use crate::validation::DuplicateError;

verus! {

/// Appends the characters of `s` to `out`.
pub fn push_str(out: &mut Vec<char>, s: &str)
    ensures
        final(out)@ == old(out)@ + s@,
{
    let chars = chars_of(s);
    for i in 0..chars.len()
        invariant
            out@ == old(out)@ + chars@.take(i as int),
    {
        out.push(chars[i]);
        assert(out@ =~= old(out)@ + chars@.take(i + 1));
    }
    assert(chars@.take(chars@.len() as int) =~= chars@);
}

/// `WxH`.
pub open spec fn resolution_text(width: u32, height: u32) -> Seq<char> {
    decimal(width as nat) + "x"@ + decimal(height as nat)
}

/// The text of a duplicate mode.
pub open spec fn dup_mode_text(width: u32, height: u32, id: u32) -> Seq<char> {
    "Duplicate mode "@ + resolution_text(width, height) + " on monitor "@ + decimal(id as nat)
}

/// The text of a duplicate refresh rate.
pub open spec fn dup_rate_text(rate: u32, width: u32, height: u32, id: u32) -> Seq<char> {
    "Duplicate refresh rate "@ + decimal(rate as nat) + " on mode "@ + resolution_text(width, height)
        + " on monitor "@ + decimal(id as nat)
}

/// The text of a missing monitor.
pub open spec fn mon_not_found_text(id: u32) -> Seq<char> {
    "Monitor not found: "@ + decimal(id as nat)
}

/// The text of a query that matched nothing.
pub open spec fn query_not_found_text(query: Seq<char>) -> Seq<char> {
    "Query not found: "@ + query
}

/// The text of a duplicate.
pub open spec fn duplicate_text(e: DuplicateError) -> Seq<char> {
    match e {
        DuplicateError::Monitor(id) => "Duplicate monitor with ID "@ + decimal(id as nat),
        DuplicateError::Mode(width, height, id) => dup_mode_text(width, height, id),
        DuplicateError::RefreshRate(rate, width, height, id) => dup_rate_text(rate, width, height, id),
    }
}

/// Appends `WxH`.
fn push_resolution(out: &mut Vec<char>, width: u32, height: u32)
    ensures
        final(out)@ == old(out)@ + resolution_text(width, height),
{
    push_decimal(out, width);
    push_str(out, "x");
    push_decimal(out, height);
    assert(final(out)@ =~= old(out)@ + resolution_text(width, height));
}

/// The text of a duplicate mode.
fn dup_mode_message(width: u32, height: u32, id: u32) -> (res: String)
    ensures
        res@ == dup_mode_text(width, height, id),
{
    let mut out: Vec<char> = Vec::new();
    push_str(&mut out, "Duplicate mode ");
    push_resolution(&mut out, width, height);
    push_str(&mut out, " on monitor ");
    push_decimal(&mut out, id);
    assert(out@ =~= dup_mode_text(width, height, id));
    string_from_chars(out.as_slice())
}

/// The text of a duplicate refresh rate.
fn dup_rate_message(rate: u32, width: u32, height: u32, id: u32) -> (res: String)
    ensures
        res@ == dup_rate_text(rate, width, height, id),
{
    let mut out: Vec<char> = Vec::new();
    push_str(&mut out, "Duplicate refresh rate ");
    push_decimal(&mut out, rate);
    push_str(&mut out, " on mode ");
    push_resolution(&mut out, width, height);
    push_str(&mut out, " on monitor ");
    push_decimal(&mut out, id);
    assert(out@ =~= dup_rate_text(rate, width, height, id));
    string_from_chars(out.as_slice())
}

/// The text of a missing monitor.
fn mon_not_found_message(id: u32) -> (res: String)
    ensures
        res@ == mon_not_found_text(id),
{
    let mut out: Vec<char> = Vec::new();
    push_str(&mut out, "Monitor not found: ");
    push_decimal(&mut out, id);
    assert(out@ =~= mon_not_found_text(id));
    string_from_chars(out.as_slice())
}

/// The text of a query that matched nothing.
fn query_not_found_message(query: &String) -> (res: String)
    ensures
        res@ == query_not_found_text(query@),
{
    let mut out: Vec<char> = Vec::new();
    push_str(&mut out, "Query not found: ");
    push_str(&mut out, query.as_str());
    string_from_chars(out.as_slice())
}

impl DuplicateError {
    /// The error's text.
    pub fn message(&self) -> (res: String)
        ensures
            res@ == duplicate_text(*self),
    {
        match *self {
            DuplicateError::Monitor(id) => {
                let mut out: Vec<char> = Vec::new();
                push_str(&mut out, "Duplicate monitor with ID ");
                push_decimal(&mut out, id);
                string_from_chars(out.as_slice())
            },
            DuplicateError::Mode(width, height, id) => dup_mode_message(width, height, id),
            DuplicateError::RefreshRate(rate, width, height, id) => dup_rate_message(rate, width, height, id),
        }
    }
}

impl QueryNotFound {
    /// The error's text.
    pub fn message(&self) -> (res: String)
        ensures
            res@ == query_not_found_text(self.0@),
    {
        query_not_found_message(&self.0)
    }
}

impl MonNotFound {
    /// The error's text.
    pub fn message(&self) -> (res: String)
        ensures
            res@ == mon_not_found_text(self.0),
    {
        mon_not_found_message(self.0)
    }
}

impl AddModeError {
    /// The error's text.
    pub fn message(&self) -> (res: String)
        ensures
            res@ == match *self {
                AddModeError::MonNotFound(id) => mon_not_found_text(id),
                AddModeError::DupMode(id, width, height) => dup_mode_text(width, height, id),
                AddModeError::DupRefreshRate(rate, width, height, id) => dup_rate_text(rate, width, height, id),
            },
    {
        match *self {
            AddModeError::MonNotFound(id) => mon_not_found_message(id),
            AddModeError::DupMode(id, width, height) => dup_mode_message(width, height, id),
            AddModeError::DupRefreshRate(rate, width, height, id) => dup_rate_message(rate, width, height, id),
        }
    }
}

impl AddModeQueryError {
    /// The error's text.
    pub fn message(&self) -> (res: String)
        ensures
            res@ == match self {
                AddModeQueryError::QueryNotFound(q) => query_not_found_text(q@),
                AddModeQueryError::DupMode(id, width, height) => dup_mode_text(*width, *height, *id),
                AddModeQueryError::DupRefreshRate(rate, width, height, id) => dup_rate_text(
                    *rate,
                    *width,
                    *height,
                    *id,
                ),
            },
    {
        match self {
            AddModeQueryError::QueryNotFound(q) => query_not_found_message(q),
            AddModeQueryError::DupMode(id, width, height) => dup_mode_message(*width, *height, *id),
            AddModeQueryError::DupRefreshRate(rate, width, height, id) => dup_rate_message(
                *rate,
                *width,
                *height,
                *id,
            ),
        }
    }
}

} // verus!
