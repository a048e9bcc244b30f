//! Line recall in the command editor: typing a line number and asking for
//! completion brings back that line of the listing.

use vstd::prelude::*;
use crate::listing::{Entry, Listing, law_store_then_read, lookup, place, sorted};
use crate::text::{
    decimal, digit_char, law_decimal_reads_back, lemma_decimal_digits, parse_usize, trim,
    trim_end, trim_start, trimmed, unsigned_value,
};

verus! {

/// The line that completing `line` offers from a listing with lines `e`: the
/// line whose number `line` is, once trimmed.
pub open spec fn completion(e: Seq<Entry>, line: Seq<char>) -> Option<Seq<char>> {
    match unsigned_value(trimmed(line), 10) {
        Some(v) => if v <= usize::MAX {
            lookup(e, v as usize)
        } else {
            None
        },
        None => None,
    }
}

/// Typing the number of a stored line and completing it brings that line
/// back.
pub proof fn law_recall_stored_line(e: Seq<Entry>, n: usize, t: Seq<char>)
    requires
        sorted(e),
    ensures
        completion(place(e, n, t), decimal(n as nat)) == Some(t),
{
    let d = decimal(n as nat);
    lemma_decimal_digits(n as nat);
    law_decimal_reads_back(n as nat);
    law_store_then_read(e, n, t, n);
    assert(trim_start(d) == d);
    if n >= 10 {
        assert(d.last() == digit_char((n % 10) as nat));
    }
    assert(trim_end(d) == d);
}

/// Completes a line number with the text of that line of the listing.
pub struct LineCompleter {
    runtime: Listing,
}

impl View for LineCompleter {
    type V = Seq<Entry>;

    closed spec fn view(&self) -> Seq<Entry> {
        self.runtime@
    }
}

impl LineCompleter {
    /// A completer over the lines of `runtime`.
    pub fn new(runtime: Listing) -> (c: LineCompleter)
        ensures
            c@ == runtime@,
    {
        LineCompleter { runtime }
    }

    /// The replacement for the typed `line`: the listing's line whose number
    /// it is, if there is one.
    pub fn candidate(&self, line: &str) -> (r: Option<String>)
        ensures
            r matches Some(s) ==> completion(self@, line@) == Some(s@),
            r is None ==> completion(self@, line@) is None,
    {
        let t = trim(line);
        match parse_usize(t.as_str()) {
            Some(num) => self.runtime.line(num),
            None => None,
        }
    }
}

/// The helper of the command editor: it completes through `completer`.
pub struct RsHelper {
    pub completer: LineCompleter,
}

impl RsHelper {
    /// A helper that completes with `completer`.
    pub fn with_completer(completer: LineCompleter) -> (h: RsHelper)
        ensures
            h.completer == completer,
    {
        RsHelper { completer }
    }
}

/// Completion is offered only for a line that, trimmed, reads wholly as a
/// decimal number, and what it offers is the stored line of that number.
pub proof fn law_completion_needs_a_number(e: Seq<Entry>, line: Seq<char>)
    ensures
        completion(e, line) is Some ==> (unsigned_value(trimmed(line), 10) matches Some(v) && v
            <= usize::MAX && lookup(e, v as usize) == completion(e, line)),
{
}

} // verus!
