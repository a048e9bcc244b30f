//! Listing text with the columns that an error points at underlined.

use vstd::prelude::*;
use crate::text::push_char;
use std::ops::Range;

verus! {

/// The escape sequence that turns underlining on.
pub open spec fn underline_on() -> Seq<char> {
    seq!['\u{1b}', '[', '4', 'm']
}

/// The escape sequence that resets all styles, underlining among them.
pub open spec fn underline_off() -> Seq<char> {
    seq!['\u{1b}', '[', '0', 'm']
}

/// The prefix of `nu_ansi_term::Style::new().underline()`. Its source writes
/// `ESC [`, the code `4` of underlining and `m`.
#[verifier::external_body]
fn underline_prefix() -> (s: String)
    ensures
        s@ == underline_on(),
{
    format!("{}", nu_ansi_term::Style::new().underline().prefix())
}

/// The suffix of `nu_ansi_term::Style::new().underline()`. Its source writes
/// the reset sequence `ESC [0m` after any style that is not plain.
#[verifier::external_body]
fn underline_suffix() -> (s: String)
    ensures
        s@ == underline_off(),
{
    format!("{}", nu_ansi_term::Style::new().underline().suffix())
}

/// Some column range holds `i`.
pub open spec fn covered(columns: Seq<Range<usize>>, i: int) -> bool {
    exists|k: int| 0 <= k < columns.len() && (#[trigger] columns[k]).start <= i < columns[k].end
}

/// Some column range starts at `i`.
pub open spec fn starts_at(columns: Seq<Range<usize>>, i: int) -> bool {
    exists|k: int| 0 <= k < columns.len() && (#[trigger] columns[k]).start == i
}

/// The marker that goes before character `i`: underlining turns on where it
/// starts to be covered and off where it stops.
pub open spec fn marker(columns: Seq<Range<usize>>, i: int) -> Seq<char> {
    let before = i > 0 && covered(columns, i - 1);
    let now = covered(columns, i);
    if now && !before {
        underline_on()
    } else if before && !now {
        underline_off()
    } else {
        seq![]
    }
}

/// The first `k` characters of `ins`, each after its marker.
pub open spec fn marked(ins: Seq<char>, columns: Seq<Range<usize>>, k: nat) -> Seq<char>
    decreases k,
{
    if k == 0 {
        seq![]
    } else {
        marked(ins, columns, (k - 1) as nat) + marker(columns, k - 1) + seq![ins[k - 1]]
    }
}

/// What follows the last character of a text of `n` characters: an
/// underlined blank where a range starts just past the end, else the reset
/// where the last character was underlined.
pub open spec fn tail(columns: Seq<Range<usize>>, n: int) -> Seq<char> {
    if starts_at(columns, n) {
        underline_on() + seq![' '] + underline_off()
    } else if n > 0 && covered(columns, n - 1) {
        underline_off()
    } else {
        seq![]
    }
}

/// `ins` with the columns in `columns` underlined.
pub open spec fn decorated(ins: Seq<char>, columns: Seq<Range<usize>>) -> Seq<char> {
    marked(ins, columns, ins.len()) + tail(columns, ins.len() as int)
}

proof fn lemma_marked_plain(ins: Seq<char>, columns: Seq<Range<usize>>, k: nat)
    requires
        k <= ins.len(),
        forall|i: int| 0 <= i < ins.len() ==> !covered(columns, i),
    ensures
        marked(ins, columns, k) == ins.take(k as int),
    decreases k,
{
    if k > 0 {
        lemma_marked_plain(ins, columns, (k - 1) as nat);
        assert(!covered(columns, k - 1));
        assert(k >= 2 ==> !covered(columns, k - 2));
        assert(ins.take(k as int) =~= ins.take(k - 1) + seq![ins[k - 1]]);
        assert(marker(columns, k - 1) =~= Seq::<char>::empty());
    }
}

/// Columns that mark nothing of the text, and none that starts just past
/// it, leave the text as it is: with no columns, the listing line is printed
/// unchanged.
pub proof fn law_unmarked_text_unchanged(ins: Seq<char>, columns: Seq<Range<usize>>)
    requires
        forall|i: int| 0 <= i < ins.len() ==> !covered(columns, i),
        !starts_at(columns, ins.len() as int),
    ensures
        decorated(ins, columns) == ins,
{
    lemma_marked_plain(ins, columns, ins.len());
    assert(ins.take(ins.len() as int) =~= ins);
    if ins.len() > 0 {
        assert(!covered(columns, ins.len() - 1));
    }
    assert(decorated(ins, columns) =~= ins);
}

/// Whether `s` begins with `p`.
pub open spec fn begins_with(s: Seq<char>, p: Seq<char>) -> bool {
    p.len() <= s.len() && s.take(p.len() as int) == p
}

/// `s` with every underline-on and reset marker taken out.
pub open spec fn strip_markers(s: Seq<char>) -> Seq<char>
    decreases s.len(),
{
    if s.len() == 0 {
        s
    } else if begins_with(s, underline_on()) || begins_with(s, underline_off()) {
        strip_markers(s.skip(4))
    } else {
        seq![s[0]] + strip_markers(s.drop_first())
    }
}

/// Reads `s` from the left with underlining `on` or off, `after_marker` where
/// a marker came just before: for each character that is no marker, whether
/// it is underlined; whether underlining is on at the end; and whether the
/// markers are well placed: no reset while underlining is off, and never
/// two markers in a row.
pub open spec fn scan_markers(s: Seq<char>, on: bool, after_marker: bool) -> (
    Seq<bool>,
    bool,
    bool,
)
    decreases s.len(),
{
    if s.len() == 0 {
        (seq![], on, true)
    } else if begins_with(s, underline_on()) {
        let r = scan_markers(s.skip(4), true, true);
        (r.0, r.1, r.2 && !after_marker)
    } else if begins_with(s, underline_off()) {
        let r = scan_markers(s.skip(4), false, true);
        (r.0, r.1, r.2 && on && !after_marker)
    } else {
        let r = scan_markers(s.drop_first(), on, false);
        (seq![on] + r.0, r.1, r.2)
    }
}

/// For each of the first `k` columns, whether a range covers it.
pub open spec fn covered_flags(columns: Seq<Range<usize>>, k: nat) -> Seq<bool> {
    Seq::new(k, |i: int| covered(columns, i))
}

proof fn lemma_read_marker(m: Seq<char>, x: Seq<char>, on: bool, after: bool)
    requires
        m == underline_on() || m == underline_off(),
    ensures
        strip_markers(m + x) == strip_markers(x),
        m == underline_on() ==> scan_markers(m + x, on, after) == (
            scan_markers(x, true, true).0,
            scan_markers(x, true, true).1,
            scan_markers(x, true, true).2 && !after,
        ),
        m == underline_off() ==> scan_markers(m + x, on, after) == (
            scan_markers(x, false, true).0,
            scan_markers(x, false, true).1,
            scan_markers(x, false, true).2 && on && !after,
        ),
{
    let s = m + x;
    assert(s.take(4) =~= m);
    assert(s.skip(4) =~= x);
    if m == underline_off() {
        assert(s.take(4)[2] != underline_on()[2]);
    }
}

proof fn lemma_read_char(c: char, x: Seq<char>, on: bool, after: bool)
    requires
        c != '\u{1b}',
    ensures
        strip_markers(seq![c] + x) == seq![c] + strip_markers(x),
        scan_markers(seq![c] + x, on, after) == (
            seq![on] + scan_markers(x, on, false).0,
            scan_markers(x, on, false).1,
            scan_markers(x, on, false).2,
        ),
{
    let s = seq![c] + x;
    assert(s[0] == c);
    if s.len() >= 4 {
        assert(s.take(4)[0] != underline_on()[0]);
        assert(s.take(4)[0] != underline_off()[0]);
    }
    assert(s.drop_first() =~= x);
}

proof fn lemma_marked_read(
    ins: Seq<char>,
    columns: Seq<Range<usize>>,
    k: nat,
    x: Seq<char>,
)
    requires
        k <= ins.len(),
        forall|i: int| 0 <= i < ins.len() ==> ins[i] != '\u{1b}',
    ensures
        strip_markers(marked(ins, columns, k) + x) == ins.take(k as int) + strip_markers(x),
        ({
            let on = k > 0 && covered(columns, k - 1);
            let r = scan_markers(x, on, false);
            scan_markers(marked(ins, columns, k) + x, false, false) == (
                covered_flags(columns, k) + r.0,
                r.1,
                r.2,
            )
        }),
    decreases k,
{
    if k == 0 {
        assert(marked(ins, columns, 0) + x =~= x);
        assert(ins.take(0) + strip_markers(x) =~= strip_markers(x));
        assert(covered_flags(columns, 0) + scan_markers(x, false, false).0 =~= scan_markers(
            x,
            false,
            false,
        ).0);
    } else {
        let j = k - 1;
        let c = ins[j];
        let m = marker(columns, j);
        let before = j > 0 && covered(columns, j - 1);
        let now = covered(columns, j);
        let y = m + (seq![c] + x);
        assert(marked(ins, columns, k) + x =~= marked(ins, columns, j as nat) + y);
        lemma_marked_read(ins, columns, j as nat, y);
        lemma_read_char(c, x, now, true);
        lemma_read_char(c, x, now, false);
        if now && !before {
            lemma_read_marker(m, seq![c] + x, before, false);
        } else if before && !now {
            lemma_read_marker(m, seq![c] + x, before, false);
        } else {
            assert(y =~= seq![c] + x);
        }
        assert(ins.take(j) + (seq![c] + strip_markers(x)) =~= ins.take(k as int) + strip_markers(
            x,
        ));
        let r = scan_markers(x, now, false);
        assert(covered_flags(columns, j as nat) + (seq![now] + r.0) =~= covered_flags(columns, k)
            + r.0);
    }
}

/// Decoration marks exactly the covered columns, and its markers balance:
/// where the text holds no escape character, taking the markers out gives
/// the text back (with the blank that a range starting just past its end
/// underlines); reading the markers from the left, a character is
/// underlined exactly where a range covers its column; underlining is off
/// at the end; no reset comes while it is off; and no two markers come in a
/// row.
pub proof fn law_decoration_marks_covered_columns(ins: Seq<char>, columns: Seq<Range<usize>>)
    requires
        forall|i: int| 0 <= i < ins.len() ==> ins[i] != '\u{1b}',
    ensures
        strip_markers(decorated(ins, columns)) == ins + (if starts_at(columns, ins.len() as int) {
            seq![' ']
        } else {
            seq![]
        }),
        scan_markers(decorated(ins, columns), false, false) == (
            covered_flags(columns, ins.len()) + (if starts_at(columns, ins.len() as int) {
                seq![true]
            } else {
                seq![]
            }),
            false,
            true,
        ),
{
    let n = ins.len();
    let t = tail(columns, n as int);
    let on = n > 0 && covered(columns, n - 1);
    lemma_marked_read(ins, columns, n, t);
    assert(ins.take(n as int) =~= ins);
    let empty = Seq::<char>::empty();
    if starts_at(columns, n as int) {
        let rest = seq![' '] + underline_off();
        assert(t =~= underline_on() + rest);
        lemma_read_marker(underline_on(), rest, on, false);
        assert(underline_off() =~= underline_off() + empty);
        lemma_read_char(' ', underline_off(), true, true);
        lemma_read_marker(underline_off(), empty, true, false);
        assert(seq![' '] + empty =~= seq![' ']);
        assert(seq![true] + Seq::<bool>::empty() =~= seq![true]);
    } else if on {
        assert(t =~= underline_off() + empty);
        lemma_read_marker(underline_off(), empty, on, false);
    } else {
        assert(t =~= empty);
    }
    assert(covered_flags(columns, n) + Seq::<bool>::empty() =~= covered_flags(columns, n));
    assert(ins + Seq::<char>::empty() =~= ins);
}

fn is_covered(columns: &[Range<usize>], i: usize) -> (b: bool)
    ensures
        b == covered(columns@, i as int),
{
    let mut k: usize = 0;
    while k < columns.len()
        invariant
            k <= columns@.len(),
            forall|j: int| 0 <= j < k ==> !((#[trigger] columns@[j]).start <= i < columns@[j].end),
        decreases columns@.len() - k,
    {
        if columns[k].start <= i && i < columns[k].end {
            return true;
        }
        k = k + 1;
    }
    false
}

fn is_start(columns: &[Range<usize>], i: usize) -> (b: bool)
    ensures
        b == starts_at(columns@, i as int),
{
    let mut k: usize = 0;
    while k < columns.len()
        invariant
            k <= columns@.len(),
            forall|j: int| 0 <= j < k ==> (#[trigger] columns@[j]).start != i,
        decreases columns@.len() - k,
    {
        if columns[k].start == i {
            return true;
        }
        k = k + 1;
    }
    false
}

/// The listing text `ins` with the columns that `columns` marks underlined.
pub fn decorate_list(ins: &str, columns: &[Range<usize>]) -> (out: String)
    ensures
        out@ == decorated(ins@, columns@),
{
    let prefix = underline_prefix();
    let suffix = underline_suffix();
    let n = ins.unicode_len();
    let mut under_on = false;
    let mut out = String::new();
    let mut index: usize = 0;
    while index < n
        invariant
            n == ins@.len(),
            index <= n,
            prefix@ == underline_on(),
            suffix@ == underline_off(),
            under_on == (index > 0 && covered(columns@, index - 1)),
            out@ == marked(ins@, columns@, index as nat),
        decreases n - index,
    {
        let c = ins.get_char(index);
        let do_under = is_covered(columns, index);
        let ghost before = out@;
        if under_on {
            if !do_under {
                out.append(suffix.as_str());
            }
        } else if do_under {
            out.append(prefix.as_str());
        }
        under_on = do_under;
        push_char(&mut out, c);
        assert(out@ =~= before + marker(columns@, index as int) + seq![c]);
        index = index + 1;
    }
    if is_start(columns, index) {
        under_on = true;
        out.append(prefix.as_str());
        push_char(&mut out, ' ');
    }
    if under_on {
        out.append(suffix.as_str());
    }
    assert(out@ =~= decorated(ins@, columns@));
    out
}

} // verus!
