//! A program listing: numbered lines of BASIC text, kept in line-number order.

use vstd::prelude::*;
use crate::error::{Error, ErrorCode};
use crate::text::{digits_value, law_trim_idempotent, parse_unsigned, trim, trimmed, unsigned_value};

verus! {

/// One line of a listing: its number and its text.
pub type Entry = (usize, Seq<char>);

/// The line numbers of `e` strictly increase.
pub open spec fn sorted(e: Seq<Entry>) -> bool {
    forall|i: int, j: int| 0 <= i < j < e.len() ==> e[i].0 < e[j].0
}

/// `e` with line `n` set to `t`: replaced where `n` is there, inserted in
/// number order where it is not.
pub open spec fn place(e: Seq<Entry>, n: usize, t: Seq<char>) -> Seq<Entry>
    decreases e.len(),
{
    if e.len() == 0 {
        seq![(n, t)]
    } else if e[0].0 < n {
        seq![e[0]] + place(e.drop_first(), n, t)
    } else if e[0].0 == n {
        seq![(n, t)] + e.drop_first()
    } else {
        seq![(n, t)] + e
    }
}

/// `e` without line `n`.
pub open spec fn unplace(e: Seq<Entry>, n: usize) -> Seq<Entry>
    decreases e.len(),
{
    if e.len() == 0 {
        e
    } else if e[0].0 == n {
        unplace(e.drop_first(), n)
    } else {
        seq![e[0]] + unplace(e.drop_first(), n)
    }
}

/// The text of line `n` in `e`, if `e` has that line.
pub open spec fn lookup(e: Seq<Entry>, n: usize) -> Option<Seq<char>>
    decreases e.len(),
{
    if e.len() == 0 {
        None
    } else if e[0].0 == n {
        Some(e[0].1)
    } else {
        lookup(e.drop_first(), n)
    }
}

/// The texts of the lines of `e`, in order.
pub open spec fn texts(e: Seq<Entry>) -> Seq<Seq<char>> {
    e.map_values(|x: Entry| x.1)
}

/// The number of leading ASCII digits of `t`.
pub open spec fn digit_run(t: Seq<char>) -> nat
    decreases t.len(),
{
    if t.len() > 0 && '0' <= t[0] && t[0] <= '9' {
        1 + digit_run(t.drop_first())
    } else {
        0
    }
}

/// `t` is a line as a listing keeps it under number `n`: trimmed, its
/// leading digits are `n`, and text follows them.
pub open spec fn stored_line(n: usize, t: Seq<char>) -> bool {
    let d = digit_run(t);
    &&& trimmed(t) == t
    &&& d > 0
    &&& digits_value(t.take(d as int), 10) == Some(n as nat)
    &&& trimmed(t.skip(d as int)).len() > 0
}

/// Every line of `e` is kept as `stored_line` says.
pub open spec fn well_stored(e: Seq<Entry>) -> bool {
    forall|i: int| 0 <= i < e.len() ==> stored_line(#[trigger] e[i].0, e[i].1)
}

/// What loading the line `s` into a listing with lines `e` gives: a blank
/// line changes nothing; a line must start with its number, else it is a
/// direct statement; a number without text deletes that line; a number
/// with text stores the trimmed line under that number.
pub open spec fn load_line(e: Seq<Entry>, s: Seq<char>) -> Result<Seq<Entry>, ErrorCode> {
    let t = trimmed(s);
    let d = digit_run(t);
    if t.len() == 0 {
        Ok(e)
    } else if d == 0 {
        Err(ErrorCode::DirectStatementInFile)
    } else {
        match digits_value(t.take(d as int), 10) {
            Some(v) => if v <= usize::MAX {
                if trimmed(t.skip(d as int)).len() == 0 {
                    Ok(unplace(e, v as usize))
                } else {
                    Ok(place(e, v as usize, t))
                }
            } else {
                Err(ErrorCode::SyntaxError)
            },
            None => Err(ErrorCode::SyntaxError),
        }
    }
}

/// A BASIC program as numbered lines.
#[derive(Debug)]
pub struct Listing {
    lines: Vec<(usize, String)>,
}

impl View for Listing {
    type V = Seq<Entry>;

    closed spec fn view(&self) -> Seq<Entry> {
        self.lines@.map_values(|x: (usize, String)| (x.0, x.1@))
    }
}

impl Default for Listing {
    /// An empty listing.
    fn default() -> (l: Listing)
        ensures
            l@ == Seq::<Entry>::empty(),
    {
        Listing::new()
    }
}

proof fn lemma_place_split(e: Seq<Entry>, n: usize, t: Seq<char>, p: int)
    requires
        0 <= p <= e.len(),
        forall|k: int| 0 <= k < p ==> e[k].0 < n,
    ensures
        place(e, n, t) == e.take(p) + place(e.skip(p), n, t),
    decreases p,
{
    if p > 0 {
        lemma_place_split(e.drop_first(), n, t, p - 1);
        assert(e.drop_first().take(p - 1) =~= e.take(p).drop_first());
        assert(e.drop_first().skip(p - 1) =~= e.skip(p));
        assert(e.take(p) =~= seq![e[0]] + e.take(p).drop_first());
        assert(place(e, n, t) =~= seq![e[0]] + place(e.drop_first(), n, t));
    } else {
        assert(e.skip(0) =~= e);
        assert(e.take(0) + place(e, n, t) =~= place(e, n, t));
    }
}

proof fn lemma_unplace_split(e: Seq<Entry>, n: usize, p: int)
    requires
        0 <= p <= e.len(),
        forall|k: int| 0 <= k < p ==> e[k].0 < n,
    ensures
        unplace(e, n) == e.take(p) + unplace(e.skip(p), n),
    decreases p,
{
    if p > 0 {
        lemma_unplace_split(e.drop_first(), n, p - 1);
        assert(e.drop_first().take(p - 1) =~= e.take(p).drop_first());
        assert(e.drop_first().skip(p - 1) =~= e.skip(p));
        assert(e.take(p) =~= seq![e[0]] + e.take(p).drop_first());
    } else {
        assert(e.skip(0) =~= e);
        assert(e.take(0) + unplace(e, n) =~= unplace(e, n));
    }
}

proof fn lemma_unplace_absent(e: Seq<Entry>, n: usize)
    requires
        sorted(e),
        e.len() > 0 ==> e[0].0 > n,
    ensures
        unplace(e, n) == e,
    decreases e.len(),
{
    if e.len() > 0 {
        lemma_unplace_absent(e.drop_first(), n);
        assert(seq![e[0]] + e.drop_first() =~= e);
    }
}

proof fn lemma_lookup_split(e: Seq<Entry>, n: usize, p: int)
    requires
        0 <= p <= e.len(),
        forall|k: int| 0 <= k < p ==> e[k].0 < n,
    ensures
        lookup(e, n) == lookup(e.skip(p), n),
    decreases p,
{
    if p > 0 {
        lemma_lookup_split(e.drop_first(), n, p - 1);
        assert(e.drop_first().skip(p - 1) =~= e.skip(p));
    } else {
        assert(e.skip(0) =~= e);
    }
}

proof fn lemma_lookup_absent(e: Seq<Entry>, n: usize)
    requires
        sorted(e),
        e.len() > 0 ==> e[0].0 > n,
    ensures
        lookup(e, n) is None,
    decreases e.len(),
{
    if e.len() > 0 {
        lemma_lookup_absent(e.drop_first(), n);
    }
}

/// Storing line `n` keeps the lines in number order; afterwards line `n`
/// reads back as stored and every other line reads as before.
pub proof fn law_store_then_read(e: Seq<Entry>, n: usize, t: Seq<char>, m: usize)
    requires
        sorted(e),
    ensures
        sorted(place(e, n, t)),
        lookup(place(e, n, t), m) == (if m == n {
            Some(t)
        } else {
            lookup(e, m)
        }),
    decreases e.len(),
{
    if e.len() > 0 && e[0].0 < n {
        let rest = e.drop_first();
        assert forall|i: int, j: int| 0 <= i < j < rest.len() implies rest[i].0 < rest[j].0 by {
            assert(rest[i] == e[i + 1] && rest[j] == e[j + 1]);
        }
        law_store_then_read(rest, n, t, m);
        let p = place(e, n, t);
        let q = place(rest, n, t);
        assert(p =~= seq![e[0]] + q);
        assert(p.drop_first() =~= q);
        assert forall|i: int, j: int| 0 <= i < j < p.len() implies p[i].0 < p[j].0 by {
            if i == 0 {
                assert(p[j] == q[j - 1]);
                lemma_place_members(rest, n, t, j - 1);
                if q[j - 1].0 != n {
                    let k = choose|k: int| 0 <= k < rest.len() && rest[k] == q[j - 1];
                    assert(rest[k] == e[k + 1]);
                }
            } else {
                assert(p[i] == q[i - 1] && p[j] == q[j - 1]);
            }
        }
    } else if e.len() > 0 && e[0].0 == n {
        let p = place(e, n, t);
        assert(p.drop_first() =~= e.drop_first());
        assert forall|i: int, j: int| 0 <= i < j < p.len() implies p[i].0 < p[j].0 by {
            assert(p[j] == e[j]);
            if i > 0 {
                assert(p[i] == e[i]);
            }
        }
        if m != n {
            lemma_lookup_skip_first(e, m);
        }
    } else {
        let p = place(e, n, t);
        assert(p.drop_first() =~= e);
        assert forall|i: int, j: int| 0 <= i < j < p.len() implies p[i].0 < p[j].0 by {
            assert(p[j] == e[j - 1]);
            if i > 0 {
                assert(p[i] == e[i - 1]);
            }
        }
    }
}

/// Every line of `place(e, n, t)` is the new line or a line of `e`.
proof fn lemma_place_members(e: Seq<Entry>, n: usize, t: Seq<char>, i: int)
    requires
        0 <= i < place(e, n, t).len(),
    ensures
        place(e, n, t)[i] == (n, t) || exists|k: int| 0 <= k < e.len() && e[k] == place(e, n, t)[i],
    decreases e.len(),
{
    if e.len() > 0 && e[0].0 < n {
        let p = place(e, n, t);
        let q = place(e.drop_first(), n, t);
        assert(p =~= seq![e[0]] + q);
        if i == 0 {
            assert(e[0] == p[0]);
        } else {
            lemma_place_members(e.drop_first(), n, t, i - 1);
            assert(p[i] == q[i - 1]);
            if q[i - 1] != (n, t) {
                let k = choose|k: int| 0 <= k < e.drop_first().len() && e.drop_first()[k] == q[i - 1];
                assert(e[k + 1] == p[i]);
            }
        }
    } else if e.len() > 0 && e[0].0 == n {
        let p = place(e, n, t);
        if i > 0 {
            assert(p[i] == e[i]);
        }
    } else if e.len() > 0 {
        let p = place(e, n, t);
        if i > 0 {
            assert(p[i] == e[i - 1]);
        }
    }
}

proof fn lemma_lookup_skip_first(e: Seq<Entry>, m: usize)
    requires
        e.len() > 0,
        e[0].0 != m,
    ensures
        lookup(seq![(e[0].0, e[0].1)] + e.drop_first(), m) == lookup(e, m),
{
    assert(seq![(e[0].0, e[0].1)] + e.drop_first() =~= e);
}

/// Deleting line `n` keeps the lines in number order; afterwards line `n`
/// is gone and every other line reads as before.
pub proof fn law_delete_then_read(e: Seq<Entry>, n: usize, m: usize)
    requires
        sorted(e),
    ensures
        sorted(unplace(e, n)),
        lookup(unplace(e, n), m) == (if m == n {
            None
        } else {
            lookup(e, m)
        }),
        forall|i: int| 0 <= i < unplace(e, n).len() ==> exists|k: int| 0 <= k < e.len() && e[k] == #[trigger] unplace(e, n)[i],
    decreases e.len(),
{
    if e.len() > 0 {
        let rest = e.drop_first();
        assert forall|i: int, j: int| 0 <= i < j < rest.len() implies rest[i].0 < rest[j].0 by {
            assert(rest[i] == e[i + 1] && rest[j] == e[j + 1]);
        }
        law_delete_then_read(rest, n, m);
        let q = unplace(rest, n);
        if e[0].0 == n {
            assert forall|i: int| 0 <= i < q.len() implies exists|k: int| 0 <= k < e.len() && e[k] == #[trigger] q[i] by {
                let k = choose|k: int| 0 <= k < rest.len() && rest[k] == q[i];
                assert(e[k + 1] == q[i]);
            }
            if m == n {
                if rest.len() > 0 {
                    assert(rest[0] == e[1]);
                }
                lemma_lookup_absent(rest, n);
            }
        } else {
            let p = unplace(e, n);
            assert(p =~= seq![e[0]] + q);
            assert(p.drop_first() =~= q);
            assert forall|i: int| 0 <= i < p.len() implies exists|k: int| 0 <= k < e.len() && e[k] == #[trigger] p[i] by {
                if i == 0 {
                    assert(e[0] == p[0]);
                } else {
                    assert(p[i] == q[i - 1]);
                    let k = choose|k: int| 0 <= k < rest.len() && rest[k] == q[i - 1];
                    assert(e[k + 1] == p[i]);
                }
            }
            assert forall|i: int, j: int| 0 <= i < j < p.len() implies p[i].0 < p[j].0 by {
                assert(p[j] == q[j - 1]);
                let k = choose|k: int| 0 <= k < rest.len() && rest[k] == q[j - 1];
                assert(rest[k] == e[k + 1]);
                if i > 0 {
                    assert(p[i] == q[i - 1]);
                }
            }
        }
    }
}

/// Loading the lines of a listing in order: the next line, loaded onto the
/// lines before it, gives the lines up to and with it.
pub proof fn law_load_next_line(e: Seq<Entry>, k: int)
    requires
        sorted(e),
        well_stored(e),
        0 <= k < e.len(),
    ensures
        load_line(e.take(k), e[k].1) == Ok::<Seq<Entry>, ErrorCode>(e.take(k + 1)),
{
    let n = e[k].0;
    let t = e[k].1;
    assert(stored_line(n, t));
    let front = e.take(k);
    assert forall|m: int| 0 <= m < k implies front[m].0 < n by {
        assert(front[m] == e[m]);
    }
    lemma_place_split(front, n, t, k);
    assert(front.take(k) =~= front);
    assert(front.skip(k) =~= Seq::<Entry>::empty());
    assert(front + seq![(n, t)] =~= e.take(k + 1));
}

proof fn lemma_place_well_stored(e: Seq<Entry>, n: usize, t: Seq<char>)
    requires
        well_stored(e),
        stored_line(n, t),
    ensures
        well_stored(place(e, n, t)),
{
    let r = place(e, n, t);
    assert forall|i: int| 0 <= i < r.len() implies stored_line(#[trigger] r[i].0, r[i].1) by {
        lemma_place_members(e, n, t, i);
        if r[i] != (n, t) {
            let k = choose|k: int| 0 <= k < e.len() && e[k] == r[i];
            assert(stored_line(e[k].0, e[k].1));
        }
    }
}

impl Listing {
    #[verifier::type_invariant]
    closed spec fn in_order(&self) -> bool {
        sorted(self@) && well_stored(self@)
    }

    /// An empty listing.
    pub fn new() -> (l: Listing)
        ensures
            l@ == Seq::<Entry>::empty(),
    {
        let l = Listing { lines: Vec::new() };
        assert(l@ =~= Seq::<Entry>::empty());
        l
    }

    /// Whether the listing has no line.
    pub fn is_empty(&self) -> (b: bool)
        ensures
            b == (self@.len() == 0),
    {
        self.lines.len() == 0
    }

    /// The number of lines.
    pub fn len(&self) -> (n: usize)
        ensures
            n == self@.len(),
    {
        self.lines.len()
    }

    /// The text of line `num`, if the listing has it.
    pub fn line(&self, num: usize) -> (r: Option<String>)
        ensures
            r matches Some(s) ==> lookup(self@, num) == Some(s@),
            r is None ==> lookup(self@, num) is None,
    {
        proof {
            use_type_invariant(self);
        }
        let n = self.lines.len();
        let mut p: usize = 0;
        while p < n && self.lines[p].0 < num
            invariant
                n == self@.len(),
                n == self.lines@.len(),
                p <= n,
                sorted(self@),
                forall|k: int| 0 <= k < p ==> self@[k].0 < num,
            decreases n - p,
        {
            assert(self@[p as int].0 == self.lines@[p as int].0);
            p = p + 1;
        }
        proof {
            lemma_lookup_split(self@, num, p as int);
        }
        if p < n && self.lines[p].0 == num {
            assert(self@.skip(p as int)[0] == self@[p as int]);
            Some(self.lines[p].1.clone())
        } else {
            proof {
                if p < n {
                    assert(self@[p as int].0 == self.lines@[p as int].0);
                    assert forall|i: int, j: int|
                        0 <= i < j < self@.skip(p as int).len() implies self@.skip(p as int)[i].0
                        < self@.skip(p as int)[j].0 by {
                        assert(self@.skip(p as int)[i] == self@[p + i]);
                        assert(self@.skip(p as int)[j] == self@[p + j]);
                    }
                }
                lemma_lookup_absent(self@.skip(p as int), num);
            }
            None
        }
    }

    /// Sets line `n` to `t`.
    fn store_line(&mut self, n: usize, t: String)
        requires
            stored_line(n, t@),
        ensures
            final(self)@ == place(old(self)@, n, t@),
    {
        proof {
            use_type_invariant(&*self);
        }
        let mut lines: Vec<(usize, String)> = Vec::new();
        std::mem::swap(&mut lines, &mut self.lines);
        let ghost e = lines@.map_values(|x: (usize, String)| (x.0, x.1@));
        assert(e == old(self)@);
        let len = lines.len();
        let mut p: usize = 0;
        while p < len && lines[p].0 < n
            invariant
                len == lines@.len(),
                e == lines@.map_values(|x: (usize, String)| (x.0, x.1@)),
                p <= len,
                forall|k: int| 0 <= k < p ==> e[k].0 < n,
            decreases len - p,
        {
            p = p + 1;
        }
        proof {
            lemma_place_split(e, n, t@, p as int);
        }
        let ghost tv = t@;
        if p < len && lines[p].0 == n {
            assert(e.skip(p as int)[0].0 == n);
            assert(place(e.skip(p as int), n, tv) =~= seq![(n, tv)] + e.skip(p + 1));
            lines.set(p, (n, t));
        } else {
            assert(place(e.skip(p as int), n, tv) =~= seq![(n, tv)] + e.skip(p as int));
            lines.insert(p, (n, t));
        }
        let ghost r = lines@.map_values(|x: (usize, String)| (x.0, x.1@));
        assert(r =~= place(e, n, tv));
        proof {
            law_store_then_read(e, n, tv, n);
            lemma_place_well_stored(e, n, tv);
        }
        self.lines = lines;
    }

    /// Removes line `n`, where the listing has it.
    fn remove_line(&mut self, n: usize)
        ensures
            final(self)@ == unplace(old(self)@, n),
    {
        proof {
            use_type_invariant(&*self);
        }
        let mut lines: Vec<(usize, String)> = Vec::new();
        std::mem::swap(&mut lines, &mut self.lines);
        let ghost e = lines@.map_values(|x: (usize, String)| (x.0, x.1@));
        assert(e == old(self)@);
        let len = lines.len();
        let mut p: usize = 0;
        while p < len && lines[p].0 < n
            invariant
                len == lines@.len(),
                e == lines@.map_values(|x: (usize, String)| (x.0, x.1@)),
                p <= len,
                forall|k: int| 0 <= k < p ==> e[k].0 < n,
            decreases len - p,
        {
            p = p + 1;
        }
        proof {
            lemma_unplace_split(e, n, p as int);
        }
        if p < len && lines[p].0 == n {
            proof {
                let rest = e.skip(p + 1);
                assert(e.skip(p as int).drop_first() =~= rest);
                assert forall|i: int, j: int| 0 <= i < j < rest.len() implies rest[i].0
                    < rest[j].0 by {
                    assert(rest[i] == e[p + 1 + i] && rest[j] == e[p + 1 + j]);
                }
                if rest.len() > 0 {
                    assert(rest[0] == e[p + 1]);
                }
                lemma_unplace_absent(rest, n);
            }
            lines.remove(p);
        } else {
            proof {
                let rest = e.skip(p as int);
                assert forall|i: int, j: int| 0 <= i < j < rest.len() implies rest[i].0
                    < rest[j].0 by {
                    assert(rest[i] == e[p + i] && rest[j] == e[p + j]);
                }
                if rest.len() > 0 {
                    assert(rest[0] == e[p as int]);
                }
                lemma_unplace_absent(rest, n);
                assert(e.take(p as int) + rest =~= e);
            }
        }
        let ghost r = lines@.map_values(|x: (usize, String)| (x.0, x.1@));
        assert(r =~= unplace(e, n));
        assert(sorted(r)) by {
            assert forall|i: int, j: int| 0 <= i < j < r.len() implies r[i].0 < r[j].0 by {
                if r.len() < e.len() {
                    if j < p {
                        assert(r[i] == e[i] && r[j] == e[j]);
                    } else if i < p {
                        assert(r[i] == e[i] && r[j] == e[j + 1]);
                    } else {
                        assert(r[i] == e[i + 1] && r[j] == e[j + 1]);
                    }
                } else {
                    assert(r[i] == e[i] && r[j] == e[j]);
                }
            }
        }
        assert(well_stored(r)) by {
            law_delete_then_read(e, n, n);
            assert forall|i: int| 0 <= i < r.len() implies stored_line(#[trigger] r[i].0, r[i].1) by {
                let k = choose|k: int| 0 <= k < e.len() && e[k] == r[i];
                assert(stored_line(e[k].0, e[k].1));
            }
        }
        self.lines = lines;
    }

    /// Loads one line of program text into the listing, as `load_line` says.
    pub fn load_str(&mut self, s: &str) -> (r: Result<(), Error>)
        ensures
            sorted(final(self)@),
            well_stored(final(self)@),
            match load_line(old(self)@, s@) {
                Ok(e) => r is Ok && final(self)@ == e,
                Err(c) => r matches Err(err) && err.code == c && err.detail@.len() == 0
                    && final(self)@ == old(self)@,
            },
    {
        proof {
            reveal_strlit("");
            use_type_invariant(&*self);
        }
        let t = trim(s);
        let n = t.unicode_len();
        if n == 0 {
            return Ok(());
        }
        let mut d: usize = 0;
        assert(t@.skip(0) =~= t@);
        while d < n && '0' <= t.get_char(d) && t.get_char(d) <= '9'
            invariant
                n == t@.len(),
                d <= n,
                digit_run(t@) == d + digit_run(t@.skip(d as int)),
                forall|k: int| 0 <= k < d ==> '0' <= t@[k] && t@[k] <= '9',
            decreases n - d,
        {
            assert(t@.skip(d as int).drop_first() =~= t@.skip(d + 1));
            d = d + 1;
        }
        assert(digit_run(t@.skip(d as int)) == 0);
        if d == 0 {
            return Err(Error::new(ErrorCode::DirectStatementInFile, ""));
        }
        let digits = t.as_str().substring_char(0, d);
        assert(digits@ =~= t@.take(d as int));
        assert(unsigned_value(digits@, 10) == digits_value(t@.take(d as int), 10));
        match parse_unsigned(digits, 10) {
            Some(v) => {
                if v > usize::MAX as u64 {
                    return Err(Error::new(ErrorCode::SyntaxError, ""));
                }
                let num = v as usize;
                let body = trim(t.as_str().substring_char(d, n));
                assert(t@.subrange(d as int, n as int) =~= t@.skip(d as int));
                if body.unicode_len() == 0 {
                    self.remove_line(num);
                } else {
                    proof {
                        law_trim_idempotent(s@);
                    }
                    self.store_line(num, t);
                }
                proof {
                    use_type_invariant(&*self);
                }
                Ok(())
            },
            None => Err(Error::new(ErrorCode::SyntaxError, "")),
        }
    }

    /// The texts of the lines, in line-number order.
    pub fn lines(&self) -> (v: Vec<String>)
        ensures
            v@.map_values(|s: String| s@) == texts(self@),
            sorted(self@),
            well_stored(self@),
    {
        proof {
            use_type_invariant(self);
        }
        let n = self.lines.len();
        let mut v: Vec<String> = Vec::new();
        let mut i: usize = 0;
        while i < n
            invariant
                n == self.lines@.len(),
                i <= n,
                v@.len() == i,
                forall|k: int| 0 <= k < i ==> v@[k]@ == self.lines@[k].1@,
            decreases n - i,
        {
            v.push(self.lines[i].1.clone());
            i = i + 1;
        }
        assert(v@.map_values(|s: String| s@) =~= texts(self@));
        v
    }
}

} // verus!
