//! The decisions of loading a program file line by line, patch files
//! among them, as a state machine: the caller reads the file, which the
//! loader takes line by line, probes, fetches and saves files as the loader
//! asks, and hands back what came of it.

use vstd::prelude::*;
use crate::error::{Error, ErrorCode};
use crate::listing::{
    digit_run, law_load_next_line, load_line, sorted, stored_line, texts, well_stored, Entry,
    Listing,
};
use crate::patch::{
    is_remote, listing_crc, nothing_to_save, numbered, numbered_text, program_crc, quoted,
    quoted_name, remote_url, resolve_source, save_lines, Source,
};
use crate::text::{
    ascii_words, concatenated, hex8, hex_padded, parse_hex_u32, split_ascii_words, starts_with_char,
    string_views, trim, trimmed, unsigned_value,
};

verus! {

/// What looking for a file on disk found.
pub enum Probe {
    /// No such file.
    Missing,
    /// The file exists.
    Exists,
    /// The look failed, with this message.
    Failed(String),
}

/// The model of a `Probe`.
pub enum ProbeView {
    Missing,
    Exists,
    Failed(Seq<char>),
}

impl View for Probe {
    type V = ProbeView;

    open spec fn view(&self) -> ProbeView {
        match self {
            Probe::Missing => ProbeView::Missing,
            Probe::Exists => ProbeView::Exists,
            Probe::Failed(m) => ProbeView::Failed(m@),
        }
    }
}

/// What the caller hands the loader.
pub enum LoadEvent {
    /// The next line of the file.
    Line(String),
    /// The file has no more lines.
    End,
    /// Reading the next line failed, with this message.
    ReadFailed(String),
    /// What came of the save that the loader asked for.
    Saved(Result<(), Error>),
    /// What the probe that the loader asked for found.
    Probed(Probe),
    /// What came of the fetch that the loader asked for.
    Fetched(Result<Listing, Error>),
}

/// The model of a `LoadEvent`.
pub enum EventView {
    Line(Seq<char>),
    End,
    ReadFailed(Seq<char>),
    Saved(Result<(), (ErrorCode, Seq<char>)>),
    Probed(ProbeView),
    Fetched(Result<Seq<Entry>, (ErrorCode, Seq<char>)>),
}

impl View for LoadEvent {
    type V = EventView;

    open spec fn view(&self) -> EventView {
        match self {
            LoadEvent::Line(t) => EventView::Line(t@),
            LoadEvent::End => EventView::End,
            LoadEvent::ReadFailed(m) => EventView::ReadFailed(m@),
            LoadEvent::Saved(r) => EventView::Saved(
                match r {
                    Ok(()) => Ok(()),
                    Err(e) => Err(e@),
                },
            ),
            LoadEvent::Probed(p) => EventView::Probed(p@),
            LoadEvent::Fetched(r) => EventView::Fetched(
                match r {
                    Ok(l) => Ok(l@),
                    Err(e) => Err(e@),
                },
            ),
        }
    }
}

/// What the loader asks the caller to do next.
pub enum LoadAction {
    /// Read the next line of the file.
    ReadLine,
    /// Write these lines to the file of that name.
    Write { filename: String, lines: Vec<String> },
    /// Look whether the file of that name exists.
    Probe(String),
    /// Load the program at that address, errors in its lines ignored.
    Fetch(String),
    /// Loading is over, with this result.
    Finish(Result<Listing, Error>),
}

/// The model of a `LoadAction`.
pub enum ActionView {
    ReadLine,
    Write { filename: Seq<char>, lines: Seq<Seq<char>> },
    Probe(Seq<char>),
    Fetch(Seq<char>),
    Finish(Result<Seq<Entry>, (ErrorCode, Seq<char>)>),
}

impl View for LoadAction {
    type V = ActionView;

    open spec fn view(&self) -> ActionView {
        match self {
            LoadAction::ReadLine => ActionView::ReadLine,
            LoadAction::Write { filename, lines } => ActionView::Write {
                filename: filename@,
                lines: string_views(lines@),
            },
            LoadAction::Probe(n) => ActionView::Probe(n@),
            LoadAction::Fetch(u) => ActionView::Fetch(u@),
            LoadAction::Finish(r) => ActionView::Finish(
                match r {
                    Ok(l) => Ok(l@),
                    Err(e) => Err(e@),
                },
            ),
        }
    }
}

/// One answer of the loader: lines to print first, then what to do.
pub struct Step {
    pub prints: Vec<String>,
    pub action: LoadAction,
}

impl View for Step {
    type V = (Seq<Seq<char>>, ActionView);

    open spec fn view(&self) -> (Seq<Seq<char>>, ActionView) {
        (string_views(self.prints@), self.action@)
    }
}

/// What the loader waits for.
pub enum Phase {
    Reading,
    SaveThenFetch { name: String, crc: String, url: String },
    NameProbe { name: String },
    FetchProbe { name: String, crc: String, url: String },
    Fetching { crc: String },
    SaveThenFinish,
    Done,
}

/// The model of a `Phase`.
pub enum PhaseView {
    /// The next line, or the end of the file.
    Reading,
    /// The save before a fetch; then the name part, checksum and address
    /// of the fetch directive.
    SaveThenFetch { name: Seq<char>, crc: Seq<char>, url: Seq<char> },
    /// The probe of a file name that a directive gives.
    NameProbe { name: Seq<char> },
    /// The probe of the name of a fetch directive.
    FetchProbe { name: Seq<char>, crc: Seq<char>, url: Seq<char> },
    /// The fetched program, to be checked against `crc`.
    Fetching { crc: Seq<char> },
    /// The save at the end of a patch file.
    SaveThenFinish,
    /// Nothing: loading is over.
    Done,
}

impl View for Phase {
    type V = PhaseView;

    open spec fn view(&self) -> PhaseView {
        match self {
            Phase::Reading => PhaseView::Reading,
            Phase::SaveThenFetch { name, crc, url } => PhaseView::SaveThenFetch {
                name: name@,
                crc: crc@,
                url: url@,
            },
            Phase::NameProbe { name } => PhaseView::NameProbe { name: name@ },
            Phase::FetchProbe { name, crc, url } => PhaseView::FetchProbe {
                name: name@,
                crc: crc@,
                url: url@,
            },
            Phase::Fetching { crc } => PhaseView::Fetching { crc: crc@ },
            Phase::SaveThenFinish => PhaseView::SaveThenFinish,
            Phase::Done => PhaseView::Done,
        }
    }
}

/// The model of a loader.
pub struct LoaderState {
    /// A first line in quotes starts patch mode.
    pub allow_patch: bool,
    /// Lines that do not load are passed over.
    pub ignore_errors: bool,
    /// In patch mode.
    pub patching: bool,
    /// The first program fetched, which loading gives back.
    pub first: Seq<Entry>,
    /// The program in hand.
    pub listing: Seq<Entry>,
    /// The file that the program in hand is saved to.
    pub filename: Seq<char>,
    /// The index of the current line, from zero.
    pub index: nat,
    pub phase: PhaseView,
}

/// A loader about to read the first line.
pub open spec fn initial(allow_patch: bool, ignore_errors: bool) -> LoaderState {
    LoaderState {
        allow_patch,
        ignore_errors,
        patching: false,
        first: seq![],
        listing: seq![],
        filename: seq![],
        index: 0,
        phase: PhaseView::Reading,
    }
}

/// On to the next line.
pub open spec fn advance(s: LoaderState) -> LoaderState {
    LoaderState { index: s.index + 1, phase: PhaseView::Reading, ..s }
}

/// Loading is over; the programs have been handed out.
pub open spec fn finished(s: LoaderState) -> LoaderState {
    LoaderState { first: seq![], listing: seq![], phase: PhaseView::Done, ..s }
}

/// The events that a loader in state `s` takes.
pub open spec fn accepts(s: LoaderState, e: EventView) -> bool {
    match s.phase {
        PhaseView::Reading => match e {
            EventView::Line(_) => s.index < usize::MAX,
            EventView::End => true,
            EventView::ReadFailed(_) => true,
            _ => false,
        },
        PhaseView::SaveThenFetch { .. } => e is Saved,
        PhaseView::SaveThenFinish => e is Saved,
        PhaseView::NameProbe { .. } => e is Probed && s.index < usize::MAX,
        PhaseView::FetchProbe { .. } => e is Probed && s.index < usize::MAX,
        PhaseView::Fetching { .. } => e is Fetched && s.index < usize::MAX,
        PhaseView::Done => false,
    }
}

/// The error of a directive whose file name is not in quotes.
pub open spec fn bad_name(index: nat) -> (ErrorCode, Seq<char>) {
    (ErrorCode::BadFileName, numbered("In line "@, index, " of the patch file."@))
}

/// The error of a directive that names a file that exists.
pub open spec fn name_taken(index: nat) -> (ErrorCode, Seq<char>) {
    (ErrorCode::FileAlreadyExists, numbered("In line "@, index, " of the patch file."@))
}

/// After the save that a fetch directive begins with: the first program
/// fetched is kept aside, and the new name is probed.
pub open spec fn after_save(
    s: LoaderState,
    prints: Seq<Seq<char>>,
    name: Seq<char>,
    crc: Seq<char>,
    url: Seq<char>,
) -> (LoaderState, Seq<Seq<char>>, ActionView) {
    let s2 = if s.first.len() == 0 {
        LoaderState { first: s.listing, listing: s.first, ..s }
    } else {
        s
    };
    match quoted(name) {
        Some(n) => (
            LoaderState { phase: PhaseView::FetchProbe { name: n, crc, url }, ..s2 },
            prints,
            ActionView::Probe(n),
        ),
        None => (finished(s2), prints, ActionView::Finish(Err(bad_name(s.index)))),
    }
}

/// A fetch directive: the program in hand is saved first where it has a
/// file name.
pub open spec fn start_fetch(
    s: LoaderState,
    prints: Seq<Seq<char>>,
    name: Seq<char>,
    crc: Seq<char>,
    url: Seq<char>,
) -> (LoaderState, Seq<Seq<char>>, ActionView) {
    if s.filename.len() > 0 {
        let p = prints.push("Saving to "@ + s.filename);
        if s.listing.len() == 0 {
            (
                finished(s),
                p,
                ActionView::Finish(Err((ErrorCode::InternalError, nothing_to_save()))),
            )
        } else {
            (
                LoaderState { phase: PhaseView::SaveThenFetch { name, crc, url }, ..s },
                p,
                ActionView::Write { filename: s.filename, lines: texts(s.listing) },
            )
        }
    } else {
        after_save(s, prints, name, crc, url)
    }
}

/// A line of the file.
pub open spec fn on_line(s: LoaderState, t: Seq<char>) -> (
    LoaderState,
    Seq<Seq<char>>,
    ActionView,
) {
    let quote = t.len() > 0 && t[0] == '"';
    let tick = t.len() > 0 && t[0] == '\'';
    let enter = s.allow_patch && s.index == 0 && (quote || tick);
    let s1 = LoaderState { patching: s.patching || enter, ..s };
    let p0: Seq<Seq<char>> = if enter {
        seq!["Patch mode.\n"@]
    } else {
        seq![]
    };
    if s1.patching && tick {
        (advance(s1), p0.push(trimmed(t.drop_first())), ActionView::ReadLine)
    } else if s1.patching && quote {
        let w = ascii_words(t);
        if w.len() == 1 {
            match quoted(w[0]) {
                Some(n) => (
                    LoaderState { phase: PhaseView::NameProbe { name: n }, ..s1 },
                    p0,
                    ActionView::Probe(n),
                ),
                None => (finished(s1), p0, ActionView::Finish(Err(bad_name(s.index)))),
            }
        } else if w.len() == 3 {
            start_fetch(s1, p0, w[0], w[1], w[2])
        } else {
            (
                finished(s1),
                p0,
                ActionView::Finish(
                    Err(
                        (
                            ErrorCode::SyntaxError,
                            numbered(
                                "Unable to parse info in line "@,
                                s.index,
                                " of the patch file."@,
                            ),
                        ),
                    ),
                ),
            )
        }
    } else {
        match load_line(s.listing, t) {
            Ok(e) => (advance(LoaderState { listing: e, ..s1 }), p0, ActionView::ReadLine),
            Err(c) => if s.ignore_errors {
                (advance(s1), p0, ActionView::ReadLine)
            } else {
                (
                    finished(s1),
                    p0,
                    ActionView::Finish(
                        Err((c, numbered("In line "@, s.index, " of the file."@))),
                    ),
                )
            },
        }
    }
}

/// The end of the file: a patch file saves the program in hand.
pub open spec fn on_end(s: LoaderState) -> (LoaderState, Seq<Seq<char>>, ActionView) {
    if s.patching {
        let p = seq!["Saving to "@ + s.filename];
        if s.listing.len() == 0 {
            (
                finished(s),
                p,
                ActionView::Finish(Err((ErrorCode::InternalError, nothing_to_save()))),
            )
        } else {
            (
                LoaderState { phase: PhaseView::SaveThenFinish, ..s },
                p,
                ActionView::Write { filename: s.filename, lines: texts(s.listing) },
            )
        }
    } else {
        (finished(s), seq![], ActionView::Finish(Ok(s.listing)))
    }
}

/// The answer to a probe of a file name.
pub open spec fn on_probed(s: LoaderState, p: ProbeView) -> (
    LoaderState,
    Seq<Seq<char>>,
    ActionView,
) {
    let name = match s.phase {
        PhaseView::NameProbe { name } => name,
        PhaseView::FetchProbe { name, .. } => name,
        _ => seq![],
    };
    match p {
        ProbeView::Missing => match s.phase {
            PhaseView::FetchProbe { name, crc, url } => (
                LoaderState { filename: name, phase: PhaseView::Fetching { crc }, ..s },
                seq!["Retrieving from "@ + url],
                ActionView::Fetch(url),
            ),
            _ => (advance(LoaderState { filename: name, ..s }), seq![], ActionView::ReadLine),
        },
        ProbeView::Exists => (
            finished(s),
            seq!["Saving to "@ + name],
            ActionView::Finish(Err(name_taken(s.index))),
        ),
        ProbeView::Failed(m) => (
            finished(s),
            seq![],
            ActionView::Finish(Err((ErrorCode::InternalError, m))),
        ),
    }
}

/// The fetched program: it becomes the program in hand once its checksum
/// matches.
pub open spec fn on_fetched(
    s: LoaderState,
    r: Result<Seq<Entry>, (ErrorCode, Seq<char>)>,
) -> (LoaderState, Seq<Seq<char>>, ActionView) {
    let crc = match s.phase {
        PhaseView::Fetching { crc } => crc,
        _ => seq![],
    };
    match r {
        Err(e) => (finished(s), seq![], ActionView::Finish(Err(e))),
        Ok(l) => {
            let s1 = LoaderState { listing: l, ..s };
            match unsigned_value(crc, 16) {
                Some(v) => if v <= u32::MAX {
                    if listing_crc(l) == v {
                        (advance(s1), seq![], ActionView::ReadLine)
                    } else {
                        (
                            finished(s1),
                            seq![],
                            ActionView::Finish(
                                Err(
                                    (
                                        ErrorCode::SyntaxError,
                                        numbered(
                                            "Expected CRC "@ + hex_padded(v, 8) + " got "@
                                                + hex_padded(listing_crc(l) as nat, 8)
                                                + " in line "@,
                                            s.index,
                                            " of the patch file."@,
                                        ),
                                    ),
                                ),
                            ),
                        )
                    }
                } else {
                    (finished(s1), seq![], ActionView::Finish(Err(bad_crc(s.index))))
                },
                None => (finished(s1), seq![], ActionView::Finish(Err(bad_crc(s.index)))),
            }
        },
    }
}

/// The error of a checksum that is no hexadecimal `u32`.
pub open spec fn bad_crc(index: nat) -> (ErrorCode, Seq<char>) {
    (
        ErrorCode::SyntaxError,
        numbered("Unable to parse crc info in line "@, index, " of the patch file."@),
    )
}

/// What came of a save.
pub open spec fn on_saved(s: LoaderState, r: Result<(), (ErrorCode, Seq<char>)>) -> (
    LoaderState,
    Seq<Seq<char>>,
    ActionView,
) {
    match r {
        Err(e) => (finished(s), seq![], ActionView::Finish(Err(e))),
        Ok(()) => match s.phase {
            PhaseView::SaveThenFetch { name, crc, url } => after_save(
                s,
                seq![Seq::<char>::empty()],
                name,
                crc,
                url,
            ),
            _ => (
                finished(s),
                seq![Seq::<char>::empty()],
                ActionView::Finish(
                    Ok(
                        if s.first.len() > 0 {
                            s.first
                        } else {
                            s.listing
                        },
                    ),
                ),
            ),
        },
    }
}

/// The loader's answer to event `e` in state `s`: its next state, the lines
/// it prints, what it asks for.
pub open spec fn transition(s: LoaderState, e: EventView) -> (
    LoaderState,
    Seq<Seq<char>>,
    ActionView,
) {
    match e {
        EventView::Line(t) => on_line(s, t),
        EventView::End => on_end(s),
        EventView::ReadFailed(m) => (
            finished(s),
            seq![],
            ActionView::Finish(Err((ErrorCode::InternalError, m))),
        ),
        EventView::Saved(r) => on_saved(s, r),
        EventView::Probed(p) => on_probed(s, p),
        EventView::Fetched(r) => on_fetched(s, r),
    }
}

/// Loading the lines of a plain program file onto the program `e`, from
/// line `i` on: each line loads in turn; a line that does not load ends it
/// with its error and line number, or is passed over where errors are
/// ignored.
pub open spec fn load_all(
    e: Seq<Entry>,
    lines: Seq<Seq<char>>,
    ignore_errors: bool,
    i: nat,
) -> Result<Seq<Entry>, (ErrorCode, Seq<char>)>
    decreases lines.len() - i,
{
    if i >= lines.len() {
        Ok(e)
    } else {
        match load_line(e, lines[i as int]) {
            Ok(e2) => load_all(e2, lines, ignore_errors, i + 1),
            Err(c) => if ignore_errors {
                load_all(e, lines, ignore_errors, i + 1)
            } else {
                Err((c, numbered("In line "@, i, " of the file."@)))
            },
        }
    }
}

/// A file as read: its lines, in order, and the message of the failure that
/// stopped the reading, if one did.
pub struct FileText {
    pub lines: Vec<String>,
    pub failure: Option<String>,
}

impl View for FileText {
    type V = (Seq<Seq<char>>, Option<Seq<char>>);

    open spec fn view(&self) -> (Seq<Seq<char>>, Option<Seq<char>>) {
        (
            string_views(self.lines@),
            match self.failure {
                Some(m) => Some(m@),
                None => None,
            },
        )
    }
}

/// What file `f` gives at line `i`: that line, or past its lines the
/// failure that stopped the reading, or else its end.
pub open spec fn file_event(f: (Seq<Seq<char>>, Option<Seq<char>>), i: nat) -> EventView {
    if i < f.0.len() {
        EventView::Line(f.0[i as int])
    } else {
        match f.1 {
            Some(m) => EventView::ReadFailed(m),
            None => EventView::End,
        }
    }
}

/// A line after which the loader asks for the next line moves it on to
/// that line, reading.
pub proof fn lemma_line_advances(s: LoaderState, t: Seq<char>)
    ensures
        transition(s, EventView::Line(t)).2 is ReadLine ==> transition(
            s,
            EventView::Line(t),
        ).0.phase == PhaseView::Reading && transition(
            s,
            EventView::Line(t),
        ).0.index == s.index + 1,
{
}

/// Feeding file `f` to a loader in state `s`, from the loader's current line
/// on: each line in turn while the loader asks for lines, then the end of
/// the file or its failure. Gives the state reached, all that was printed,
/// and the first request that is not for a line.
pub open spec fn file_run(s: LoaderState, f: (Seq<Seq<char>>, Option<Seq<char>>)) -> (
    LoaderState,
    Seq<Seq<char>>,
    ActionView,
)
    decreases f.0.len() - s.index,
{
    let (s2, p, a) = transition(s, file_event(f, s.index));
    if s.index < f.0.len() && a is ReadLine {
        proof {
            lemma_line_advances(s, f.0[s.index as int]);
        }
        let (s3, p3, a3) = file_run(s2, f);
        (s3, p + p3, a3)
    } else {
        (s2, p, a)
    }
}

proof fn lemma_file_run_asks_more_than_a_line(s: LoaderState, f: (Seq<Seq<char>>, Option<Seq<char>>))
    ensures
        !(file_run(s, f).2 is ReadLine),
    decreases f.0.len() - s.index,
{
    let (s2, p, a) = transition(s, file_event(f, s.index));
    if s.index < f.0.len() && a is ReadLine {
        lemma_line_advances(s, f.0[s.index as int]);
        lemma_file_run_asks_more_than_a_line(s2, f);
    }
}

/// What a plain file gives loaded onto program `e` from line `i` on: its
/// lines' program or the first error of a line, and where all its lines
/// load, the failure that stopped its reading, if one did.
pub open spec fn file_result(
    e: Seq<Entry>,
    f: (Seq<Seq<char>>, Option<Seq<char>>),
    ignore_errors: bool,
    i: nat,
) -> Result<Seq<Entry>, (ErrorCode, Seq<char>)> {
    match load_all(e, f.0, ignore_errors, i) {
        Ok(e2) => match f.1 {
            Some(m) => Err((ErrorCode::InternalError, m)),
            None => Ok(e2),
        },
        Err(x) => Err(x),
    }
}

/// Whether a line opens a patch file: it begins with a quote or a tick.
pub open spec fn opens_patch(t: Seq<char>) -> bool {
    t.len() > 0 && (t[0] == '"' || t[0] == '\'')
}

proof fn lemma_file_run_plain(s: LoaderState, f: (Seq<Seq<char>>, Option<Seq<char>>))
    requires
        !s.patching,
        s.phase == PhaseView::Reading,
        s.allow_patch && s.index == 0 && 0 < f.0.len() ==> !opens_patch(f.0[0]),
    ensures
        file_run(s, f).1.len() == 0,
        file_run(s, f).2 == ActionView::Finish(file_result(s.listing, f, s.ignore_errors, s.index)),
    decreases f.0.len() - s.index,
{
    let (s2, p, a) = transition(s, file_event(f, s.index));
    if s.index < f.0.len() && a is ReadLine {
        lemma_line_advances(s, f.0[s.index as int]);
        lemma_file_run_plain(s2, f);
    }
}

/// A file that is not a patch file loads as its lines: fed to a fresh
/// loader, it makes the loader ask for no outside work and print nothing,
/// and gives the program that its lines load to one after the other onto
/// an empty program, or the first error of a line with its number, or,
/// where every line loads, the failure that stopped the reading.
pub proof fn law_file_loads_as_its_lines(
    f: (Seq<Seq<char>>, Option<Seq<char>>),
    allow_patch: bool,
    ignore_errors: bool,
)
    requires
        allow_patch && 0 < f.0.len() ==> !opens_patch(f.0[0]),
    ensures
        file_run(initial(allow_patch, ignore_errors), f).1.len() == 0,
        file_run(initial(allow_patch, ignore_errors), f).2 == ActionView::Finish(
            file_result(seq![], f, ignore_errors, 0),
        ),
{
    lemma_file_run_plain(initial(allow_patch, ignore_errors), f);
}

proof fn lemma_load_all_in_order(e: Seq<Entry>, ignore_errors: bool, k: nat)
    requires
        sorted(e),
        well_stored(e),
        k <= e.len(),
    ensures
        load_all(e.take(k as int), texts(e), ignore_errors, k) == Ok::<Seq<Entry>, (ErrorCode, Seq<char>)>(e),
    decreases e.len() - k,
{
    if k == e.len() {
        assert(e.take(k as int) =~= e);
    } else {
        law_load_next_line(e, k as int);
        assert(texts(e)[k as int] == e[k as int].1);
        lemma_load_all_in_order(e, ignore_errors, k + 1);
    }
}

/// Saving then loading restores the program: the lines that saving writes
/// (the texts of a listing's lines, in order), read back, load to the same
/// listing, with or without patch files allowed, since a saved line never
/// opens one.
pub proof fn law_saved_program_loads_back(e: Seq<Entry>, allow_patch: bool, ignore_errors: bool)
    requires
        sorted(e),
        well_stored(e),
    ensures
        load_all(seq![], texts(e), ignore_errors, 0) == Ok::<Seq<Entry>, (ErrorCode, Seq<char>)>(e),
        file_run(initial(allow_patch, ignore_errors), (texts(e), None)).2 == ActionView::Finish(
            Ok(e),
        ),
{
    lemma_load_all_in_order(e, ignore_errors, 0);
    assert(e.take(0) =~= Seq::<Entry>::empty());
    if 0 < texts(e).len() {
        assert(stored_line(e[0].0, e[0].1));
        assert(texts(e)[0] == e[0].1);
        assert(digit_run(e[0].1) > 0);
    }
    law_file_loads_as_its_lines((texts(e), None), allow_patch, ignore_errors);
}

/// A patch file gives back the first program it fetched, as patched: no
/// event changes the program kept aside, except that while none is kept a
/// fetch directive keeps the program in hand aside (or loading ends); and
/// the final save gives back the kept program, or the program in hand where
/// none was kept.
pub proof fn law_patch_returns_first_program(s: LoaderState, e: EventView)
    ensures
        ({
            let t = transition(s, e).0;
            t.phase == PhaseView::Done || t.first == s.first || (s.first.len() == 0 && t.first
                == s.listing)
        }),
        s.phase == PhaseView::SaveThenFinish ==> transition(s, EventView::Saved(Ok(()))).2
            == ActionView::Finish(
            Ok(
                if s.first.len() > 0 {
                    s.first
                } else {
                    s.listing
                },
            ),
        ),
{
}

/// Without patch mode a line prints nothing, and the loader only asks for
/// the next line or finishes.
pub proof fn law_plain_line_is_quiet(s: LoaderState, t: Seq<char>)
    requires
        !s.allow_patch,
        !s.patching,
    ensures
        transition(s, EventView::Line(t)).1.len() == 0,
        transition(s, EventView::Line(t)).2 is ReadLine || transition(
            s,
            EventView::Line(t),
        ).2 is Finish,
        !transition(s, EventView::Line(t)).0.patching,
{
}

/// In patch mode a comment line after the first is shown without its
/// mark, trimmed, and changes nothing but the line count.
pub proof fn law_comment_line(s: LoaderState, t: Seq<char>)
    requires
        s.patching,
        s.index > 0,
        t.len() > 0,
        t[0] == '\'',
    ensures
        transition(s, EventView::Line(t)) == (
            advance(s),
            seq![trimmed(t.drop_first())],
            ActionView::ReadLine,
        ),
{
    assert(LoaderState { patching: s.patching || (s.allow_patch && s.index == 0), ..s } == s);
}

/// Loads a program file line by line, as the caller feeds it.
pub struct PatchLoader {
    allow_patch: bool,
    ignore_errors: bool,
    patching: bool,
    first: Listing,
    listing: Listing,
    filename: String,
    index: usize,
    phase: Phase,
}

impl View for PatchLoader {
    type V = LoaderState;

    closed spec fn view(&self) -> LoaderState {
        LoaderState {
            allow_patch: self.allow_patch,
            ignore_errors: self.ignore_errors,
            patching: self.patching,
            first: self.first@,
            listing: self.listing@,
            filename: self.filename@,
            index: self.index as nat,
            phase: self.phase@,
        }
    }
}

fn text(s: &str) -> (r: String)
    ensures
        r@ == s@,
{
    String::from_str(s)
}

fn one_line(s: String) -> (v: Vec<String>)
    ensures
        string_views(v@) == seq![s@],
{
    let mut v = Vec::new();
    v.push(s);
    assert(string_views(v@) =~= seq![s@]);
    v
}

impl PatchLoader {
    /// A loader about to read the first line of a file. Where `allow_patch`
    /// holds, a first line in quotes makes the file a patch file; where
    /// `ignore_errors` holds, lines that do not load are passed over.
    pub fn new(allow_patch: bool, ignore_errors: bool) -> (l: PatchLoader)
        ensures
            l@ == initial(allow_patch, ignore_errors),
    {
        let l = PatchLoader {
            allow_patch,
            ignore_errors,
            patching: false,
            first: Listing::new(),
            listing: Listing::new(),
            filename: String::new(),
            index: 0,
            phase: Phase::Reading,
        };
        assert(l@.filename =~= Seq::<char>::empty());
        l
    }

    /// Whether the loader takes `e` now.
    pub fn expects(&self, e: &LoadEvent) -> (b: bool)
        ensures
            b == accepts(self@, e@),
    {
        match self.phase {
            Phase::Reading => match e {
                LoadEvent::Line(_) => self.index < usize::MAX,
                LoadEvent::End => true,
                LoadEvent::ReadFailed(_) => true,
                _ => false,
            },
            Phase::SaveThenFetch { .. } | Phase::SaveThenFinish => match e {
                LoadEvent::Saved(_) => true,
                _ => false,
            },
            Phase::NameProbe { .. } | Phase::FetchProbe { .. } => match e {
                LoadEvent::Probed(_) => self.index < usize::MAX,
                _ => false,
            },
            Phase::Fetching { .. } => match e {
                LoadEvent::Fetched(_) => self.index < usize::MAX,
                _ => false,
            },
            Phase::Done => false,
        }
    }

    /// Ends loading: hands out the first program fetched and the program in
    /// hand.
    fn finish(&mut self) -> (r: (Listing, Listing))
        ensures
            final(self)@ == finished(old(self)@),
            r.0@ == old(self)@.first,
            r.1@ == old(self)@.listing,
    {
        let mut first = Listing::new();
        let mut listing = Listing::new();
        std::mem::swap(&mut first, &mut self.first);
        std::mem::swap(&mut listing, &mut self.listing);
        self.phase = Phase::Done;
        (first, listing)
    }

    fn fail(&mut self, prints: Vec<String>, e: Error) -> (st: Step)
        ensures
            final(self)@ == finished(old(self)@),
            st@ == (string_views(prints@), ActionView::Finish(Err(e@))),
    {
        self.finish();
        Step { prints, action: LoadAction::Finish(Err(e)) }
    }

    fn after_save(&mut self, prints: Vec<String>, name: String, crc: String, url: String) -> (st:
        Step)
        ensures
            (final(self)@, st@.0, st@.1) == after_save(
                old(self)@,
                string_views(prints@),
                name@,
                crc@,
                url@,
            ),
    {
        if self.first.is_empty() {
            std::mem::swap(&mut self.first, &mut self.listing);
        }
        match quoted_name(name.as_str()) {
            Some(n) => {
                self.phase = Phase::FetchProbe { name: n.clone(), crc, url };
                Step { prints, action: LoadAction::Probe(n) }
            },
            None => {
                let e = Error {
                    code: ErrorCode::BadFileName,
                    detail: numbered_text("In line ", self.index, " of the patch file."),
                };
                self.fail(prints, e)
            },
        }
    }

    fn start_fetch(&mut self, prints: Vec<String>, name: String, crc: String, url: String) -> (st:
        Step)
        ensures
            (final(self)@, st@.0, st@.1) == start_fetch(
                old(self)@,
                string_views(prints@),
                name@,
                crc@,
                url@,
            ),
    {
        if self.filename.unicode_len() > 0 {
            let mut prints = prints;
            let ghost p0 = string_views(prints@);
            prints.push(concatenated("Saving to ", self.filename.as_str()));
            assert(string_views(prints@) =~= p0.push("Saving to "@ + self.filename@));
            match save_lines(&self.listing) {
                Err(e) => self.fail(prints, e),
                Ok(lines) => {
                    self.phase = Phase::SaveThenFetch { name, crc, url };
                    let filename = self.filename.clone();
                    Step { prints, action: LoadAction::Write { filename, lines } }
                },
            }
        } else {
            self.after_save(prints, name, crc, url)
        }
    }

    fn on_line(&mut self, t: String) -> (st: Step)
        requires
            old(self)@.phase == PhaseView::Reading,
            old(self)@.index < usize::MAX,
        ensures
            (final(self)@, st@.0, st@.1) == on_line(old(self)@, t@),
    {
        let i = self.index;
        let mut prints: Vec<String> = Vec::new();
        let quote = starts_with_char(t.as_str(), '"');
        let tick = starts_with_char(t.as_str(), '\'');
        if self.allow_patch && i == 0 && (quote || tick) {
            self.patching = true;
            prints.push(text("Patch mode.\n"));
        }
        let ghost p0 = string_views(prints@);
        assert(p0 =~= (if old(self)@.allow_patch && i == 0 && (quote || tick) {
            seq!["Patch mode.\n"@]
        } else {
            Seq::<Seq<char>>::empty()
        }));
        if self.patching && tick {
            let n = t.unicode_len();
            let comment = trim(t.as_str().substring_char(1, n));
            assert(t@.subrange(1, n as int) =~= t@.drop_first());
            prints.push(comment);
            assert(string_views(prints@) =~= p0.push(trimmed(t@.drop_first())));
            self.index = i + 1;
            return Step { prints, action: LoadAction::ReadLine };
        }
        if self.patching && quote {
            let words = split_ascii_words(t.as_str());
            assert(words@.len() == ascii_words(t@).len());
            if words.len() == 1 {
                assert(words@[0]@ == ascii_words(t@)[0]);
                match quoted_name(words[0].as_str()) {
                    Some(n) => {
                        self.phase = Phase::NameProbe { name: n.clone() };
                        return Step { prints, action: LoadAction::Probe(n) };
                    },
                    None => {
                        let e = Error {
                            code: ErrorCode::BadFileName,
                            detail: numbered_text("In line ", i, " of the patch file."),
                        };
                        return self.fail(prints, e);
                    },
                }
            } else if words.len() == 3 {
                assert(words@[0]@ == ascii_words(t@)[0]);
                assert(words@[1]@ == ascii_words(t@)[1]);
                assert(words@[2]@ == ascii_words(t@)[2]);
                let name = words[0].clone();
                let crc = words[1].clone();
                let url = words[2].clone();
                return self.start_fetch(prints, name, crc, url);
            } else {
                let e = Error {
                    code: ErrorCode::SyntaxError,
                    detail: numbered_text("Unable to parse info in line ", i, " of the patch file."),
                };
                return self.fail(prints, e);
            }
        }
        match self.listing.load_str(t.as_str()) {
            Ok(()) => {
                self.index = i + 1;
                Step { prints, action: LoadAction::ReadLine }
            },
            Err(e) => {
                if self.ignore_errors {
                    self.index = i + 1;
                    Step { prints, action: LoadAction::ReadLine }
                } else {
                    let detail = numbered_text("In line ", i, " of the file.");
                    let e = e.message(detail.as_str());
                    self.fail(prints, e)
                }
            },
        }
    }

    fn on_end(&mut self) -> (st: Step)
        ensures
            (final(self)@, st@.0, st@.1) == on_end(old(self)@),
    {
        if self.patching {
            let prints = one_line(concatenated("Saving to ", self.filename.as_str()));
            match save_lines(&self.listing) {
                Err(e) => self.fail(prints, e),
                Ok(lines) => {
                    self.phase = Phase::SaveThenFinish;
                    let filename = self.filename.clone();
                    Step { prints, action: LoadAction::Write { filename, lines } }
                },
            }
        } else {
            let (_first, listing) = self.finish();
            let st = Step { prints: Vec::new(), action: LoadAction::Finish(Ok(listing)) };
            assert(string_views(st.prints@) =~= Seq::<Seq<char>>::empty());
            st
        }
    }

    fn on_probed(&mut self, p: Probe) -> (st: Step)
        requires
            old(self)@.phase is NameProbe || old(self)@.phase is FetchProbe,
            old(self)@.index < usize::MAX,
        ensures
            (final(self)@, st@.0, st@.1) == on_probed(old(self)@, p@),
    {
        let mut phase = Phase::Done;
        std::mem::swap(&mut phase, &mut self.phase);
        let ghost empty = Seq::<Seq<char>>::empty();
        match p {
            Probe::Missing => match phase {
                Phase::FetchProbe { name, crc, url } => {
                    self.filename = name;
                    self.phase = Phase::Fetching { crc };
                    let prints = one_line(concatenated("Retrieving from ", url.as_str()));
                    Step { prints, action: LoadAction::Fetch(url) }
                },
                Phase::NameProbe { name } => {
                    self.filename = name;
                    self.phase = Phase::Reading;
                    self.index = self.index + 1;
                    let st = Step { prints: Vec::new(), action: LoadAction::ReadLine };
                    assert(string_views(st.prints@) =~= empty);
                    st
                },
                _ => {
                    assert(false);
                    Step { prints: Vec::new(), action: LoadAction::ReadLine }
                },
            },
            Probe::Exists => {
                let name = match phase {
                    Phase::NameProbe { name } => name,
                    Phase::FetchProbe { name, .. } => name,
                    _ => String::new(),
                };
                let prints = one_line(concatenated("Saving to ", name.as_str()));
                let e = Error {
                    code: ErrorCode::FileAlreadyExists,
                    detail: numbered_text("In line ", self.index, " of the patch file."),
                };
                self.fail(prints, e)
            },
            Probe::Failed(m) => {
                let st = self.fail(Vec::new(), Error { code: ErrorCode::InternalError, detail: m });
                assert(st@.0 =~= empty);
                st
            },
        }
    }

    fn on_fetched(&mut self, r: Result<Listing, Error>) -> (st: Step)
        requires
            old(self)@.phase is Fetching,
            old(self)@.index < usize::MAX,
        ensures
            (final(self)@, st@.0, st@.1) == on_fetched(
                old(self)@,
                match r {
                    Ok(l) => Ok(l@),
                    Err(e) => Err(e@),
                },
            ),
    {
        let ghost empty = Seq::<Seq<char>>::empty();
        let crc = match &self.phase {
            Phase::Fetching { crc } => crc.clone(),
            _ => String::new(),
        };
        match r {
            Err(e) => {
                let st = self.fail(Vec::new(), e);
                assert(st@.0 =~= empty);
                st
            },
            Ok(l) => {
                self.listing = l;
                match parse_hex_u32(crc.as_str()) {
                    Some(v) => {
                        let d = program_crc(&self.listing);
                        if d == v {
                            self.index = self.index + 1;
                            self.phase = Phase::Reading;
                            let st = Step { prints: Vec::new(), action: LoadAction::ReadLine };
                            assert(string_views(st.prints@) =~= empty);
                            st
                        } else {
                            let mut before = String::from_str("Expected CRC ");
                            before.append(hex8(v).as_str());
                            before.append(" got ");
                            before.append(hex8(d).as_str());
                            before.append(" in line ");
                            let detail = numbered_text(
                                before.as_str(),
                                self.index,
                                " of the patch file.",
                            );
                            let st = self.fail(
                                Vec::new(),
                                Error { code: ErrorCode::SyntaxError, detail },
                            );
                            assert(st@.0 =~= empty);
                            st
                        }
                    },
                    None => {
                        let detail = numbered_text(
                            "Unable to parse crc info in line ",
                            self.index,
                            " of the patch file.",
                        );
                        let st = self.fail(
                            Vec::new(),
                            Error { code: ErrorCode::SyntaxError, detail },
                        );
                        assert(st@.0 =~= empty);
                        st
                    },
                }
            },
        }
    }

    fn on_saved(&mut self, r: Result<(), Error>) -> (st: Step)
        requires
            old(self)@.phase is SaveThenFetch || old(self)@.phase is SaveThenFinish,
        ensures
            (final(self)@, st@.0, st@.1) == on_saved(
                old(self)@,
                match r {
                    Ok(()) => Ok(()),
                    Err(e) => Err(e@),
                },
            ),
    {
        match r {
            Err(e) => {
                let st = self.fail(Vec::new(), e);
                assert(st@.0 =~= Seq::<Seq<char>>::empty());
                st
            },
            Ok(()) => {
                let mut phase = Phase::Done;
                std::mem::swap(&mut phase, &mut self.phase);
                let prints = one_line(String::new());
                match phase {
                    Phase::SaveThenFetch { name, crc, url } => {
                        self.phase = Phase::Reading;
                        self.after_save(prints, name, crc, url)
                    },
                    _ => {
                        self.phase = phase;
                        let (first, listing) = self.finish();
                        let result = if !first.is_empty() {
                            first
                        } else {
                            listing
                        };
                        Step { prints, action: LoadAction::Finish(Ok(result)) }
                    },
                }
            },
        }
    }

    /// Whether the loader reads the file: it waits for a line or the end.
    pub fn is_reading(&self) -> (b: bool)
        ensures
            b == (self@.phase == PhaseView::Reading),
    {
        match self.phase {
            Phase::Reading => true,
            _ => false,
        }
    }

    /// Feeds the loader `file` from its current line on, while it asks for
    /// lines, then the end of the file or the failure that stopped the
    /// reading: gives all that it printed and the first request that is not
    /// for a line, as `file_run` says.
    pub fn read_file(&mut self, file: &FileText) -> (st: Step)
        requires
            old(self)@.phase == PhaseView::Reading,
        ensures
            (final(self)@, st@.0, st@.1) == file_run(old(self)@, file@),
            !(st@.1 is ReadLine),
    {
        let ghost whole = file_run(old(self)@, file@);
        proof {
            lemma_file_run_asks_more_than_a_line(old(self)@, file@);
        }
        let mut prints: Vec<String> = Vec::new();
        loop
            invariant
                whole == file_run(old(self)@, file@),
                self@.phase == PhaseView::Reading,
                file_run(self@, file@).0 == whole.0,
                string_views(prints@) + file_run(self@, file@).1 == whole.1,
                file_run(self@, file@).2 == whole.2,
                !(whole.2 is ReadLine),
            decreases file@.0.len() - self@.index,
        {
            let i = self.index;
            let ghost s0 = self@;
            let ev = if i < file.lines.len() {
                LoadEvent::Line(file.lines[i].clone())
            } else {
                match &file.failure {
                    Some(m) => LoadEvent::ReadFailed(m.clone()),
                    None => LoadEvent::End,
                }
            };
            assert(ev@ == file_event(file@, s0.index));
            let mut st = self.step(ev);
            let ghost p0 = string_views(prints@);
            let ghost p1 = string_views(st.prints@);
            prints.append(&mut st.prints);
            assert(string_views(prints@) =~= p0 + p1);
            let reads_on = match st.action {
                LoadAction::ReadLine => i < file.lines.len(),
                _ => false,
            };
            if reads_on {
                proof {
                    lemma_line_advances(s0, file@.0[i as int]);
                    assert(p0 + file_run(s0, file@).1 =~= string_views(prints@) + file_run(
                        self@,
                        file@,
                    ).1);
                }
            } else {
                proof {
                    assert(file_run(s0, file@) == (self@, p1, st.action@));
                    assert(string_views(prints@) =~= whole.1);
                }
                return Step { prints, action: st.action };
            }
        }
    }

    /// Takes event `e`: gives the lines to print and what to do next, as
    /// `transition` says.
    pub fn step(&mut self, e: LoadEvent) -> (st: Step)
        requires
            accepts(old(self)@, e@),
        ensures
            (final(self)@, st@.0, st@.1) == transition(old(self)@, e@),
    {
        match e {
            LoadEvent::Line(t) => self.on_line(t),
            LoadEvent::End => self.on_end(),
            LoadEvent::ReadFailed(m) => {
                let st = self.fail(Vec::new(), Error { code: ErrorCode::InternalError, detail: m });
                assert(st@.0 =~= Seq::<Seq<char>>::empty());
                st
            },
            LoadEvent::Saved(r) => self.on_saved(r),
            LoadEvent::Probed(p) => self.on_probed(p),
            LoadEvent::Fetched(r) => self.on_fetched(r),
        }
    }
}


/// The start of loading the program called `filename`: where it is read
/// from (over the network for a remote name, else from disk), and the
/// loader that its lines are fed to, fresh, with both flags as given.
pub fn start_load(filename: &str, allow_patch: bool, ignore_errors: bool) -> (r: (
    Source,
    PatchLoader,
))
    ensures
        match r.0 {
            Source::Remote(url) => is_remote(filename@) && url@ == remote_url(filename@),
            Source::Local => !is_remote(filename@),
        },
        r.1@ == initial(allow_patch, ignore_errors),
{
    (resolve_source(filename), PatchLoader::new(allow_patch, ignore_errors))
}

/// A directive's file name (of a one-part or a three-part directive) that
/// names a file that exists ends loading with `FileAlreadyExists`: the
/// loader finishes, so it asks for no fetch and no write afterwards and
/// takes no further event.
pub proof fn law_existing_file_is_never_overwritten(s: LoaderState)
    requires
        s.phase is NameProbe || s.phase is FetchProbe,
    ensures
        transition(s, EventView::Probed(ProbeView::Exists)).2 matches ActionView::Finish(Err(x))
            && x.0 == ErrorCode::FileAlreadyExists,
        transition(s, EventView::Probed(ProbeView::Exists)).0.phase == PhaseView::Done,
        forall|e: EventView|
            !#[trigger] accepts(transition(s, EventView::Probed(ProbeView::Exists)).0, e),
{
}

} // verus!
