use rsbasic::error::{Error, ErrorCode};
use rsbasic::listing::Listing;
use rsbasic::loader::{start_load, FileText, LoadAction, LoadEvent, PatchLoader, Probe};
use rsbasic::patch::Source;
use std::collections::HashMap;

struct World {
    existing: Vec<String>,
    remote: HashMap<String, Vec<String>>,
    prints: Vec<String>,
    writes: Vec<(String, Vec<String>)>,
}

fn crc_of(lines: &[&str]) -> String {
    let crc = crc::Crc::<u32>::new(&crc::CRC_32_ISO_HDLC);
    let mut d = crc.digest();
    for l in lines {
        d.update(l.as_bytes());
    }
    format!("{:x}", d.finalize())
}

fn run(w: &mut World, lines: &[String], allow_patch: bool, ignore: bool) -> Result<Listing, Error> {
    let file = FileText { lines: lines.to_vec(), failure: None };
    run_file(w, PatchLoader::new(allow_patch, ignore), &file)
}

fn run_file(w: &mut World, mut loader: PatchLoader, file: &FileText) -> Result<Listing, Error> {
    let mut step = loader.read_file(file);
    loop {
        w.prints.extend(step.prints);
        let event = match step.action {
            LoadAction::ReadLine => {
                assert!(loader.is_reading());
                step = loader.read_file(file);
                continue;
            }
            LoadAction::Write { filename, lines } => {
                w.existing.push(filename.clone());
                w.writes.push((filename, lines));
                LoadEvent::Saved(Ok(()))
            }
            LoadAction::Probe(name) => {
                let p = if w.existing.contains(&name) { Probe::Exists } else { Probe::Missing };
                LoadEvent::Probed(p)
            }
            LoadAction::Fetch(url) => {
                let r = match w.remote.get(&url).cloned() {
                    Some(body) => run(w, &body, false, true),
                    None => Err(rsbasic::patch::status_error(404)),
                };
                LoadEvent::Fetched(r)
            }
            LoadAction::Finish(r) => return r,
        };
        assert!(loader.expects(&event));
        step = loader.step(event);
    }
}

fn world() -> World {
    World { existing: vec![], remote: HashMap::new(), prints: vec![], writes: vec![] }
}

fn strings(v: &[&str]) -> Vec<String> {
    v.iter().map(|s| s.to_string()).collect()
}

#[test]
fn a_plain_file_loads_its_lines() {
    let mut w = world();
    let l = run(&mut w, &strings(&["20 END", "10 PRINT 1", "", "15 REM"]), true, false).unwrap();
    assert_eq!(l.lines(), vec!["10 PRINT 1", "15 REM", "20 END"]);
    assert!(w.prints.is_empty());
    assert!(w.writes.is_empty());
}

#[test]
fn a_bad_line_stops_loading_with_its_number() {
    let mut w = world();
    let e = run(&mut w, &strings(&["10 A", "PRINT", "20 B"]), true, false).unwrap_err();
    assert_eq!(e.code, ErrorCode::DirectStatementInFile);
    assert_eq!(e.detail, "In line 2 of the file.");
    assert_eq!(e.describe(), "?DIRECT STATEMENT IN FILE; In line 2 of the file.");
}

#[test]
fn bad_lines_are_passed_over_when_errors_are_ignored() {
    let mut w = world();
    let l = run(&mut w, &strings(&["10 A", "PRINT", "20 B"]), true, true).unwrap();
    assert_eq!(l.lines(), vec!["10 A", "20 B"]);
}

#[test]
fn without_patch_mode_a_quoted_line_is_program_text() {
    let mut w = world();
    let e = run(&mut w, &strings(&["\"a.bas\""]), false, false).unwrap_err();
    assert_eq!(e.code, ErrorCode::DirectStatementInFile);
    assert!(w.prints.is_empty());
}

#[test]
fn a_patch_file_fetches_checks_patches_and_saves() {
    let mut w = world();
    let game = ["10 PRINT \"GAME\"", "20 END"];
    let other = ["10 PRINT \"OTHER\""];
    w.remote.insert("http://x/game".into(), strings(&game));
    w.remote.insert("http://x/other".into(), strings(&other));
    let patch = vec![
        "' Patch for the game".to_string(),
        format!("\"game.bas\" {} http://x/game", crc_of(&game)),
        "15 PRINT \"PATCHED\"".to_string(),
        format!("\"other.bas\"  {}  http://x/other", crc_of(&other).to_uppercase()),
    ];
    let l = run(&mut w, &patch, true, false).unwrap();
    assert_eq!(l.lines(), vec!["10 PRINT \"GAME\"", "15 PRINT \"PATCHED\"", "20 END"]);
    assert_eq!(
        w.prints,
        vec![
            "Patch mode.\n",
            "Patch for the game",
            "Retrieving from http://x/game",
            "Saving to game.bas",
            "",
            "Retrieving from http://x/other",
            "Saving to other.bas",
            "",
        ]
    );
    assert_eq!(
        w.writes,
        vec![
            ("game.bas".to_string(), strings(&["10 PRINT \"GAME\"", "15 PRINT \"PATCHED\"", "20 END"])),
            ("other.bas".to_string(), strings(&other)),
        ]
    );
}

#[test]
fn a_named_patch_saves_its_own_lines() {
    let mut w = world();
    let l = run(&mut w, &strings(&["\"mine.bas\"", "10 PRINT 1"]), true, false).unwrap();
    assert_eq!(l.lines(), vec!["10 PRINT 1"]);
    assert_eq!(w.writes, vec![("mine.bas".to_string(), strings(&["10 PRINT 1"]))]);
    assert_eq!(w.prints, vec!["Patch mode.\n", "Saving to mine.bas", ""]);
}

#[test]
fn a_checksum_mismatch_is_reported() {
    let mut w = world();
    let game = ["10 PRINT \"GAME\""];
    w.remote.insert("http://x/game".into(), strings(&game));
    let patch = strings(&["' x", "\"game.bas\" 1 http://x/game"]);
    let e = run(&mut w, &patch, true, false).unwrap_err();
    assert_eq!(e.code, ErrorCode::SyntaxError);
    let got = u32::from_str_radix(&crc_of(&game), 16).unwrap();
    assert_eq!(
        e.detail,
        format!("Expected CRC 00000001 got {:08X} in line 2 of the patch file.", got)
    );
}

#[test]
fn a_checksum_that_is_no_number_is_reported() {
    let mut w = world();
    w.remote.insert("http://x/game".into(), strings(&["10 A"]));
    let e = run(&mut w, &strings(&["' x", "\"game.bas\" xyz http://x/game"]), true, false).unwrap_err();
    assert_eq!(e.code, ErrorCode::SyntaxError);
    assert_eq!(e.detail, "Unable to parse crc info in line 2 of the patch file.");
}

#[test]
fn an_existing_file_is_not_overwritten() {
    let mut w = world();
    w.existing.push("game.bas".into());
    let e = run(&mut w, &strings(&["\"game.bas\""]), true, false).unwrap_err();
    assert_eq!(e.code, ErrorCode::FileAlreadyExists);
    assert_eq!(e.detail, "In line 1 of the patch file.");
    assert_eq!(w.prints, vec!["Patch mode.\n", "Saving to game.bas"]);
}

#[test]
fn a_directive_must_have_one_or_three_parts() {
    let mut w = world();
    let e = run(&mut w, &strings(&["' x", "\"a.bas\" 12"]), true, false).unwrap_err();
    assert_eq!(e.code, ErrorCode::SyntaxError);
    assert_eq!(e.detail, "Unable to parse info in line 2 of the patch file.");
}

#[test]
fn a_directive_needs_a_quoted_name() {
    let mut w = world();
    let e = run(&mut w, &strings(&["' x", "\"\" 12 http://x/y"]), true, false).unwrap_err();
    assert_eq!(e.code, ErrorCode::BadFileName);
    assert_eq!(e.detail, "In line 2 of the patch file.");
}

#[test]
fn a_failed_fetch_ends_loading() {
    let mut w = world();
    let e = run(&mut w, &strings(&["\"a.bas\" 0 http://nowhere"]), true, false).unwrap_err();
    assert_eq!(e.code, ErrorCode::FileNotFound);
    assert_eq!(e.detail, "404");
}

#[test]
fn an_empty_patched_program_is_not_saved() {
    let mut w = world();
    let e = run(&mut w, &strings(&["' nothing"]), true, false).unwrap_err();
    assert_eq!(e.code, ErrorCode::InternalError);
    assert_eq!(e.detail, "NOTHING TO SAVE");
}

#[test]
fn read_and_save_failures_end_loading() {
    let mut loader = PatchLoader::new(true, false);
    let st = loader.step(LoadEvent::ReadFailed("broken pipe".into()));
    match st.action {
        LoadAction::Finish(Err(e)) => {
            assert_eq!(e.code, ErrorCode::InternalError);
            assert_eq!(e.detail, "broken pipe");
        }
        _ => panic!("expected the end"),
    }
    let mut loader = PatchLoader::new(true, false);
    loader.step(LoadEvent::Line("\"a.bas\"".into()));
    loader.step(LoadEvent::Probed(Probe::Missing));
    loader.step(LoadEvent::Line("10 A".into()));
    let st = loader.step(LoadEvent::End);
    assert!(matches!(st.action, LoadAction::Write { .. }));
    let st = loader.step(LoadEvent::Saved(Err(Error::new(ErrorCode::InternalError, "disk full"))));
    match st.action {
        LoadAction::Finish(Err(e)) => assert_eq!(e.detail, "disk full"),
        _ => panic!("expected the end"),
    }
    assert!(!loader.expects(&LoadEvent::End));
}

#[test]
fn a_failed_probe_ends_loading() {
    let mut loader = PatchLoader::new(true, false);
    loader.step(LoadEvent::Line("\"a.bas\"".into()));
    let st = loader.step(LoadEvent::Probed(Probe::Failed("denied".into())));
    match st.action {
        LoadAction::Finish(Err(e)) => {
            assert_eq!(e.code, ErrorCode::InternalError);
            assert_eq!(e.detail, "denied");
        }
        _ => panic!("expected the end"),
    }
}

#[test]
fn a_saved_program_loads_back() {
    let mut l = Listing::new();
    for line in ["30 END", "10 PRINT \"HI\"", "  20 GOTO 10  ", "25 REM", "25"] {
        l.load_str(line).unwrap();
    }
    let saved = rsbasic::patch::save_lines(&l).unwrap();
    let mut w = world();
    let back = run(&mut w, &saved, false, false).unwrap();
    assert_eq!(back.lines(), l.lines());
    assert!(w.prints.is_empty());
}

#[test]
fn reading_a_file_asks_for_no_line_and_stops_at_outside_work() {
    let mut loader = PatchLoader::new(true, false);
    let file = FileText { lines: strings(&["\"a.bas\"", "10 PRINT"]), failure: None };
    let step = loader.read_file(&file);
    assert!(step.prints.iter().any(|p| p == "Patch mode.\n"));
    assert!(matches!(step.action, LoadAction::Probe(ref n) if n == "a.bas"));
    assert!(!loader.is_reading());
    let step = loader.step(LoadEvent::Probed(Probe::Missing));
    assert!(matches!(step.action, LoadAction::ReadLine));
    assert!(loader.is_reading());
    let step = loader.read_file(&file);
    assert_eq!(step.prints, vec!["Saving to a.bas"]);
    match step.action {
        LoadAction::Write { filename, lines } => {
            assert_eq!(filename, "a.bas");
            assert_eq!(lines, vec!["10 PRINT"]);
        }
        _ => panic!("expected the save"),
    }
}

#[test]
fn a_read_failure_ends_loading_after_the_lines_before_it() {
    let mut w = world();
    let file = FileText {
        lines: strings(&["10 A", "20 B"]),
        failure: Some("stream did not contain valid UTF-8".into()),
    };
    let e = run_file(&mut w, PatchLoader::new(false, false), &file).unwrap_err();
    assert_eq!(e.code, ErrorCode::InternalError);
    assert_eq!(e.detail, "stream did not contain valid UTF-8");
}

#[test]
fn a_bad_line_comes_before_a_later_read_failure() {
    let mut w = world();
    let file = FileText { lines: strings(&["10 A", "PRINT"]), failure: Some("broken".into()) };
    let e = run_file(&mut w, PatchLoader::new(false, false), &file).unwrap_err();
    assert_eq!(e.code, ErrorCode::DirectStatementInFile);
    assert_eq!(e.detail, "In line 2 of the file.");
}

#[test]
fn loading_a_local_file_passes_both_flags_on() {
    let file = FileText { lines: strings(&["' A NOTE", "10 A", "PRINT"]), failure: None };
    let (source, loader) = start_load("game.bas", true, true);
    assert!(matches!(source, Source::Local));
    let mut w = world();
    let l = run_file(&mut w, loader, &file).unwrap();
    assert_eq!(l.lines(), vec!["10 A"]);
    assert_eq!(w.prints, vec!["Patch mode.\n", "A NOTE", "Saving to ", ""]);
    let (source, loader) = start_load("game.bas", false, true);
    assert!(matches!(source, Source::Local));
    let mut w = world();
    let plain = FileText { lines: strings(&["10 A", "PRINT", "20 B"]), failure: None };
    let l = run_file(&mut w, loader, &plain).unwrap();
    assert_eq!(l.lines(), vec!["10 A", "20 B"]);
    let (source, _loader) = start_load("//game.bas", false, false);
    match source {
        Source::Remote(url) => assert_eq!(
            url,
            "https://raw.githubusercontent.com/rumbledethumps/rsbasic/master/patch/game.bas"
        ),
        Source::Local => panic!("expected a remote source"),
    }
}
