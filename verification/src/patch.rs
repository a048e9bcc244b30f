//! Loading program files, and the patch files that fetch, check, patch and
//! save programs.
//!
//! A patch file starts with a line that begins with a quote. In it, lines
//! that begin with `'` are comments that are shown; lines that begin with
//! `"` are directives: `"NAME"` names the file that the program in hand is
//! saved to, and `"NAME" CRC URL` saves the program in hand, fetches the
//! program at `URL`, checks it against the CRC-32 in hexadecimal and makes it
//! the program in hand, to be saved to `NAME`. Other lines patch the program
//! in hand. At the end, the program in hand is saved.

use vstd::prelude::*;
use crate::error::{Error, ErrorCode};
use crate::listing::{Entry, Listing, sorted, texts, well_stored};
use crate::text::{decimal, decimal_string, trim, trimmed};

verus! {

/// The location of the patch collection that `//NAME` refers to.
pub open spec fn patch_base() -> Seq<char> {
    "https://raw.githubusercontent.com/rumbledethumps/rsbasic/master/patch/"@
}

/// Whether `p` is a prefix of `s`.
pub open spec fn has_prefix(s: Seq<char>, p: Seq<char>) -> bool {
    p.len() <= s.len() && s.take(p.len() as int) == p
}

/// A name that is fetched over the network rather than read from disk.
pub open spec fn is_remote(name: Seq<char>) -> bool {
    has_prefix(name, "http://"@) || has_prefix(name, "https://"@) || has_prefix(name, "//"@)
}

/// The address that a remote name is fetched from: `//NAME` from the patch
/// collection, any other as it is.
pub open spec fn remote_url(name: Seq<char>) -> Seq<char> {
    if has_prefix(name, "//"@) {
        patch_base() + name.skip(2)
    } else {
        name
    }
}

/// Where a program is loaded from.
pub enum Source {
    /// Over the network, from this address.
    Remote(String),
    /// From the file of that name.
    Local,
}

fn starts_with(s: &str, p: &str) -> (b: bool)
    ensures
        b == has_prefix(s@, p@),
{
    let n = s.unicode_len();
    let m = p.unicode_len();
    if m > n {
        return false;
    }
    let mut i: usize = 0;
    while i < m
        invariant
            n == s@.len(),
            m == p@.len(),
            m <= n,
            i <= m,
            forall|k: int| 0 <= k < i ==> s@[k] == p@[k],
        decreases m - i,
    {
        if s.get_char(i) != p.get_char(i) {
            assert(s@.take(m as int)[i as int] != p@[i as int]);
            return false;
        }
        i = i + 1;
    }
    assert(s@.take(m as int) =~= p@);
    true
}

/// Where the program called `filename` is loaded from.
pub fn resolve_source(filename: &str) -> (r: Source)
    ensures
        match r {
            Source::Remote(url) => is_remote(filename@) && url@ == remote_url(filename@),
            Source::Local => !is_remote(filename@),
        },
{
    if starts_with(filename, "http://") || starts_with(filename, "https://") || starts_with(
        filename,
        "//",
    ) {
        if starts_with(filename, "//") {
            let mut url = String::from_str(
                "https://raw.githubusercontent.com/rumbledethumps/rsbasic/master/patch/",
            );
            let n = filename.unicode_len();
            proof {
                reveal_strlit("//");
            }
            url.append(filename.substring_char(2, n));
            assert(filename@.subrange(2, n as int) =~= filename@.skip(2));
            Source::Remote(url)
        } else {
            Source::Remote(String::from_str(filename))
        }
    } else {
        Source::Local
    }
}

/// The error for a fetch that the server answered with status `code`.
pub fn status_error(code: u16) -> (e: Error)
    ensures
        e.code == ErrorCode::FileNotFound,
        e.detail@ == decimal(code as nat),
{
    Error { code: ErrorCode::FileNotFound, detail: decimal_string(code as u128) }
}

/// The error for a file that could not be opened: not found, or some other
/// failure, with the system's message.
pub fn open_error(not_found: bool, message: &str) -> (e: Error)
    ensures
        e.code == (if not_found {
            ErrorCode::FileNotFound
        } else {
            ErrorCode::InternalError
        }),
        e.detail@ == message@,
{
    if not_found {
        Error::new(ErrorCode::FileNotFound, message)
    } else {
        Error::new(ErrorCode::InternalError, message)
    }
}

/// The message of an attempt to save an empty program.
pub open spec fn nothing_to_save() -> Seq<char> {
    "NOTHING TO SAVE"@
}

/// What saving `listing` writes, one line of text per line of the program;
/// an empty program is not saved.
pub fn save_lines(listing: &Listing) -> (r: Result<Vec<String>, Error>)
    ensures
        match r {
            Ok(v) => listing@.len() > 0 && v@.map_values(|s: String| s@) == texts(listing@)
                && sorted(listing@) && well_stored(listing@),
            Err(e) => listing@.len() == 0 && e.code == ErrorCode::InternalError && e.detail@
                == nothing_to_save(),
        },
{
    if listing.is_empty() {
        Err(Error::new(ErrorCode::InternalError, "NOTHING TO SAVE"))
    } else {
        Ok(listing.lines())
    }
}

/// The file name that a patch directive gives in quotes, once trimmed: at
/// least one character between two double quotes.
pub open spec fn quoted(s: Seq<char>) -> Option<Seq<char>> {
    let t = trimmed(s);
    if t.len() >= 3 && t[0] == '"' && t.last() == '"' {
        Some(t.subrange(1, t.len() - 1))
    } else {
        None
    }
}

/// The name between the quotes of `s`.
pub fn quoted_name(s: &str) -> (r: Option<String>)
    ensures
        r matches Some(n) ==> quoted(s@) == Some(n@),
        r is None ==> quoted(s@) is None,
{
    let t = trim(s);
    let n = t.unicode_len();
    if n < 3 || t.get_char(0) != '"' || t.get_char(n - 1) != '"' {
        return None;
    }
    Some(String::from_str(t.as_str().substring_char(1, n - 1)))
}

/// `before`, the number of the line at `index` (counted from one), `after`.
pub open spec fn numbered(before: Seq<char>, index: nat, after: Seq<char>) -> Seq<char> {
    before + decimal(index + 1) + after
}

pub(crate) fn numbered_text(before: &str, index: usize, after: &str) -> (s: String)
    ensures
        s@ == numbered(before@, index as nat, after@),
{
    let mut s = String::from_str(before);
    let d = decimal_string(index as u128 + 1);
    s.append(d.as_str());
    s.append(after);
    s
}

/// The bytes of the UTF-8 encodings of `lines`, one after the other.
pub open spec fn joined_bytes(lines: Seq<Seq<char>>) -> Seq<u8>
    decreases lines.len(),
{
    if lines.len() == 0 {
        seq![]
    } else {
        joined_bytes(lines.drop_last()) + vstd::utf8::encode_utf8(lines.last())
    }
}

/// The CRC-32/ISO-HDLC checksum of `data`, as the `crc` crate computes it.
pub uninterp spec fn crc32_iso_hdlc(data: Seq<u8>) -> u32;

/// `crc::Crc::<u32>::new(&crc::CRC_32_ISO_HDLC).checksum(data)`. The crate's
/// source folds the table update over the bytes from the algorithm's initial
/// value, so the checksum of the bytes of several lines read one after the
/// other is that of their concatenation; the value itself is left as the name
/// `crc32_iso_hdlc`.
#[verifier::external_body]
fn crc32_checksum(data: &[u8]) -> (c: u32)
    ensures
        c == crc32_iso_hdlc(data@),
{
    crc::Crc::<u32>::new(&crc::CRC_32_ISO_HDLC).checksum(data)
}

/// The checksum of a program: the CRC-32 of the texts of its lines, one
/// after the other, without line ends.
pub open spec fn listing_crc(e: Seq<Entry>) -> u32 {
    crc32_iso_hdlc(joined_bytes(texts(e)))
}

/// The checksum that a patch directive checks a fetched program against.
pub fn program_crc(listing: &Listing) -> (c: u32)
    ensures
        c == listing_crc(listing@),
{
    let lines = listing.lines();
    let ghost ts = lines@.map_values(|s: String| s@);
    let mut bytes: Vec<u8> = Vec::new();
    let mut i: usize = 0;
    assert(ts.take(0) =~= Seq::<Seq<char>>::empty());
    while i < lines.len()
        invariant
            i <= lines@.len(),
            ts == lines@.map_values(|s: String| s@),
            bytes@ == joined_bytes(ts.take(i as int)),
        decreases lines@.len() - i,
    {
        let mut more = lines[i].as_str().as_bytes_vec();
        assert(ts.take(i + 1).drop_last() =~= ts.take(i as int));
        bytes.append(&mut more);
        i = i + 1;
    }
    assert(ts.take(lines@.len() as int) =~= ts);
    crc32_checksum(bytes.as_slice())
}

} // verus!
