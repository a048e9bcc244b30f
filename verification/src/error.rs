//! The errors that the terminal front end reports.

use vstd::prelude::*;

verus! {

/// The kinds of error that loading, saving and patching report, and
/// `Reported`: an error that the BASIC machine reports in its own words,
/// which the detail holds whole.
#[derive(Clone, Copy, Debug, PartialEq, Eq, Structural)]
pub enum ErrorCode {
    InternalError,
    BadFileName,
    FileAlreadyExists,
    FileNotFound,
    SyntaxError,
    DirectStatementInFile,
    Reported,
}

/// An error: its kind and a detail that says where or why.
#[derive(Debug)]
pub struct Error {
    pub code: ErrorCode,
    pub detail: String,
}

impl View for Error {
    type V = (ErrorCode, Seq<char>);

    open spec fn view(&self) -> (ErrorCode, Seq<char>) {
        (self.code, self.detail@)
    }
}

/// The name under which an error kind is shown (a reported error has none of
/// its own).
pub open spec fn code_name(code: ErrorCode) -> Seq<char> {
    match code {
        ErrorCode::InternalError => "INTERNAL ERROR"@,
        ErrorCode::BadFileName => "BAD FILE NAME"@,
        ErrorCode::FileAlreadyExists => "FILE ALREADY EXISTS"@,
        ErrorCode::FileNotFound => "FILE NOT FOUND"@,
        ErrorCode::SyntaxError => "SYNTAX ERROR"@,
        ErrorCode::DirectStatementInFile => "DIRECT STATEMENT IN FILE"@,
        ErrorCode::Reported => seq![],
    }
}

/// How an error is shown: `?`, its kind's name, and `; ` with the detail if
/// there is one; an error that the machine reported, by its own text.
pub open spec fn error_text(code: ErrorCode, detail: Seq<char>) -> Seq<char> {
    if code == ErrorCode::Reported {
        detail
    } else if detail.len() == 0 {
        "?"@ + code_name(code)
    } else {
        "?"@ + code_name(code) + "; "@ + detail
    }
}

/// The escape sequence that turns bold on.
pub open spec fn bold_on() -> Seq<char> {
    seq!['\u{1b}', '[', '1', 'm']
}

/// The escape sequence that resets all styles.
pub open spec fn style_reset() -> Seq<char> {
    seq!['\u{1b}', '[', '0', 'm']
}

/// `text` painted bold by `nu_ansi_term::Style::new().bold().paint(text)`,
/// written out. Its source writes the style's prefix (`ESC [`, the code `1`
/// of bold, `m`), the text, then the reset `ESC [0m` that follows any style
/// that is not plain.
#[verifier::external_body]
fn paint_bold(text: &str) -> (s: String)
    ensures
        s@ == bold_on() + text@ + style_reset(),
{
    format!("{}", nu_ansi_term::Style::new().bold().paint(text))
}

/// How an error is shown on the terminal: its text, in bold.
pub open spec fn shown_text(code: ErrorCode, detail: Seq<char>) -> Seq<char> {
    bold_on() + error_text(code, detail) + style_reset()
}

impl Error {
    /// An error of kind `code` with the given detail.
    pub fn new(code: ErrorCode, detail: &str) -> (e: Error)
        ensures
            e.code == code,
            e.detail@ == detail@,
    {
        Error { code, detail: String::from_str(detail) }
    }

    /// The same kind of error, with `detail` in place of its detail.
    pub fn message(self, detail: &str) -> (e: Error)
        ensures
            e.code == self.code,
            e.detail@ == detail@,
    {
        Error { code: self.code, detail: String::from_str(detail) }
    }

    /// The text under which the error is shown.
    pub fn describe(&self) -> (s: String)
        ensures
            s@ == error_text(self.code, self.detail@),
    {
        if self.code == ErrorCode::Reported {
            return self.detail.clone();
        }
        let name = match self.code {
            ErrorCode::InternalError => "INTERNAL ERROR",
            ErrorCode::BadFileName => "BAD FILE NAME",
            ErrorCode::FileAlreadyExists => "FILE ALREADY EXISTS",
            ErrorCode::FileNotFound => "FILE NOT FOUND",
            ErrorCode::SyntaxError => "SYNTAX ERROR",
            ErrorCode::DirectStatementInFile => "DIRECT STATEMENT IN FILE",
            ErrorCode::Reported => "",
        };
        let mut s = String::from_str("?");
        s.append(name);
        if self.detail.unicode_len() > 0 {
            s.append("; ");
            s.append(self.detail.as_str());
        }
        s
    }

    /// The text under which the error is shown on the terminal, in bold.
    pub fn shown(&self) -> (s: String)
        ensures
            s@ == shown_text(self.code, self.detail@),
    {
        paint_bold(self.describe().as_str())
    }
}

} // verus!
