//! Diagnostics: the failures that the front end can report, and the one
//! line of text that each of them is reported as.

use colored::Colorize;
use vstd::prelude::*;
use vstd::string::StringExecFns;

use crate::text::{decimal, push_decimal};

verus! {

/// The kinds of failure that Courier reports.
#[derive(Clone, Copy, Debug, PartialEq, Eq, Structural)]
pub enum CourierErrorType {
    /// The source file could not be opened or read.
    FileError,
    /// The source text holds a character that no token can begin with.
    UnknownSymbol,
}

/// One failure, ready to be reported.
///
/// A `line_num` of zero says that the failure belongs to no place in a
/// source text; `col_num` then has no meaning and is not reported.
#[derive(Debug, PartialEq, Eq)]
pub struct CourierError {
    pub err_type: CourierErrorType,
    pub line_num: u32,
    pub col_num: u32,
    pub msg: String,
}

/// What a `CourierError` says: the mathematical value behind it.
pub struct Diagnostic {
    pub kind: CourierErrorType,
    pub line: nat,
    pub column: nat,
    pub message: Seq<char>,
}

impl View for CourierError {
    type V = Diagnostic;

    open spec fn view(&self) -> Diagnostic {
        Diagnostic {
            kind: self.err_type,
            line: self.line_num as nat,
            column: self.col_num as nat,
            message: self.msg@,
        }
    }
}

impl Clone for CourierError {
    /// A failure that says the same.
    fn clone(&self) -> (copy: CourierError)
        ensures
            copy@ == self@,
    {
        CourierError {
            err_type: self.err_type,
            line_num: self.line_num,
            col_num: self.col_num,
            msg: self.msg.clone(),
        }
    }
}

/// The label under which a kind of failure is reported.
pub open spec fn err_type_label(kind: CourierErrorType) -> Seq<char> {
    match kind {
        CourierErrorType::FileError => "File Error"@,
        CourierErrorType::UnknownSymbol => "Unknown Symbol"@,
    }
}

/// The message of a failure to open or read the file at `path`, where the
/// system described the failure as `description`.
pub open spec fn file_error_message(path: Seq<char>, description: Seq<char>) -> Seq<char> {
    "Failed to open file '"@ + path + "' ("@ + description + ")"@
}

/// The message of a failure on the character `c`.
pub open spec fn unknown_symbol_message(c: char) -> Seq<char> {
    "Unrecognized character '"@.push(c) + "'"@
}

impl Diagnostic {
    /// The failure to open or read the file at `path`. It belongs to no
    /// place in a source text.
    pub open spec fn file_error(path: Seq<char>, description: Seq<char>) -> Diagnostic {
        Diagnostic {
            kind: CourierErrorType::FileError,
            line: 0,
            column: 0,
            message: file_error_message(path, description),
        }
    }

    /// The failure on the character `c`, found at `line` and `column`.
    pub open spec fn unknown_symbol(line: nat, column: nat, c: char) -> Diagnostic {
        Diagnostic {
            kind: CourierErrorType::UnknownSymbol,
            line,
            column,
            message: unknown_symbol_message(c),
        }
    }

    /// The place of the failure, as it is reported: `[line:column] `, or
    /// nothing where the failure has no place.
    pub open spec fn position_segment(self) -> Seq<char> {
        if self.line != 0 {
            "["@ + decimal(self.line) + ":"@ + decimal(self.column) + "] "@
        } else {
            Seq::empty()
        }
    }

    /// The message of the failure, as it is reported: `: ` and the
    /// message, or nothing where the message is empty.
    pub open spec fn message_segment(self) -> Seq<char> {
        if self.message.len() != 0 {
            ": "@ + self.message
        } else {
            Seq::empty()
        }
    }

    /// The line of text that reports the failure, after the given tag.
    pub open spec fn rendering(self, tag: Seq<char>) -> Seq<char> {
        tag + " "@ + self.position_segment() + err_type_label(self.kind) + self.message_segment()
            + "\n"@
    }
}

/// The escape sequence that turns the terminal's text red.
pub open spec fn red_on() -> Seq<char> {
    seq!['\u{1b}', '[', '3', '1', 'm']
}

/// The escape sequence that turns the terminal's text back to normal.
pub open spec fn style_off() -> Seq<char> {
    seq!['\u{1b}', '[', '0', 'm']
}

/// `text` as a terminal shows it in red.
pub open spec fn red(text: Seq<char>) -> Seq<char> {
    red_on() + text + style_off()
}

/// The word that every report begins with.
pub open spec fn report_tag() -> Seq<char> {
    "Error"@
}

/// Calls `colored::Colorize::red` on `text` and writes the result out with
/// its `Display`. Whether `colored` styles at all depends on the terminal
/// and on the variables that the process was started with, so the
/// contract allows both outcomes: the text as it is, or the text between
/// the escape sequences for red and for the normal style. A text that
/// holds an escape character is left out, because `colored` rewrites the
/// style resets that it finds inside.
#[verifier::external_body]
fn paint_red(text: &str) -> (styled: String)
    requires
        !text@.contains('\u{1b}'),
    ensures
        styled@ == text@ || styled@ == red(text@),
{
    text.red().to_string()
}

/// The label under which a kind of failure is reported.
pub fn get_err_type_string(err_type: &CourierErrorType) -> (label: &'static str)
    ensures
        label@ == err_type_label(*err_type),
{
    match err_type {
        CourierErrorType::FileError => "File Error",
        CourierErrorType::UnknownSymbol => "Unknown Symbol",
    }
}

impl CourierError {
    /// The failure to open or read the file at `path`, which the system
    /// described as `description`.
    pub fn file_error(path: &str, description: &str) -> (error: CourierError)
        ensures
            error@ == Diagnostic::file_error(path@, description@),
    {
        let mut msg = String::new();
        msg.append("Failed to open file '");
        msg.append(path);
        msg.append("' (");
        msg.append(description);
        msg.append(")");
        CourierError { err_type: CourierErrorType::FileError, line_num: 0, col_num: 0, msg }
    }

    /// The failure on the character `c`, found at `line_num` and `col_num`.
    pub fn unknown_symbol(line_num: u32, col_num: u32, c: char) -> (error: CourierError)
        ensures
            error@ == Diagnostic::unknown_symbol(line_num as nat, col_num as nat, c),
    {
        let mut msg = String::new();
        msg.append("Unrecognized character '");
        msg.push(c);
        msg.append("'");
        CourierError { err_type: CourierErrorType::UnknownSymbol, line_num, col_num, msg }
    }

    /// The line of text that reports this failure, after the given tag:
    /// the tag and a space; the place in square brackets, unless the line
    /// is zero; the label of the kind; a colon and the message, unless the
    /// message is empty; and a newline.
    pub fn render(&self, tag: &str) -> (line: String)
        ensures
            line@ == self@.rendering(tag@),
    {
        let mut line = String::new();
        line.append(tag);
        line.append(" ");
        if self.line_num != 0 {
            line.append("[");
            push_decimal(&mut line, self.line_num);
            line.append(":");
            push_decimal(&mut line, self.col_num);
            line.append("] ");
        }
        line.append(get_err_type_string(&self.err_type));
        if !self.msg.as_str().is_empty() {
            line.append(": ");
            line.append(self.msg.as_str());
        }
        assert(line@ =~= tag@ + " "@ + self@.position_segment() + err_type_label(self@.kind)
            + self@.message_segment());
        line.append("\n");
        line
    }

    /// The line of text that reports this failure on a terminal: the
    /// rendering after the word `Error`, which is red where the terminal
    /// of the process takes colours. The caller writes the line to the
    /// error stream.
    pub fn report(&self) -> (line: String)
        ensures
            line@ == self@.rendering(report_tag()) || line@ == self@.rendering(red(report_tag())),
    {
        proof {
            reveal_strlit("Error");
        }
        let tag = paint_red("Error");
        self.render(tag.as_str())
    }
}

/// A failure without a place is reported without one: the label of its
/// kind follows the tag directly.
pub proof fn lemma_rendering_without_position(d: Diagnostic, tag: Seq<char>)
    requires
        d.line == 0,
    ensures
        d.position_segment() == Seq::<char>::empty(),
        d.rendering(tag) == tag + " "@ + err_type_label(d.kind) + d.message_segment() + "\n"@,
{
}

/// A failure without a message is reported without one: the report ends
/// with the label of its kind and a newline, and no colon follows the
/// label.
pub proof fn lemma_rendering_without_message(d: Diagnostic, tag: Seq<char>)
    requires
        d.message.len() == 0,
    ensures
        d.message_segment() == Seq::<char>::empty(),
        d.rendering(tag) == tag + " "@ + d.position_segment() + err_type_label(d.kind) + "\n"@,
{
}

/// The message of a file failure holds the path, whole and unchanged,
/// right after its opening words.
pub proof fn lemma_file_error_names_the_path(path: Seq<char>, description: Seq<char>)
    ensures
        Diagnostic::file_error(path, description).kind == CourierErrorType::FileError,
        Diagnostic::file_error(path, description).line == 0,
        Diagnostic::file_error(path, description).position_segment() == Seq::<char>::empty(),
        ({
            let message = Diagnostic::file_error(path, description).message;
            let start = "Failed to open file '"@.len() as int;
            &&& start + path.len() <= message.len()
            &&& message.subrange(start, start + path.len()) == path
        }),
{
}

} // verus!
