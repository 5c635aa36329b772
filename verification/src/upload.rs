//! The decisions of the upload form of the server: which form fields to
//! read, which of their contents to keep, and what to answer once the form
//! is read. The server reads the fields and runs the analysis.
use vstd::prelude::*;
use crate::text::{chars_of, push_str};

verus! {

/// Whether two strings hold the same characters.
pub fn str_eq(a: &str, b: &str) -> (r: bool)
    ensures
        r == (a@ == b@),
{
    let va = chars_of(a);
    let vb = chars_of(b);
    if va.len() != vb.len() {
        return false;
    }
    let mut i: usize = 0;
    while i < va.len()
        invariant
            va@ == a@,
            vb@ == b@,
            va@.len() == vb@.len(),
            i <= va@.len(),
            forall|j: int| 0 <= j < i ==> va@[j] == vb@[j],
        decreases va.len() - i,
    {
        if va[i] != vb[i] {
            return false;
        }
        i = i + 1;
    }
    assert(a@ =~= b@);
    true
}

/// Whether `s` ends with `suffix`.
pub fn str_ends_with(s: &str, suffix: &str) -> (r: bool)
    ensures
        r == (suffix@.len() <= s@.len() && s@.subrange(s@.len() - suffix@.len(), s@.len() as int) == suffix@),
{
    let vs = chars_of(s);
    let vx = chars_of(suffix);
    if vx.len() > vs.len() {
        return false;
    }
    let off = vs.len() - vx.len();
    let mut i: usize = 0;
    while i < vx.len()
        invariant
            vs@ == s@,
            vx@ == suffix@,
            vx@.len() <= vs@.len(),
            vs@.len() <= usize::MAX,
            off == vs@.len() - vx@.len(),
            i <= vx@.len(),
            forall|j: int| 0 <= j < i ==> vs@[off + j] == vx@[j],
        decreases vx.len() - i,
    {
        if vs[off + i] != vx[i] {
            assert(s@.subrange(s@.len() - suffix@.len(), s@.len() as int)[i as int] != suffix@[i as int]);
            return false;
        }
        i = i + 1;
    }
    assert(s@.subrange(s@.len() - suffix@.len(), s@.len() as int) =~= suffix@);
    true
}

/// A field of the upload form, by name.
#[derive(Clone, Copy, Debug, PartialEq, Eq, Structural)]
pub enum UploadField {
    InputMethod,
    BorrowChecker,
    Code,
    File,
    Other,
}

/// The field that a name denotes.
pub open spec fn field_of_name(name: Seq<char>) -> UploadField {
    if name == "input-method"@ {
        UploadField::InputMethod
    } else if name == "borrow-checker"@ {
        UploadField::BorrowChecker
    } else if name == "code"@ {
        UploadField::Code
    } else if name == "file"@ {
        UploadField::File
    } else {
        UploadField::Other
    }
}

/// The field that a name denotes.
pub fn classify_field(name: &str) -> (f: UploadField)
    ensures
        f == field_of_name(name@),
{
    if str_eq(name, "input-method") {
        UploadField::InputMethod
    } else if str_eq(name, "borrow-checker") {
        UploadField::BorrowChecker
    } else if str_eq(name, "code") {
        UploadField::Code
    } else if str_eq(name, "file") {
        UploadField::File
    } else {
        UploadField::Other
    }
}

/// What to read of a field.
#[derive(Clone, Copy, Debug, PartialEq, Eq, Structural)]
pub enum FieldRequest {
    /// Read the field as text and hand it to `accept_text`.
    Text,
    /// Check the file name with `accepts_file_name`, then read the
    /// contents as UTF-8 and hand them to `accept_file`.
    File,
    /// Read nothing.
    Skip,
}

/// The answer to a form once it is read.
#[derive(Clone, Copy, Debug, PartialEq, Eq, Structural)]
pub enum UploadOutcome {
    /// No code was given: a bad request.
    NoCode,
    /// Run the analysis on the code, with Polonius or not.
    Analyze { use_polonius: bool },
}

/// The state of reading an upload form: the code to analyse, how it is
/// given, and the borrow checker chosen.
#[derive(Debug)]
pub struct UploadForm {
    pub code: String,
    pub input_method: String,
    pub borrow_checker: String,
}

/// The message that rejects a file that is not a Rust source.
pub fn rejected_file_message() -> (m: &'static str)
    ensures
        m@ == "Only Rust files (.rs) are accepted"@,
{
    "Only Rust files (.rs) are accepted"
}

/// The message that answers a form without code.
pub fn no_code_message() -> (m: &'static str)
    ensures
        m@ == "No code content provided"@,
{
    "No code content provided"
}

/// The answer to a file that is not a Rust source: a bad request (400) that
/// says so.
pub fn rejected_file_response() -> (r: (u16, &'static str))
    ensures
        r.0 == 400,
        r.1@ == "Only Rust files (.rs) are accepted"@,
{
    (400, rejected_file_message())
}

/// The answer to a form without code: a bad request (400) that says so.
pub fn no_code_response() -> (r: (u16, &'static str))
    ensures
        r.0 == 400,
        r.1@ == "No code content provided"@,
{
    (400, no_code_message())
}

/// The body of the answer to a run of the analysis that failed: it says that
/// the compilation failed, then gives the tool's standard output and
/// standard error.
pub open spec fn failed_analysis_text(stdout: Seq<char>, stderr: Seq<char>) -> Seq<char> {
    "Compilation failed:\n\n=== STDOUT ===\n"@ + stdout + "\n\n=== STDERR ===\n"@ + stderr
}

/// The answer to a run of the analysis that failed: status 500 (internal
/// server error) with the body of `failed_analysis_text`.
pub fn failed_analysis_response(stdout: &str, stderr: &str) -> (r: (u16, String))
    ensures
        r.0 == 500,
        r.1@ == failed_analysis_text(stdout@, stderr@),
        r.1@.subrange(0, 18) == "Compilation failed"@,
{
    proof {
        reveal_strlit("Compilation failed:\n\n=== STDOUT ===\n");
        reveal_strlit("\n\n=== STDERR ===\n");
        reveal_strlit("Compilation failed");
    }
    let mut body = String::new();
    push_str(&mut body, "Compilation failed:\n\n=== STDOUT ===\n");
    push_str(&mut body, stdout);
    push_str(&mut body, "\n\n=== STDERR ===\n");
    push_str(&mut body, stderr);
    assert(body@ =~= failed_analysis_text(stdout@, stderr@));
    assert(body@.subrange(0, 18) =~= "Compilation failed"@);
    (500, body)
}

impl UploadForm {
    /// The state before any field: no code, no input method, the NLL
    /// borrow checker.
    pub fn new() -> (f: Self)
        ensures
            f.code@ == Seq::<char>::empty(),
            f.input_method@ == Seq::<char>::empty(),
            f.borrow_checker@ == "nll"@,
    {
        UploadForm { code: String::new(), input_method: String::new(), borrow_checker: String::from_str("nll") }
    }

    /// What to read of `field`: the text of the input method, the borrow
    /// checker and the code; the file only where the input method is
    /// `file`; nothing of another field.
    pub fn request(&self, field: UploadField) -> (r: FieldRequest)
        ensures
            r == match field {
                UploadField::InputMethod | UploadField::BorrowChecker | UploadField::Code => FieldRequest::Text,
                UploadField::File => if self.input_method@ == "file"@ { FieldRequest::File } else { FieldRequest::Skip },
                UploadField::Other => FieldRequest::Skip,
            },
    {
        match field {
            UploadField::InputMethod | UploadField::BorrowChecker | UploadField::Code => FieldRequest::Text,
            UploadField::File => if str_eq(self.input_method.as_str(), "file") {
                FieldRequest::File
            } else {
                FieldRequest::Skip
            },
            UploadField::Other => FieldRequest::Skip,
        }
    }

    /// Takes the text of `field`: the input method and the borrow checker
    /// are set; the code is kept only where the input method is `code`.
    pub fn accept_text(&mut self, field: UploadField, text: String)
        ensures
            field == UploadField::InputMethod ==> final(self).input_method == text
                && final(self).code == old(self).code && final(self).borrow_checker == old(self).borrow_checker,
            field == UploadField::BorrowChecker ==> final(self).borrow_checker == text
                && final(self).code == old(self).code && final(self).input_method == old(self).input_method,
            field == UploadField::Code ==> final(self).input_method == old(self).input_method
                && final(self).borrow_checker == old(self).borrow_checker
                && final(self).code == (if old(self).input_method@ == "code"@ { text } else { old(self).code }),
            field == UploadField::File || field == UploadField::Other ==> *final(self) == *old(self),
    {
        match field {
            UploadField::InputMethod => {
                self.input_method = text;
            },
            UploadField::BorrowChecker => {
                self.borrow_checker = text;
            },
            UploadField::Code => {
                if str_eq(self.input_method.as_str(), "code") {
                    self.code = text;
                }
            },
            _ => {},
        }
    }

    /// Whether an uploaded file is accepted: its name ends in `.rs`.
    pub fn accepts_file_name(name: &str) -> (b: bool)
        ensures
            b == (name@.len() >= 3 && name@.subrange(name@.len() - 3, name@.len() as int) == ".rs"@),
    {
        proof {
            reveal_strlit(".rs");
        }
        str_ends_with(name, ".rs")
    }

    /// Takes the contents of the uploaded file as the code.
    pub fn accept_file(&mut self, contents: String)
        ensures
            final(self).code == contents,
            final(self).input_method == old(self).input_method,
            final(self).borrow_checker == old(self).borrow_checker,
    {
        self.code = contents;
    }

    /// The answer once every field is read: no code is a bad request;
    /// otherwise the analysis runs, with Polonius where the borrow checker
    /// is `polonius`.
    pub fn outcome(&self) -> (o: UploadOutcome)
        ensures
            self.code@.len() == 0 ==> o == UploadOutcome::NoCode,
            self.code@.len() > 0 ==> o == (UploadOutcome::Analyze { use_polonius: self.borrow_checker@ == "polonius"@ }),
    {
        if self.code.as_str().unicode_len() == 0 {
            UploadOutcome::NoCode
        } else {
            UploadOutcome::Analyze { use_polonius: str_eq(self.borrow_checker.as_str(), "polonius") }
        }
    }
}

} // verus!
