//! The compute request: validation of the selected inputs, the error
//! taxonomy, and the one-shot calculation that turns two file reads and an
//! operation into a display string.
//!
//! File access itself happens outside this library; a caller hands each
//! file's lines in as a [`FileRead`]. The request state ([`MyApp`]) holds the
//! two selected paths, the selected operation, and the last result text.

use vstd::prelude::*;
use vstd::string::StringExecFns;
use crate::lineset::dedup_first;
use crate::lineset::join_lines;
use crate::lineset::op_view;
use crate::lineset::views_of;
use crate::lineset::LineSet;
use crate::lineset::Operation;

verus! {

/// The outcome of one attempt to read a selected file: its lines in file
/// order, or the fact that the file could not be opened, read, or decoded.
pub enum FileRead {
    Lines(Vec<String>),
    Unreadable,
}

/// Why a compute request failed.
///
/// `MissingInput`: a path or the operation had not been selected yet.
/// `FileAccess`: a selected file could not be read; carries the offending
/// path so the caller can report it.
#[derive(Debug, PartialEq, Eq)]
pub enum CalcError {
    MissingInput,
    FileAccess { path: String },
}

/// The message shown for each error.
pub open spec fn message_view(e: CalcError) -> Seq<char> {
    match e {
        CalcError::MissingInput => "Please select two files and an operation"@,
        CalcError::FileAccess { path } => "read file error: "@ + path@,
    }
}

impl CalcError {
    /// Renders the error as the text a shell displays in place of a result.
    pub fn message(&self) -> (r: String)
        ensures
            r@ == message_view(*self),
    {
        match self {
            CalcError::MissingInput => String::from_str(
                "Please select two files and an operation",
            ),
            CalcError::FileAccess { path } => String::from_str("read file error: ").concat(
                path.as_str(),
            ),
        }
    }
}

/// The state of one compute request: the two selected file paths (empty
/// until selected), the selected operation (`None` until selected), and the
/// text of the last result or error message.
pub struct MyApp {
    pub file1_path: String,
    pub file2_path: String,
    pub operation: Option<Operation>,
    pub result: String,
}

/// The formatted lines of the selected operation applied to the deduplicated
/// line sets of the two files.
pub open spec fn computed_text(op: Operation, l1: Seq<String>, l2: Seq<String>) -> Seq<char> {
    join_lines(op_view(op, dedup_first(views_of(l1)), dedup_first(views_of(l2))))
}

impl Default for MyApp {
    /// A fresh request: nothing selected, no result yet.
    fn default() -> (r: MyApp)
        ensures
            r.file1_path@ == Seq::<char>::empty(),
            r.file2_path@ == Seq::<char>::empty(),
            r.operation is None,
            r.result@ == Seq::<char>::empty(),
    {
        MyApp {
            file1_path: String::new(),
            file2_path: String::new(),
            operation: None,
            result: String::new(),
        }
    }
}

impl MyApp {
    /// A fresh request, as [`Default::default`] builds it.
    pub fn new() -> (r: MyApp)
        ensures
            r.file1_path@ == Seq::<char>::empty(),
            r.file2_path@ == Seq::<char>::empty(),
            r.operation is None,
            r.result@ == Seq::<char>::empty(),
    {
        Self::default()
    }

    /// Some selection is still missing: a path is empty or no operation was
    /// chosen. While this holds, no computation is attempted.
    pub open spec fn missing_input(self) -> bool {
        self.file1_path@.len() == 0 || self.file2_path@.len() == 0 || self.operation is None
    }

    /// What one compute request must produce from this state and the two
    /// reads: the formatted result, or the error the caller displays.
    pub open spec fn outcome_spec(self, read1: FileRead, read2: FileRead) -> Result<
        Seq<char>,
        CalcError,
    > {
        if self.missing_input() {
            Err(CalcError::MissingInput)
        } else {
            match (read1, read2) {
                (FileRead::Unreadable, _) => Err(
                    CalcError::FileAccess { path: self.file1_path },
                ),
                (FileRead::Lines(_), FileRead::Unreadable) => Err(
                    CalcError::FileAccess { path: self.file2_path },
                ),
                (FileRead::Lines(l1), FileRead::Lines(l2)) => Ok(
                    computed_text(self.operation.unwrap(), l1@, l2@),
                ),
            }
        }
    }

    /// Whether both paths and the operation have been selected; the caller
    /// attempts the two reads only when this returns `true`.
    pub fn inputs_ready(&self) -> (r: bool)
        ensures
            r == !self.missing_input(),
    {
        !self.file1_path.as_str().is_empty() && !self.file2_path.as_str().is_empty()
            && self.operation.is_some()
    }

    /// Computes the outcome of this request given the two file reads: the
    /// formatted result of the selected operation, or the error that stops
    /// the request. No set is computed unless both reads succeeded and every
    /// input was selected.
    pub fn compute(&self, read1: FileRead, read2: FileRead) -> (r: Result<String, CalcError>)
        ensures
            match (r, self.outcome_spec(read1, read2)) {
                (Ok(s), Ok(v)) => s@ == v,
                (Err(e), Err(f)) => e == f,
                _ => false,
            },
    {
        if !self.inputs_ready() {
            return Err(CalcError::MissingInput);
        }
        let lines1 = match read1 {
            FileRead::Lines(l) => l,
            FileRead::Unreadable => {
                return Err(CalcError::FileAccess { path: self.file1_path.clone() });
            },
        };
        let lines2 = match read2 {
            FileRead::Lines(l) => l,
            FileRead::Unreadable => {
                return Err(CalcError::FileAccess { path: self.file2_path.clone() });
            },
        };
        let op = self.operation.unwrap();
        let set1 = LineSet::from_lines(lines1);
        let set2 = LineSet::from_lines(lines2);
        let result_set = LineSet::apply(op, &set1, &set2);
        Ok(result_set.format())
    }

    /// The text `calculate` leaves in `result`: the formatted set on
    /// success, the error's message otherwise.
    pub open spec fn result_text_spec(self, read1: FileRead, read2: FileRead) -> Seq<char> {
        match self.outcome_spec(read1, read2) {
            Ok(v) => v,
            Err(e) => message_view(e),
        }
    }

    /// Runs one compute request on this state and stores what is to be
    /// displayed: the formatted set, or the error message. The selected
    /// paths and operation are left as they were.
    pub fn calculate(&mut self, read1: FileRead, read2: FileRead)
        ensures
            final(self).file1_path == old(self).file1_path,
            final(self).file2_path == old(self).file2_path,
            final(self).operation == old(self).operation,
            final(self).result@ == old(self).result_text_spec(read1, read2),
    {
        match self.compute(read1, read2) {
            Ok(s) => {
                self.result = s;
            },
            Err(e) => {
                self.result = e.message();
            },
        }
    }
}

} // verus!
