//! What the log says of an export.

use crate::text;
use vstd::prelude::*;

verus! {

/// A file that was written.
pub struct Written {
    pub path: String,
    pub rows: usize,
    /// Why there is nothing in it.
    pub note: Option<String>,
}

/// What became of writing the files of a section: the directory could not be
/// used, or each file was written or failed.
pub enum ExportAttempt {
    NoDirectory(String),
    Files(Vec<Result<Written, String>>),
}

/// What a written file holds.
pub open spec fn contents_of(w: Written) -> Seq<char> {
    if w.rows == 0 && w.note is Some {
        "nothing to write, "@ + w.note->0@
    } else {
        text::decimal(w.rows as nat) + " rows"@
    }
}

/// The line for one file.
pub open spec fn file_line(file: Result<Written, String>) -> Seq<char> {
    match file {
        Ok(w) => "Export: "@ + w.path@ + " ("@ + contents_of(w) + ")"@,
        Err(why) => "Export failed: "@ + why@,
    }
}

/// The line for one file.
fn file_text(file: &Result<Written, String>) -> (out: String)
    ensures
        out@ == file_line(*file),
{
    let mut t: Vec<char> = Vec::new();
    match file {
        Ok(w) => {
            text::push_str(&mut t, "Export: ");
            text::push_str(&mut t, w.path.as_str());
            text::push_str(&mut t, " (");
            let ghost before = t@;
            match (w.rows, &w.note) {
                (0, Some(note)) => {
                    text::push_str(&mut t, "nothing to write, ");
                    text::push_str(&mut t, note.as_str());
                },
                (n, _) => {
                    text::push_decimal(&mut t, n as u64);
                    text::push_str(&mut t, " rows");
                },
            }
            assert(t@ == before + contents_of(*w));
            text::push_str(&mut t, ")");
        },
        Err(why) => {
            text::push_str(&mut t, "Export failed: ");
            text::push_str(&mut t, why.as_str());
        },
    }
    assert(t@ == file_line(*file));
    text::from_chars(t.as_slice())
}

/// Takes the export key: only while the section it exports is on screen, so that
/// no other section loses a key. What was tried is told to the log, in one line for
/// a directory that cannot be used, else in one for every file in the order they
/// were written.
pub fn export_section(section_open: bool, dir: &str, attempt: &ExportAttempt) -> (r: Option<
    Vec<String>,
>)
    ensures
        match r {
            None => !section_open,
            Some(lines) => section_open && match *attempt {
                ExportAttempt::NoDirectory(why) => lines@.len() == 1 && lines@[0]@
                    == "Export: cannot use "@ + dir@ + ": "@ + why@,
                ExportAttempt::Files(files) => {
                    &&& lines@.len() == files@.len()
                    &&& forall|i: int|
                        0 <= i < files@.len() ==> (#[trigger] lines@[i])@ == file_line(files@[i])
                },
            },
        },
{
    if !section_open {
        return None;
    }
    let mut lines: Vec<String> = Vec::new();
    match attempt {
        ExportAttempt::NoDirectory(why) => {
            let mut t: Vec<char> = text::to_chars("Export: cannot use ");
            text::push_str(&mut t, dir);
            text::push_str(&mut t, ": ");
            text::push_str(&mut t, why.as_str());
            lines.push(text::from_chars(t.as_slice()));
        },
        ExportAttempt::Files(files) => {
            let mut i: usize = 0;
            while i < files.len()
                invariant
                    i <= files@.len(),
                    lines@.len() == i,
                    forall|k: int|
                        0 <= k < i ==> (#[trigger] lines@[k])@ == file_line(files@[k]),
                decreases files@.len() - i,
            {
                lines.push(file_text(&files[i]));
                i += 1;
            }
        },
    }
    Some(lines)
}

} // verus!
