//! The records of an export.

use vstd::prelude::*;

verus! {

/// A label attached to a note.
#[derive(Debug)]
pub struct Tag {
    pub name: String,
}

/// One note of an export. `title` and `text` are raw fragments: the field as
/// it stands in the export, quotes and backslash escapes included.
#[derive(Debug)]
pub struct Note {
    pub title: String,
    pub text: String,
    /// Seconds since the Unix epoch.
    pub created_timestamp: i64,
    /// Seconds since the Unix epoch.
    pub updated_timestamp: i64,
    pub tags: Vec<Tag>,
}

/// A whole export: its notes, in the order of the export.
#[derive(Debug)]
pub struct Document {
    pub notes: Vec<Note>,
}

/// A note as a mathematical value.
pub struct NoteView {
    pub title: Seq<char>,
    pub text: Seq<char>,
    pub created_timestamp: int,
    pub updated_timestamp: int,
    pub tags: Seq<Seq<char>>,
}

impl View for Tag {
    type V = Seq<char>;

    open spec fn view(&self) -> Seq<char> {
        self.name@
    }
}

impl View for Note {
    type V = NoteView;

    open spec fn view(&self) -> NoteView {
        NoteView {
            title: self.title@,
            text: self.text@,
            created_timestamp: self.created_timestamp as int,
            updated_timestamp: self.updated_timestamp as int,
            tags: Seq::new(self.tags@.len(), |i: int| self.tags@[i]@),
        }
    }
}

impl View for Document {
    type V = Seq<NoteView>;

    open spec fn view(&self) -> Seq<NoteView> {
        Seq::new(self.notes@.len(), |i: int| self.notes@[i]@)
    }
}

} // verus!
