//! The block of text that a note is printed as.

use vstd::prelude::*;
use vstd::string::StringExecFns;
use crate::note::{Document, Note, NoteView};
use crate::text::{decode_text, decoded_text};
use crate::timestamp::{render_timestamp, timestamp_text};

verus! {

/// Why a note cannot be rendered.
#[derive(Clone, Copy, Debug, PartialEq, Eq, Structural)]
pub enum RenderError {
    /// A timestamp has no calendar date.
    TimestampOutOfRange,
    /// The title or the text decodes to bytes that are not well-formed UTF-8.
    MalformedText,
}

/// The block for a note: both dates in square brackets with a hyphen between
/// them, then the title, a blank line, the text, and two blank lines.
pub open spec fn block_text(
    created: Seq<char>,
    updated: Seq<char>,
    title: Seq<char>,
    text: Seq<char>,
) -> Seq<char> {
    seq!['['] + created + seq![']', '-', '['] + updated + seq![']', '\n'] + title
        + seq!['\n', '\n'] + text + seq!['\n', '\n', '\n']
}

/// The block that a note is rendered to, or the reason why it has none. A
/// timestamp without a date is reported before malformed text.
pub open spec fn note_block(note: NoteView) -> Result<Seq<char>, RenderError> {
    let created = timestamp_text(note.created_timestamp);
    let updated = timestamp_text(note.updated_timestamp);
    let title = decoded_text(note.title);
    let text = decoded_text(note.text);
    if created is None || updated is None {
        Err(RenderError::TimestampOutOfRange)
    } else if title is None || text is None {
        Err(RenderError::MalformedText)
    } else {
        Ok(block_text(created->0, updated->0, title->0, text->0))
    }
}

/// Lays out the block for a note from its four parts, already rendered.
pub fn format_block(created: &str, updated: &str, title: &str, text: &str) -> (block: String)
    ensures
        block@ == block_text(created@, updated@, title@, text@),
{
    proof {
        reveal_strlit("[");
        reveal_strlit("]-[");
        reveal_strlit("]\n");
        reveal_strlit("\n\n");
        reveal_strlit("\n\n\n");
    }
    let mut block = String::new();
    block.append("[");
    block.append(created);
    block.append("]-[");
    block.append(updated);
    block.append("]\n");
    block.append(title);
    block.append("\n\n");
    block.append(text);
    block.append("\n\n\n");
    assert(block@ =~= block_text(created@, updated@, title@, text@));
    block
}

/// Renders one note.
pub fn render_note(note: &Note) -> (block: Result<String, RenderError>)
    ensures
        block matches Ok(s) ==> note_block(note@) == Ok::<Seq<char>, RenderError>(s@),
        block matches Err(e) ==> note_block(note@) == Err::<Seq<char>, RenderError>(e),
{
    let created = match render_timestamp(note.created_timestamp) {
        Some(s) => s,
        None => {
            return Err(RenderError::TimestampOutOfRange);
        },
    };
    let updated = match render_timestamp(note.updated_timestamp) {
        Some(s) => s,
        None => {
            return Err(RenderError::TimestampOutOfRange);
        },
    };
    let title = match decode_text(note.title.as_str()) {
        Some(s) => s,
        None => {
            return Err(RenderError::MalformedText);
        },
    };
    let text = match decode_text(note.text.as_str()) {
        Some(s) => s,
        None => {
            return Err(RenderError::MalformedText);
        },
    };
    Ok(format_block(created.as_str(), updated.as_str(), title.as_str(), text.as_str()))
}

/// Renders every note of a document, in the document's order. The first note
/// that cannot be rendered ends the run with its error.
pub fn render_document(document: &Document) -> (blocks: Result<Vec<String>, RenderError>)
    ensures
        blocks matches Ok(v) ==> v@.len() == document@.len() && forall|i: int|
            0 <= i < v@.len() ==> note_block(#[trigger] document@[i]) == Ok::<
                Seq<char>,
                RenderError,
            >(v@[i]@),
        blocks matches Err(e) ==> exists|k: int|
            0 <= k < document@.len() && note_block(#[trigger] document@[k]) == Err::<
                Seq<char>,
                RenderError,
            >(e) && forall|j: int| 0 <= j < k ==> note_block(#[trigger] document@[j]) is Ok,
{
    let mut blocks: Vec<String> = Vec::new();
    let n: usize = document.notes.len();
    for i in 0..n
        invariant
            n == document.notes@.len(),
            blocks@.len() == i,
            forall|j: int|
                0 <= j < i ==> note_block(#[trigger] document@[j]) == Ok::<Seq<char>, RenderError>(
                    blocks@[j]@,
                ),
    {
        match render_note(&document.notes[i]) {
            Ok(block) => {
                blocks.push(block);
            },
            Err(e) => {
                assert(note_block(document@[i as int]) == Err::<Seq<char>, RenderError>(e));
                return Err(e);
            },
        }
    }
    Ok(blocks)
}

} // verus!
