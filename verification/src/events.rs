//! The events the engine emits, one per observable outcome, and the
//! error values a whole run can end with.
//!
//! Events carry their payloads as plain byte strings; turning an event
//! into a display line is left to the presentation layer.

use vstd::prelude::*;

verus! {

/// One outcome reported by the engine, in emission order.
#[derive(Debug, Clone, PartialEq, Eq)]
pub enum FileEvent {
    /// A file was renamed into the destination directory.
    Moved { src: Vec<u8>, dst: Vec<u8> },
    /// A rename failed; the batch continues with the remaining files.
    MoveError { src: Vec<u8>, message: Vec<u8> },
    /// The input path did not match the requested mode; the run stops.
    InvalidInput { message: Vec<u8> },
    /// A file whose base name could not be determined was passed over.
    SkippedInvalidName { src: Vec<u8> },
    /// All files were processed; always the last event of a valid run.
    Completed,
}

/// The mathematical shape of a `FileEvent`, with byte strings as sequences.
pub enum EventView {
    Moved { src: Seq<u8>, dst: Seq<u8> },
    MoveError { src: Seq<u8>, message: Seq<u8> },
    InvalidInput { message: Seq<u8> },
    SkippedInvalidName { src: Seq<u8> },
    Completed,
}

impl View for FileEvent {
    type V = EventView;

    open spec fn view(&self) -> EventView {
        match self {
            FileEvent::Moved { src, dst } => EventView::Moved { src: src@, dst: dst@ },
            FileEvent::MoveError { src, message } => EventView::MoveError {
                src: src@,
                message: message@,
            },
            FileEvent::InvalidInput { message } => EventView::InvalidInput { message: message@ },
            FileEvent::SkippedInvalidName { src } => EventView::SkippedInvalidName { src: src@ },
            FileEvent::Completed => EventView::Completed,
        }
    }
}

/// The views of a sequence of events.
pub open spec fn event_views(s: Seq<FileEvent>) -> Seq<EventView> {
    s.map_values(|e: FileEvent| e@)
}

/// How a whole run can fail.
#[derive(Debug, Clone, Copy, PartialEq, Eq, Structural)]
pub enum EngineError {
    /// The input path was not a regular file, or not a directory, as
    /// the requested mode demanded.
    InvalidInput,
    /// The destination directory could not be created.
    Io,
}

/// The bytes of `" is not a valid directory."`.
pub open spec fn dir_message_suffix() -> Seq<u8> {
    seq![
        32u8, 105, 115, 32, 110, 111, 116, 32, 97, 32, 118, 97, 108, 105, 100, 32, 100, 105, 114,
        101, 99, 116, 111, 114, 121, 46,
    ]
}

/// The bytes of `" is not a valid file."`.
pub open spec fn file_message_suffix() -> Seq<u8> {
    seq![
        32u8, 105, 115, 32, 110, 111, 116, 32, 97, 32, 118, 97, 108, 105, 100, 32, 102, 105, 108,
        101, 46,
    ]
}

/// Builds `" is not a valid directory."` as bytes.
pub fn dir_message_suffix_bytes() -> (r: Vec<u8>)
    ensures
        r@ == dir_message_suffix(),
{
    let mut v: Vec<u8> = Vec::new();
    v.push(32);
    v.push(105);
    v.push(115);
    v.push(32);
    v.push(110);
    v.push(111);
    v.push(116);
    v.push(32);
    v.push(97);
    v.push(32);
    v.push(118);
    v.push(97);
    v.push(108);
    v.push(105);
    v.push(100);
    v.push(32);
    v.push(100);
    v.push(105);
    v.push(114);
    v.push(101);
    v.push(99);
    v.push(116);
    v.push(111);
    v.push(114);
    v.push(121);
    v.push(46);
    proof {
        assert(v@ =~= dir_message_suffix());
    }
    v
}

/// Builds `" is not a valid file."` as bytes.
pub fn file_message_suffix_bytes() -> (r: Vec<u8>)
    ensures
        r@ == file_message_suffix(),
{
    let mut v: Vec<u8> = Vec::new();
    v.push(32);
    v.push(105);
    v.push(115);
    v.push(32);
    v.push(110);
    v.push(111);
    v.push(116);
    v.push(32);
    v.push(97);
    v.push(32);
    v.push(118);
    v.push(97);
    v.push(108);
    v.push(105);
    v.push(100);
    v.push(32);
    v.push(102);
    v.push(105);
    v.push(108);
    v.push(101);
    v.push(46);
    proof {
        assert(v@ =~= file_message_suffix());
    }
    v
}

} // verus!
