//! The layout of each message as a run of fields, and what reading a run of
//! fields as each message gives.
//!
//! | message      | tag 1        | tag 2               | tag 3                      |
//! |--------------|--------------|---------------------|----------------------------|
//! | frame        | init         | task request        | task response              |
//! | identity     | handle       | credential          |                            |
//! | task request | id           | command             |                            |
//! | task response| id           | result              |                            |
//! | command      | executable   | argument (repeated) | working tree               |
//! | result       | output       | exit code (varint)  |                            |
//! | directory    | name         | file (repeated)     | subdirectory (repeated)    |
//! | file         | name         | content             |                            |
//!
//! Text travels as UTF-8. A writer always writes the singular text, content
//! and number fields; a reader takes a missing one as empty or zero, the last one
//! where a singular field occurs more than once, and passes over tags it does
//! not know.

use vstd::prelude::*;
use vstd::utf8::{decode_utf8, encode_utf8, valid_utf8};
use crate::model::{
    CommandResultView, CommandSpecView, DirectoryView, FileView, FrameView, IdentityView,
    TaskRequestView, TaskResponseView,
};
use crate::wire::fields::{fields_bytes, parse_fields, FieldView, PayloadView};

verus! {

/// Why bytes could not be read as a message.
#[derive(Debug, Clone, Copy, PartialEq, Eq, Structural)]
pub enum WireError {
    /// The bytes of a message are not a run of fields.
    Malformed,
    /// A field of the message has the wrong wire type, or its text is not
    /// UTF-8.
    InvalidField,
    /// A frame holds none of its three variants.
    NoVariant,
    /// A working tree nests deeper than `MAX_TREE_DEPTH` directories.
    TooDeep,
}

/// How many directories may nest in a working tree that is read from the wire.
pub const MAX_TREE_DEPTH: u32 = 100;

pub open spec fn text_field(tag: u32, text: Seq<char>) -> FieldView {
    FieldView { tag, payload: PayloadView::Bytes(encode_utf8(text)) }
}

pub open spec fn blob_field(tag: u32, bytes: Seq<u8>) -> FieldView {
    FieldView { tag, payload: PayloadView::Bytes(bytes) }
}

pub open spec fn number_field(tag: u32, value: u64) -> FieldView {
    FieldView { tag, payload: PayloadView::Varint(value) }
}

pub open spec fn identity_fields(identity: IdentityView) -> Seq<FieldView> {
    seq![text_field(1, identity.handle), text_field(2, identity.credential)]
}

pub open spec fn identity_bytes(identity: IdentityView) -> Seq<u8> {
    fields_bytes(identity_fields(identity))
}

pub open spec fn result_fields(result: CommandResultView) -> Seq<FieldView> {
    seq![text_field(1, result.combined_output), number_field(2, result.exit_code as u64)]
}

pub open spec fn result_bytes(result: CommandResultView) -> Seq<u8> {
    fields_bytes(result_fields(result))
}

pub open spec fn file_fields(file: FileView) -> Seq<FieldView> {
    seq![text_field(1, file.name), blob_field(2, file.bytes)]
}

pub open spec fn file_bytes(file: FileView) -> Seq<u8> {
    fields_bytes(file_fields(file))
}

/// One field with tag 2 for each file, in order.
pub open spec fn files_fields(files: Seq<FileView>) -> Seq<FieldView> {
    Seq::new(files.len(), |i: int| blob_field(2, file_bytes(files[i])))
}

/// One field with the given tag for each text, in order.
pub open spec fn texts_fields(tag: u32, texts: Seq<Seq<char>>) -> Seq<FieldView> {
    Seq::new(texts.len(), |i: int| text_field(tag, texts[i]))
}

/// The fields of a directory: its name, its files, its subdirectories.
pub open spec fn directory_fields(directory: DirectoryView) -> Seq<FieldView>
    decreases directory,
{
    seq![text_field(1, directory.name)] + files_fields(directory.files) + Seq::new(
        directory.subdirectories.len(),
        |i: int|
            if 0 <= i < directory.subdirectories.len() {
                blob_field(3, fields_bytes(directory_fields(directory.subdirectories[i])))
            } else {
                blob_field(3, Seq::empty())
            },
    )
}

pub open spec fn directory_bytes(directory: DirectoryView) -> Seq<u8> {
    fields_bytes(directory_fields(directory))
}

/// One field with tag 3 for each subdirectory, in order.
pub open spec fn directories_fields(directories: Seq<DirectoryView>) -> Seq<FieldView> {
    Seq::new(directories.len(), |i: int| blob_field(3, directory_bytes(directories[i])))
}

pub open spec fn command_fields(command: CommandSpecView) -> Seq<FieldView> {
    seq![text_field(1, command.executable)] + texts_fields(2, command.arguments)
        + match command.working_tree {
        Some(tree) => seq![blob_field(3, directory_bytes(tree))],
        None => Seq::empty(),
    }
}

pub open spec fn command_bytes(command: CommandSpecView) -> Seq<u8> {
    fields_bytes(command_fields(command))
}

pub open spec fn request_fields(request: TaskRequestView) -> Seq<FieldView> {
    seq![text_field(1, request.id)] + match request.command {
        Some(command) => seq![blob_field(2, command_bytes(command))],
        None => Seq::empty(),
    }
}

pub open spec fn request_bytes(request: TaskRequestView) -> Seq<u8> {
    fields_bytes(request_fields(request))
}

pub open spec fn response_fields(response: TaskResponseView) -> Seq<FieldView> {
    seq![text_field(1, response.id)] + match response.response {
        Some(result) => seq![blob_field(2, result_bytes(result))],
        None => Seq::empty(),
    }
}

pub open spec fn response_bytes(response: TaskResponseView) -> Seq<u8> {
    fields_bytes(response_fields(response))
}

/// A frame is one field, whose tag says which variant it carries.
pub open spec fn frame_fields(frame: FrameView) -> Seq<FieldView> {
    match frame {
        FrameView::Init(identity) => seq![blob_field(1, identity_bytes(identity))],
        FrameView::TaskRequest(request) => seq![blob_field(2, request_bytes(request))],
        FrameView::TaskResponse(response) => seq![blob_field(3, response_bytes(response))],
    }
}

/// The bytes that stand for a frame on the wire.
pub open spec fn frame_bytes(frame: FrameView) -> Seq<u8> {
    fields_bytes(frame_fields(frame))
}

/// The payload of the last field with the given tag.
pub open spec fn last_with_tag(fields: Seq<FieldView>, tag: u32) -> Option<PayloadView>
    decreases fields.len(),
{
    if fields.len() == 0 {
        None
    } else if fields.last().tag == tag {
        Some(fields.last().payload)
    } else {
        last_with_tag(fields.drop_last(), tag)
    }
}

/// The text of a singular text field; empty where the field is missing.
pub open spec fn text_in(fields: Seq<FieldView>, tag: u32) -> Result<Seq<char>, WireError> {
    match last_with_tag(fields, tag) {
        None => Ok(Seq::empty()),
        Some(PayloadView::Bytes(b)) => if valid_utf8(b) {
            Ok(decode_utf8(b))
        } else {
            Err(WireError::InvalidField)
        },
        Some(_) => Err(WireError::InvalidField),
    }
}

/// The bytes of a singular content field; empty where the field is missing.
pub open spec fn blob_in(fields: Seq<FieldView>, tag: u32) -> Result<Seq<u8>, WireError> {
    match last_with_tag(fields, tag) {
        None => Ok(Seq::empty()),
        Some(PayloadView::Bytes(b)) => Ok(b),
        Some(_) => Err(WireError::InvalidField),
    }
}

/// The value of a singular number field; zero where the field is missing.
pub open spec fn number_in(fields: Seq<FieldView>, tag: u32) -> Result<u64, WireError> {
    match last_with_tag(fields, tag) {
        None => Ok(0),
        Some(PayloadView::Varint(v)) => Ok(v),
        Some(_) => Err(WireError::InvalidField),
    }
}

/// The bytes of an optional nested message.
pub open spec fn nested_in(fields: Seq<FieldView>, tag: u32) -> Result<Option<Seq<u8>>, WireError> {
    match last_with_tag(fields, tag) {
        None => Ok(None),
        Some(PayloadView::Bytes(b)) => Ok(Some(b)),
        Some(_) => Err(WireError::InvalidField),
    }
}

/// The texts of a repeated text field, in order; the first bad one decides.
pub open spec fn texts_in(fields: Seq<FieldView>, tag: u32) -> Result<Seq<Seq<char>>, WireError>
    decreases fields.len(),
{
    if fields.len() == 0 {
        Ok(Seq::empty())
    } else if fields[0].tag != tag {
        texts_in(fields.skip(1), tag)
    } else {
        match fields[0].payload {
            PayloadView::Bytes(b) => if valid_utf8(b) {
                match texts_in(fields.skip(1), tag) {
                    Ok(rest) => Ok(seq![decode_utf8(b)] + rest),
                    Err(e) => Err(e),
                }
            } else {
                Err(WireError::InvalidField)
            },
            _ => Err(WireError::InvalidField),
        }
    }
}

pub open spec fn decode_identity(bytes: Seq<u8>) -> Result<IdentityView, WireError> {
    match parse_fields(bytes) {
        None => Err(WireError::Malformed),
        Some(fields) => match text_in(fields, 1) {
            Err(e) => Err(e),
            Ok(handle) => match text_in(fields, 2) {
                Err(e) => Err(e),
                Ok(credential) => Ok(IdentityView { handle, credential }),
            },
        },
    }
}

pub open spec fn decode_result(bytes: Seq<u8>) -> Result<CommandResultView, WireError> {
    match parse_fields(bytes) {
        None => Err(WireError::Malformed),
        Some(fields) => match text_in(fields, 1) {
            Err(e) => Err(e),
            Ok(combined_output) => match number_in(fields, 2) {
                Err(e) => Err(e),
                Ok(code) => Ok(CommandResultView { combined_output, exit_code: code as i64 }),
            },
        },
    }
}

pub open spec fn decode_file(bytes: Seq<u8>) -> Result<FileView, WireError> {
    match parse_fields(bytes) {
        None => Err(WireError::Malformed),
        Some(fields) => match text_in(fields, 1) {
            Err(e) => Err(e),
            Ok(name) => match blob_in(fields, 2) {
                Err(e) => Err(e),
                Ok(content) => Ok(FileView { name, bytes: content }),
            },
        },
    }
}

/// The files of a directory's fields, in order; the first bad one decides.
pub open spec fn files_in(fields: Seq<FieldView>) -> Result<Seq<FileView>, WireError>
    decreases fields.len(),
{
    if fields.len() == 0 {
        Ok(Seq::empty())
    } else if fields[0].tag != 2 {
        files_in(fields.skip(1))
    } else {
        match fields[0].payload {
            PayloadView::Bytes(b) => match decode_file(b) {
                Err(e) => Err(e),
                Ok(file) => match files_in(fields.skip(1)) {
                    Ok(rest) => Ok(seq![file] + rest),
                    Err(e) => Err(e),
                },
            },
            _ => Err(WireError::InvalidField),
        }
    }
}

/// What reading `bytes` as a directory gives when `budget` more levels of
/// directories may nest, this one included.
pub open spec fn decode_directory(bytes: Seq<u8>, budget: nat) -> Result<DirectoryView, WireError>
    decreases budget, 0nat, 0nat,
{
    if budget == 0 {
        Err(WireError::TooDeep)
    } else {
        match parse_fields(bytes) {
            None => Err(WireError::Malformed),
            Some(fields) => match text_in(fields, 1) {
                Err(e) => Err(e),
                Ok(name) => match files_in(fields) {
                    Err(e) => Err(e),
                    Ok(files) => match directories_in(fields, (budget - 1) as nat) {
                        Err(e) => Err(e),
                        Ok(subdirectories) => Ok(DirectoryView { name, files, subdirectories }),
                    },
                },
            },
        }
    }
}

/// The subdirectories of a directory's fields, in order, each read with the
/// given budget; the first bad one decides.
pub open spec fn directories_in(fields: Seq<FieldView>, budget: nat) -> Result<
    Seq<DirectoryView>,
    WireError,
>
    decreases budget, 1nat, fields.len(),
{
    if fields.len() == 0 {
        Ok(Seq::empty())
    } else if fields[0].tag != 3 {
        directories_in(fields.skip(1), budget)
    } else {
        match fields[0].payload {
            PayloadView::Bytes(b) => match decode_directory(b, budget) {
                Err(e) => Err(e),
                Ok(directory) => match directories_in(fields.skip(1), budget) {
                    Ok(rest) => Ok(seq![directory] + rest),
                    Err(e) => Err(e),
                },
            },
            _ => Err(WireError::InvalidField),
        }
    }
}

pub open spec fn decode_command(bytes: Seq<u8>) -> Result<CommandSpecView, WireError> {
    match parse_fields(bytes) {
        None => Err(WireError::Malformed),
        Some(fields) => match text_in(fields, 1) {
            Err(e) => Err(e),
            Ok(executable) => match texts_in(fields, 2) {
                Err(e) => Err(e),
                Ok(arguments) => match nested_in(fields, 3) {
                    Err(e) => Err(e),
                    Ok(None) => Ok(CommandSpecView { executable, arguments, working_tree: None }),
                    Ok(Some(b)) => match decode_directory(b, MAX_TREE_DEPTH as nat) {
                        Err(e) => Err(e),
                        Ok(tree) => Ok(
                            CommandSpecView { executable, arguments, working_tree: Some(tree) },
                        ),
                    },
                },
            },
        },
    }
}

pub open spec fn decode_request(bytes: Seq<u8>) -> Result<TaskRequestView, WireError> {
    match parse_fields(bytes) {
        None => Err(WireError::Malformed),
        Some(fields) => match text_in(fields, 1) {
            Err(e) => Err(e),
            Ok(id) => match nested_in(fields, 2) {
                Err(e) => Err(e),
                Ok(None) => Ok(TaskRequestView { id, command: None }),
                Ok(Some(b)) => match decode_command(b) {
                    Err(e) => Err(e),
                    Ok(command) => Ok(TaskRequestView { id, command: Some(command) }),
                },
            },
        },
    }
}

pub open spec fn decode_response(bytes: Seq<u8>) -> Result<TaskResponseView, WireError> {
    match parse_fields(bytes) {
        None => Err(WireError::Malformed),
        Some(fields) => match text_in(fields, 1) {
            Err(e) => Err(e),
            Ok(id) => match nested_in(fields, 2) {
                Err(e) => Err(e),
                Ok(None) => Ok(TaskResponseView { id, response: None }),
                Ok(Some(b)) => match decode_result(b) {
                    Err(e) => Err(e),
                    Ok(result) => Ok(TaskResponseView { id, response: Some(result) }),
                },
            },
        },
    }
}

/// The last field that carries one of the three variants of a frame.
pub open spec fn variant_in(fields: Seq<FieldView>) -> Option<FieldView>
    decreases fields.len(),
{
    if fields.len() == 0 {
        None
    } else if 1 <= fields.last().tag <= 3 {
        Some(fields.last())
    } else {
        variant_in(fields.drop_last())
    }
}

/// What reading `bytes` as a frame gives.
pub open spec fn decode_frame(bytes: Seq<u8>) -> Result<FrameView, WireError> {
    match parse_fields(bytes) {
        None => Err(WireError::Malformed),
        Some(fields) => match variant_in(fields) {
            None => Err(WireError::NoVariant),
            Some(field) => match field.payload {
                PayloadView::Bytes(b) => if field.tag == 1 {
                    match decode_identity(b) {
                        Ok(identity) => Ok(FrameView::Init(identity)),
                        Err(e) => Err(e),
                    }
                } else if field.tag == 2 {
                    match decode_request(b) {
                        Ok(request) => Ok(FrameView::TaskRequest(request)),
                        Err(e) => Err(e),
                    }
                } else {
                    match decode_response(b) {
                        Ok(response) => Ok(FrameView::TaskResponse(response)),
                        Err(e) => Err(e),
                    }
                },
                _ => Err(WireError::InvalidField),
            },
        },
    }
}

} // verus!
