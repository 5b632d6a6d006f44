//! Reading messages from bytes.

use vstd::prelude::*;
use vstd::slice::slice_to_vec;
use vstd::utf8::{encode_utf8, valid_utf8};
use crate::model::{
    directory_views, file_views, lemma_directory_view, text_views, CommandResult, CommandSpec,
    Directory, DirectoryView, FileEntry, FileView, Frame, Identity, TaskRequest, TaskResponse,
};
use crate::wire::fields::{field_views, parse_fields, read_fields, Field, Payload};
use crate::wire::schema::{
    blob_in, decode_command, decode_directory, decode_file, decode_frame, decode_identity,
    decode_request, decode_response, decode_result, directories_in, files_in, last_with_tag,
    nested_in, number_in, text_in, texts_in, variant_in, WireError, MAX_TREE_DEPTH,
};

verus! {

/// The text that `bytes` spell in UTF-8, if they spell one.
///
/// Trusted: calls `String::from_utf8`, which succeeds exactly on valid UTF-8 and
/// then keeps the bytes as the content of the string.
#[verifier::external_body]
fn text_of(bytes: Vec<u8>) -> (r: Option<String>)
    ensures
        r.is_some() <==> valid_utf8(bytes@),
        r.is_some() ==> encode_utf8(r.unwrap()@) == bytes@,
{
    match String::from_utf8(bytes) {
        Ok(text) => Some(text),
        Err(_) => None,
    }
}

/// The payload of the last field with the given tag.
fn find_last(fields: &Vec<Field>, tag: u32) -> (r: Option<&Payload>)
    ensures
        match last_with_tag(field_views(fields@), tag) {
            Some(payload) => r.is_some() && r.unwrap()@ == payload,
            None => r.is_none(),
        },
{
    let ghost views = field_views(fields@);
    let mut i: usize = fields.len();
    assert(views.take(i as int) =~= views);
    while i > 0
        invariant
            i <= fields.len(),
            views == field_views(fields@),
            last_with_tag(views, tag) == last_with_tag(views.take(i as int), tag),
        decreases i,
    {
        i -= 1;
        let ghost upto = views.take(i as int + 1);
        assert(upto.last() == fields@[i as int]@);
        assert(upto.drop_last() =~= views.take(i as int));
        if fields[i].tag == tag {
            return Some(&fields[i].payload);
        }
    }
    None
}

/// Reads a singular text field.
fn read_text(fields: &Vec<Field>, tag: u32) -> (r: Result<String, WireError>)
    ensures
        match text_in(field_views(fields@), tag) {
            Ok(text) => r.is_ok() && r.unwrap()@ == text,
            Err(e) => r == Err::<String, WireError>(e),
        },
{
    match find_last(fields, tag) {
        None => Ok(String::new()),
        Some(Payload::Bytes(b)) => {
            match text_of(slice_to_vec(b.as_slice())) {
                Some(text) => {
                    proof {
                        vstd::utf8::encode_utf8_decode_utf8(text@);
                    }
                    Ok(text)
                },
                None => Err(WireError::InvalidField),
            }
        },
        Some(_) => Err(WireError::InvalidField),
    }
}

/// Reads a singular content field.
fn read_blob(fields: &Vec<Field>, tag: u32) -> (r: Result<Vec<u8>, WireError>)
    ensures
        match blob_in(field_views(fields@), tag) {
            Ok(bytes) => r.is_ok() && r.unwrap()@ == bytes,
            Err(e) => r == Err::<Vec<u8>, WireError>(e),
        },
{
    match find_last(fields, tag) {
        None => Ok(Vec::new()),
        Some(Payload::Bytes(b)) => Ok(slice_to_vec(b.as_slice())),
        Some(_) => Err(WireError::InvalidField),
    }
}

/// Reads a singular number field.
fn read_number(fields: &Vec<Field>, tag: u32) -> (r: Result<u64, WireError>)
    ensures
        r == number_in(field_views(fields@), tag),
{
    match find_last(fields, tag) {
        None => Ok(0),
        Some(Payload::Varint(v)) => Ok(*v),
        Some(_) => Err(WireError::InvalidField),
    }
}

/// Finds the bytes of an optional nested message.
fn read_nested(fields: &Vec<Field>, tag: u32) -> (r: Result<Option<&Vec<u8>>, WireError>)
    ensures
        match nested_in(field_views(fields@), tag) {
            Ok(Some(bytes)) => r.is_ok() && r.unwrap().is_some() && r.unwrap().unwrap()@ == bytes,
            Ok(None) => r.is_ok() && r.unwrap().is_none(),
            Err(e) => r == Err::<Option<&Vec<u8>>, WireError>(e),
        },
{
    match find_last(fields, tag) {
        None => Ok(None),
        Some(Payload::Bytes(b)) => Ok(Some(b)),
        Some(_) => Err(WireError::InvalidField),
    }
}

/// Reads a repeated text field.
fn read_texts(fields: &Vec<Field>, tag: u32) -> (r: Result<Vec<String>, WireError>)
    ensures
        match texts_in(field_views(fields@), tag) {
            Ok(texts) => r.is_ok() && text_views(r.unwrap()@) == texts,
            Err(e) => r == Err::<Vec<String>, WireError>(e),
        },
{
    let ghost views = field_views(fields@);
    let mut out: Vec<String> = Vec::new();
    let mut i: usize = 0;
    assert(views.skip(0) =~= views);
    assert(text_views(out@) =~= Seq::empty());
    while i < fields.len()
        invariant
            i <= fields.len(),
            views == field_views(fields@),
            texts_in(views, tag) == match texts_in(views.skip(i as int), tag) {
                Ok(rest) => Ok(text_views(out@) + rest),
                Err(e) => Err(e),
            },
        decreases fields.len() - i,
    {
        let ghost here = views.skip(i as int);
        assert(here[0] == fields@[i as int]@);
        assert(here.skip(1) =~= views.skip(i as int + 1));
        if fields[i].tag == tag {
            match &fields[i].payload {
                Payload::Bytes(b) => {
                    match text_of(slice_to_vec(b.as_slice())) {
                        Some(text) => {
                            proof {
                                vstd::utf8::encode_utf8_decode_utf8(text@);
                                let before = text_views(out@);
                                assert(text_views(out@.push(text)) =~= before.push(text@));
                                if let Ok(rest) = texts_in(views.skip(i as int + 1), tag) {
                                    assert(before + (seq![text@] + rest) =~= before.push(text@)
                                        + rest);
                                }
                            }
                            out.push(text);
                        },
                        None => {
                            return Err(WireError::InvalidField);
                        },
                    }
                },
                _ => {
                    return Err(WireError::InvalidField);
                },
            }
        }
        i += 1;
    }
    assert(text_views(out@) + Seq::<Seq<char>>::empty() =~= text_views(out@));
    Ok(out)
}

impl Identity {
    /// Reads an identity.
    pub fn decode(bytes: &[u8]) -> (r: Result<Identity, WireError>)
        ensures
            match decode_identity(bytes@) {
                Ok(identity) => r.is_ok() && r.unwrap()@ == identity,
                Err(e) => r == Err::<Identity, WireError>(e),
            },
    {
        let fields = match read_fields(bytes) {
            Some(fields) => fields,
            None => {
                return Err(WireError::Malformed);
            },
        };
        let handle = match read_text(&fields, 1) {
            Ok(text) => text,
            Err(e) => {
                return Err(e);
            },
        };
        let credential = match read_text(&fields, 2) {
            Ok(text) => text,
            Err(e) => {
                return Err(e);
            },
        };
        Ok(Identity { handle, credential })
    }
}

impl CommandResult {
    /// Reads a command's result.
    pub fn decode(bytes: &[u8]) -> (r: Result<CommandResult, WireError>)
        ensures
            match decode_result(bytes@) {
                Ok(result) => r.is_ok() && r.unwrap()@ == result,
                Err(e) => r == Err::<CommandResult, WireError>(e),
            },
    {
        let fields = match read_fields(bytes) {
            Some(fields) => fields,
            None => {
                return Err(WireError::Malformed);
            },
        };
        let combined_output = match read_text(&fields, 1) {
            Ok(text) => text,
            Err(e) => {
                return Err(e);
            },
        };
        let code = match read_number(&fields, 2) {
            Ok(code) => code,
            Err(e) => {
                return Err(e);
            },
        };
        Ok(CommandResult { combined_output, exit_code: code as i64 })
    }
}

impl FileEntry {
    /// Reads a file.
    pub fn decode(bytes: &[u8]) -> (r: Result<FileEntry, WireError>)
        ensures
            match decode_file(bytes@) {
                Ok(file) => r.is_ok() && r.unwrap()@ == file,
                Err(e) => r == Err::<FileEntry, WireError>(e),
            },
    {
        let fields = match read_fields(bytes) {
            Some(fields) => fields,
            None => {
                return Err(WireError::Malformed);
            },
        };
        let name = match read_text(&fields, 1) {
            Ok(text) => text,
            Err(e) => {
                return Err(e);
            },
        };
        let content = match read_blob(&fields, 2) {
            Ok(content) => content,
            Err(e) => {
                return Err(e);
            },
        };
        Ok(FileEntry { name, bytes: content })
    }
}

/// Reads the files among a directory's fields.
fn read_files(fields: &Vec<Field>) -> (r: Result<Vec<FileEntry>, WireError>)
    ensures
        match files_in(field_views(fields@)) {
            Ok(files) => r.is_ok() && file_views(r.unwrap()@) == files,
            Err(e) => r == Err::<Vec<FileEntry>, WireError>(e),
        },
{
    let ghost views = field_views(fields@);
    let mut out: Vec<FileEntry> = Vec::new();
    let mut i: usize = 0;
    assert(views.skip(0) =~= views);
    assert(file_views(out@) =~= Seq::empty());
    while i < fields.len()
        invariant
            i <= fields.len(),
            views == field_views(fields@),
            files_in(views) == match files_in(views.skip(i as int)) {
                Ok(rest) => Ok(file_views(out@) + rest),
                Err(e) => Err(e),
            },
        decreases fields.len() - i,
    {
        let ghost here = views.skip(i as int);
        assert(here[0] == fields@[i as int]@);
        assert(here.skip(1) =~= views.skip(i as int + 1));
        if fields[i].tag == 2 {
            match &fields[i].payload {
                Payload::Bytes(b) => {
                    match FileEntry::decode(b.as_slice()) {
                        Ok(file) => {
                            proof {
                                let before = file_views(out@);
                                assert(file_views(out@.push(file)) =~= before.push(file@));
                                if let Ok(rest) = files_in(views.skip(i as int + 1)) {
                                    assert(before + (seq![file@] + rest) =~= before.push(file@)
                                        + rest);
                                }
                            }
                            out.push(file);
                        },
                        Err(e) => {
                            return Err(e);
                        },
                    }
                },
                _ => {
                    return Err(WireError::InvalidField);
                },
            }
        }
        i += 1;
    }
    assert(file_views(out@) + Seq::<FileView>::empty() =~= file_views(out@));
    Ok(out)
}

impl Directory {
    /// Reads a directory in which `budget` levels of directories may nest, this
    /// one included.
    pub fn decode(bytes: &[u8], budget: u32) -> (r: Result<Directory, WireError>)
        ensures
            match decode_directory(bytes@, budget as nat) {
                Ok(directory) => r.is_ok() && r.unwrap()@ == directory,
                Err(e) => r == Err::<Directory, WireError>(e),
            },
        decreases budget,
    {
        if budget == 0 {
            return Err(WireError::TooDeep);
        }
        let fields = match read_fields(bytes) {
            Some(fields) => fields,
            None => {
                return Err(WireError::Malformed);
            },
        };
        let name = match read_text(&fields, 1) {
            Ok(text) => text,
            Err(e) => {
                return Err(e);
            },
        };
        let files = match read_files(&fields) {
            Ok(files) => files,
            Err(e) => {
                return Err(e);
            },
        };
        let ghost views = field_views(fields@);
        let ghost below = (budget - 1) as nat;
        let mut subdirectories: Vec<Directory> = Vec::new();
        let mut i: usize = 0;
        assert(views.skip(0) =~= views);
        assert(directory_views(subdirectories@) =~= Seq::empty());
        while i < fields.len()
            invariant
                i <= fields.len(),
                budget > 0,
                below == (budget - 1) as nat,
                views == field_views(fields@),
                parse_fields(bytes@) == Some(views),
                text_in(views, 1) == Ok::<Seq<char>, WireError>(name@),
                files_in(views) == Ok::<Seq<FileView>, WireError>(file_views(files@)),
                directories_in(views, below) == match directories_in(views.skip(i as int), below) {
                    Ok(rest) => Ok(directory_views(subdirectories@) + rest),
                    Err(e) => Err(e),
                },
            decreases fields.len() - i,
        {
            let ghost here = views.skip(i as int);
            assert(here[0] == fields@[i as int]@);
            assert(here.skip(1) =~= views.skip(i as int + 1));
            if fields[i].tag == 3 {
                match &fields[i].payload {
                    Payload::Bytes(b) => {
                        match Directory::decode(b.as_slice(), budget - 1) {
                            Ok(directory) => {
                                proof {
                                    let before = directory_views(subdirectories@);
                                    assert(directory_views(subdirectories@.push(directory))
                                        =~= before.push(directory@));
                                    if let Ok(rest) = directories_in(
                                        views.skip(i as int + 1),
                                        below,
                                    ) {
                                        assert(before + (seq![directory@] + rest) =~= before.push(
                                            directory@,
                                        ) + rest);
                                    }
                                }
                                subdirectories.push(directory);
                            },
                            Err(e) => {
                                return Err(e);
                            },
                        }
                    },
                    _ => {
                        return Err(WireError::InvalidField);
                    },
                }
            }
            i += 1;
        }
        assert(directory_views(subdirectories@) + Seq::<DirectoryView>::empty()
            =~= directory_views(subdirectories@));
        let directory = Directory { name, files, subdirectories };
        proof {
            lemma_directory_view(directory);
        }
        Ok(directory)
    }
}

impl CommandSpec {
    /// Reads a command.
    pub fn decode(bytes: &[u8]) -> (r: Result<CommandSpec, WireError>)
        ensures
            match decode_command(bytes@) {
                Ok(command) => r.is_ok() && r.unwrap()@ == command,
                Err(e) => r == Err::<CommandSpec, WireError>(e),
            },
    {
        let fields = match read_fields(bytes) {
            Some(fields) => fields,
            None => {
                return Err(WireError::Malformed);
            },
        };
        let executable = match read_text(&fields, 1) {
            Ok(text) => text,
            Err(e) => {
                return Err(e);
            },
        };
        let arguments = match read_texts(&fields, 2) {
            Ok(texts) => texts,
            Err(e) => {
                return Err(e);
            },
        };
        let working_tree = match read_nested(&fields, 3) {
            Ok(Some(b)) => match Directory::decode(b.as_slice(), MAX_TREE_DEPTH) {
                Ok(tree) => Some(tree),
                Err(e) => {
                    return Err(e);
                },
            },
            Ok(None) => None,
            Err(e) => {
                return Err(e);
            },
        };
        Ok(CommandSpec { executable, arguments, working_tree })
    }
}

impl TaskRequest {
    /// Reads a task request.
    pub fn decode(bytes: &[u8]) -> (r: Result<TaskRequest, WireError>)
        ensures
            match decode_request(bytes@) {
                Ok(request) => r.is_ok() && r.unwrap()@ == request,
                Err(e) => r == Err::<TaskRequest, WireError>(e),
            },
    {
        let fields = match read_fields(bytes) {
            Some(fields) => fields,
            None => {
                return Err(WireError::Malformed);
            },
        };
        let id = match read_text(&fields, 1) {
            Ok(text) => text,
            Err(e) => {
                return Err(e);
            },
        };
        let command = match read_nested(&fields, 2) {
            Ok(Some(b)) => match CommandSpec::decode(b.as_slice()) {
                Ok(command) => Some(command),
                Err(e) => {
                    return Err(e);
                },
            },
            Ok(None) => None,
            Err(e) => {
                return Err(e);
            },
        };
        Ok(TaskRequest { id, command })
    }
}

impl TaskResponse {
    /// Reads a task response.
    pub fn decode(bytes: &[u8]) -> (r: Result<TaskResponse, WireError>)
        ensures
            match decode_response(bytes@) {
                Ok(response) => r.is_ok() && r.unwrap()@ == response,
                Err(e) => r == Err::<TaskResponse, WireError>(e),
            },
    {
        let fields = match read_fields(bytes) {
            Some(fields) => fields,
            None => {
                return Err(WireError::Malformed);
            },
        };
        let id = match read_text(&fields, 1) {
            Ok(text) => text,
            Err(e) => {
                return Err(e);
            },
        };
        let response = match read_nested(&fields, 2) {
            Ok(Some(b)) => match CommandResult::decode(b.as_slice()) {
                Ok(result) => Some(result),
                Err(e) => {
                    return Err(e);
                },
            },
            Ok(None) => None,
            Err(e) => {
                return Err(e);
            },
        };
        Ok(TaskResponse { id, response })
    }
}

/// The last field that carries one of the three variants of a frame.
fn find_variant(fields: &Vec<Field>) -> (r: Option<&Field>)
    ensures
        match variant_in(field_views(fields@)) {
            Some(field) => r.is_some() && r.unwrap()@ == field,
            None => r.is_none(),
        },
{
    let ghost views = field_views(fields@);
    let mut i: usize = fields.len();
    assert(views.take(i as int) =~= views);
    while i > 0
        invariant
            i <= fields.len(),
            views == field_views(fields@),
            variant_in(views) == variant_in(views.take(i as int)),
        decreases i,
    {
        i -= 1;
        let ghost upto = views.take(i as int + 1);
        assert(upto.last() == fields@[i as int]@);
        assert(upto.drop_last() =~= views.take(i as int));
        if 1 <= fields[i].tag && fields[i].tag <= 3 {
            return Some(&fields[i]);
        }
    }
    None
}

impl Frame {
    /// Reads a frame. Bytes that are no run of fields, a frame without a
    /// variant, and a variant that cannot be read each give their error.
    pub fn decode(bytes: &[u8]) -> (r: Result<Frame, WireError>)
        ensures
            match decode_frame(bytes@) {
                Ok(frame) => r.is_ok() && r.unwrap()@ == frame,
                Err(e) => r == Err::<Frame, WireError>(e),
            },
    {
        let fields = match read_fields(bytes) {
            Some(fields) => fields,
            None => {
                return Err(WireError::Malformed);
            },
        };
        let field = match find_variant(&fields) {
            Some(field) => field,
            None => {
                return Err(WireError::NoVariant);
            },
        };
        match &field.payload {
            Payload::Bytes(b) => {
                if field.tag == 1 {
                    match Identity::decode(b.as_slice()) {
                        Ok(identity) => Ok(Frame::Init(identity)),
                        Err(e) => Err(e),
                    }
                } else if field.tag == 2 {
                    match TaskRequest::decode(b.as_slice()) {
                        Ok(request) => Ok(Frame::TaskRequest(request)),
                        Err(e) => Err(e),
                    }
                } else {
                    match TaskResponse::decode(b.as_slice()) {
                        Ok(response) => Ok(Frame::TaskResponse(response)),
                        Err(e) => Err(e),
                    }
                }
            },
            _ => Err(WireError::InvalidField),
        }
    }
}

} // verus!
