//! What is written reads back: for every message that fits the wire, reading
//! its bytes gives the message again.

use vstd::prelude::*;
use vstd::utf8::{encode_utf8_decode_utf8, encode_utf8_valid_utf8};
use crate::model::{
    CommandResultView, CommandSpecView, DirectoryView, FileView, FrameView, IdentityView,
    TaskRequestView, TaskResponseView,
};
use crate::wire::encode::lemma_directory_fields;
use crate::wire::fields::{fields_ok, lemma_parse_fields_of_bytes, FieldView, PayloadView};
use crate::wire::schema::{
    blob_field, command_bytes, command_fields, decode_command, decode_directory, decode_file,
    decode_frame, decode_identity, decode_request, decode_response, decode_result,
    directories_fields, directories_in, directory_bytes, directory_fields, file_bytes,
    file_fields, files_fields, files_in, frame_bytes, frame_fields, identity_bytes,
    identity_fields, last_with_tag, nested_in, number_field, request_bytes, request_fields,
    response_bytes, response_fields, result_bytes, result_fields, text_field, text_in,
    texts_fields, texts_in, variant_in, WireError, MAX_TREE_DEPTH,
};

verus! {

/// An identity whose fields fit the wire.
pub open spec fn identity_fits(identity: IdentityView) -> bool {
    fields_ok(identity_fields(identity))
}

/// A result whose fields fit the wire.
pub open spec fn result_fits(result: CommandResultView) -> bool {
    fields_ok(result_fields(result))
}

/// A file whose fields fit the wire.
pub open spec fn file_fits(file: FileView) -> bool {
    fields_ok(file_fields(file))
}

/// A directory whose lengths fit the wire: those of its own fields, and those in
/// every file and subdirectory.
pub open spec fn tree_sizes_fit(directory: DirectoryView) -> bool
    decreases directory,
{
    &&& fields_ok(directory_fields(directory))
    &&& forall|i: int| 0 <= i < directory.files.len() ==> file_fits(#[trigger] directory.files[i])
    &&& forall|i: int|
        0 <= i < directory.subdirectories.len() ==> tree_sizes_fit(
            #[trigger] directory.subdirectories[i],
        )
}

/// A directory that nests no deeper than `budget` levels, itself included.
pub open spec fn tree_depth_fits(directory: DirectoryView, budget: nat) -> bool
    decreases budget,
{
    &&& budget > 0
    &&& forall|i: int|
        0 <= i < directory.subdirectories.len() ==> tree_depth_fits(
            #[trigger] directory.subdirectories[i],
            (budget - 1) as nat,
        )
}

/// A directory that fits the wire, read with the given budget.
pub open spec fn directory_fits(directory: DirectoryView, budget: nat) -> bool {
    tree_sizes_fit(directory) && tree_depth_fits(directory, budget)
}

/// A command whose lengths fit the wire.
pub open spec fn command_sizes_fit(command: CommandSpecView) -> bool {
    &&& fields_ok(command_fields(command))
    &&& match command.working_tree {
        Some(tree) => tree_sizes_fit(tree),
        None => true,
    }
}

/// A command whose working tree, if it has one, nests no deeper than
/// `MAX_TREE_DEPTH` levels.
pub open spec fn command_depth_fits(command: CommandSpecView) -> bool {
    match command.working_tree {
        Some(tree) => tree_depth_fits(tree, MAX_TREE_DEPTH as nat),
        None => true,
    }
}

/// A command that fits the wire.
pub open spec fn command_fits(command: CommandSpecView) -> bool {
    command_sizes_fit(command) && command_depth_fits(command)
}

/// A task request whose lengths fit the wire.
pub open spec fn request_sizes_fit(request: TaskRequestView) -> bool {
    &&& fields_ok(request_fields(request))
    &&& match request.command {
        Some(command) => command_sizes_fit(command),
        None => true,
    }
}

/// A task request that fits the wire.
pub open spec fn request_fits(request: TaskRequestView) -> bool {
    &&& request_sizes_fit(request)
    &&& match request.command {
        Some(command) => command_depth_fits(command),
        None => true,
    }
}

/// A task response that fits the wire.
pub open spec fn response_fits(response: TaskResponseView) -> bool {
    &&& fields_ok(response_fields(response))
    &&& match response.response {
        Some(result) => result_fits(result),
        None => true,
    }
}

/// A frame in which every length fits its prefix. Every frame that exists in
/// memory is such a frame: `Frame::encode` shows it.
pub open spec fn frame_sizes_fit(frame: FrameView) -> bool {
    &&& fields_ok(frame_fields(frame))
    &&& match frame {
        FrameView::Init(identity) => identity_fits(identity),
        FrameView::TaskRequest(request) => request_sizes_fit(request),
        FrameView::TaskResponse(response) => response_fits(response),
    }
}

/// A frame in which a working tree, if there is one, nests no deeper than
/// `MAX_TREE_DEPTH` levels.
pub open spec fn frame_depth_fits(frame: FrameView) -> bool {
    match frame {
        FrameView::TaskRequest(request) => match request.command {
            Some(command) => command_depth_fits(command),
            None => true,
        },
        _ => true,
    }
}

/// A frame that fits the wire.
pub open spec fn frame_fits(frame: FrameView) -> bool {
    frame_sizes_fit(frame) && frame_depth_fits(frame)
}

/// No field of `fields` has the tag.
pub open spec fn lacks_tag(fields: Seq<FieldView>, tag: u32) -> bool {
    forall|i: int| 0 <= i < fields.len() ==> (#[trigger] fields[i]).tag != tag
}

proof fn lemma_last_with_tag_concat(a: Seq<FieldView>, b: Seq<FieldView>, tag: u32)
    ensures
        last_with_tag(a + b, tag) == match last_with_tag(b, tag) {
            Some(payload) => Some(payload),
            None => last_with_tag(a, tag),
        },
    decreases b.len(),
{
    if b.len() == 0 {
        assert(a + b =~= a);
    } else {
        assert((a + b).last() == b.last());
        assert((a + b).drop_last() =~= a + b.drop_last());
        lemma_last_with_tag_concat(a, b.drop_last(), tag);
    }
}

proof fn lemma_last_with_tag_lacking(fields: Seq<FieldView>, tag: u32)
    requires
        lacks_tag(fields, tag),
    ensures
        last_with_tag(fields, tag).is_none(),
    decreases fields.len(),
{
    if fields.len() > 0 {
        assert(fields.last() == fields[fields.len() - 1]);
        let front = fields.drop_last();
        assert forall|i: int| 0 <= i < front.len() implies (#[trigger] front[i]).tag != tag by {
            assert(front[i] == fields[i]);
        }
        lemma_last_with_tag_lacking(front, tag);
    }
}

/// A text field at the head of a message, with no later field of its tag,
/// reads back as the text.
proof fn lemma_head_text(text: Seq<char>, rest: Seq<FieldView>)
    requires
        lacks_tag(rest, 1),
    ensures
        text_in(seq![text_field(1, text)] + rest, 1) == Ok::<Seq<char>, WireError>(text),
{
    let head = seq![text_field(1, text)];
    lemma_last_with_tag_concat(head, rest, 1);
    lemma_last_with_tag_lacking(rest, 1);
    assert(head.last() == text_field(1, text));
    encode_utf8_valid_utf8(text);
    encode_utf8_decode_utf8(text);
}

proof fn lemma_texts_in_concat(a: Seq<FieldView>, b: Seq<FieldView>, tag: u32)
    ensures
        texts_in(a + b, tag) == match texts_in(a, tag) {
            Err(e) => Err(e),
            Ok(x) => match texts_in(b, tag) {
                Ok(y) => Ok(x + y),
                Err(e) => Err(e),
            },
        },
    decreases a.len(),
{
    if a.len() == 0 {
        assert(a + b =~= b);
        if let Ok(y) = texts_in(b, tag) {
            assert(Seq::<Seq<char>>::empty() + y =~= y);
        }
    } else {
        assert((a + b)[0] == a[0]);
        assert((a + b).skip(1) =~= a.skip(1) + b);
        lemma_texts_in_concat(a.skip(1), b, tag);
        if let Ok(x) = texts_in(a.skip(1), tag) {
            if let Ok(y) = texts_in(b, tag) {
                if let PayloadView::Bytes(bytes) = a[0].payload {
                    let t = vstd::utf8::decode_utf8(bytes);
                    assert(seq![t] + (x + y) =~= (seq![t] + x) + y);
                }
            }
        }
    }
}

proof fn lemma_texts_in_lacking(fields: Seq<FieldView>, tag: u32)
    requires
        lacks_tag(fields, tag),
    ensures
        texts_in(fields, tag) == Ok::<Seq<Seq<char>>, WireError>(Seq::empty()),
    decreases fields.len(),
{
    if fields.len() > 0 {
        let tail = fields.skip(1);
        assert forall|i: int| 0 <= i < tail.len() implies (#[trigger] tail[i]).tag != tag by {
            assert(tail[i] == fields[i + 1]);
        }
        lemma_texts_in_lacking(tail, tag);
    }
}

proof fn lemma_texts_in_written(texts: Seq<Seq<char>>, tag: u32)
    ensures
        texts_in(texts_fields(tag, texts), tag) == Ok::<Seq<Seq<char>>, WireError>(texts),
    decreases texts.len(),
{
    let fields = texts_fields(tag, texts);
    if texts.len() == 0 {
        assert(texts =~= Seq::empty());
    } else {
        assert(fields.skip(1) =~= texts_fields(tag, texts.skip(1)));
        lemma_texts_in_written(texts.skip(1), tag);
        encode_utf8_valid_utf8(texts[0]);
        encode_utf8_decode_utf8(texts[0]);
        assert(seq![texts[0]] + texts.skip(1) =~= texts);
    }
}

proof fn lemma_files_in_concat(a: Seq<FieldView>, b: Seq<FieldView>)
    ensures
        files_in(a + b) == match files_in(a) {
            Err(e) => Err(e),
            Ok(x) => match files_in(b) {
                Ok(y) => Ok(x + y),
                Err(e) => Err(e),
            },
        },
    decreases a.len(),
{
    if a.len() == 0 {
        assert(a + b =~= b);
        if let Ok(y) = files_in(b) {
            assert(Seq::<FileView>::empty() + y =~= y);
        }
    } else {
        assert((a + b)[0] == a[0]);
        assert((a + b).skip(1) =~= a.skip(1) + b);
        lemma_files_in_concat(a.skip(1), b);
        if let Ok(x) = files_in(a.skip(1)) {
            if let Ok(y) = files_in(b) {
                if let PayloadView::Bytes(bytes) = a[0].payload {
                    if let Ok(f) = decode_file(bytes) {
                        assert(seq![f] + (x + y) =~= (seq![f] + x) + y);
                    }
                }
            }
        }
    }
}

proof fn lemma_files_in_lacking(fields: Seq<FieldView>)
    requires
        lacks_tag(fields, 2),
    ensures
        files_in(fields) == Ok::<Seq<FileView>, WireError>(Seq::empty()),
    decreases fields.len(),
{
    if fields.len() > 0 {
        let tail = fields.skip(1);
        assert forall|i: int| 0 <= i < tail.len() implies (#[trigger] tail[i]).tag != 2 by {
            assert(tail[i] == fields[i + 1]);
        }
        lemma_files_in_lacking(tail);
    }
}

/// A file that fits the wire reads back from its bytes.
pub proof fn lemma_file_round_trip(file: FileView)
    requires
        file_fits(file),
    ensures
        decode_file(file_bytes(file)) == Ok::<FileView, WireError>(file),
{
    let fields = file_fields(file);
    lemma_parse_fields_of_bytes(fields);
    let rest = seq![blob_field(2, file.bytes)];
    assert(fields =~= seq![text_field(1, file.name)] + rest);
    lemma_head_text(file.name, rest);
    assert(fields.last() == blob_field(2, file.bytes));
}

proof fn lemma_files_in_written(files: Seq<FileView>)
    requires
        forall|i: int| 0 <= i < files.len() ==> file_fits(#[trigger] files[i]),
    ensures
        files_in(files_fields(files)) == Ok::<Seq<FileView>, WireError>(files),
    decreases files.len(),
{
    let fields = files_fields(files);
    if files.len() == 0 {
        assert(files =~= Seq::empty());
    } else {
        let tail = files.skip(1);
        assert(fields.skip(1) =~= files_fields(tail));
        assert forall|i: int| 0 <= i < tail.len() implies file_fits(#[trigger] tail[i]) by {
            assert(tail[i] == files[i + 1]);
        }
        lemma_files_in_written(tail);
        lemma_file_round_trip(files[0]);
        assert(seq![files[0]] + tail =~= files);
    }
}

proof fn lemma_directories_in_concat(a: Seq<FieldView>, b: Seq<FieldView>, budget: nat)
    ensures
        directories_in(a + b, budget) == match directories_in(a, budget) {
            Err(e) => Err(e),
            Ok(x) => match directories_in(b, budget) {
                Ok(y) => Ok(x + y),
                Err(e) => Err(e),
            },
        },
    decreases a.len(),
{
    if a.len() == 0 {
        assert(a + b =~= b);
        if let Ok(y) = directories_in(b, budget) {
            assert(Seq::<DirectoryView>::empty() + y =~= y);
        }
    } else {
        assert((a + b)[0] == a[0]);
        assert((a + b).skip(1) =~= a.skip(1) + b);
        lemma_directories_in_concat(a.skip(1), b, budget);
        if let Ok(x) = directories_in(a.skip(1), budget) {
            if let Ok(y) = directories_in(b, budget) {
                if let PayloadView::Bytes(bytes) = a[0].payload {
                    if let Ok(d) = decode_directory(bytes, budget) {
                        assert(seq![d] + (x + y) =~= (seq![d] + x) + y);
                    }
                }
            }
        }
    }
}

proof fn lemma_directories_in_lacking(fields: Seq<FieldView>, budget: nat)
    requires
        lacks_tag(fields, 3),
    ensures
        directories_in(fields, budget) == Ok::<Seq<DirectoryView>, WireError>(Seq::empty()),
    decreases fields.len(),
{
    if fields.len() > 0 {
        let tail = fields.skip(1);
        assert forall|i: int| 0 <= i < tail.len() implies (#[trigger] tail[i]).tag != 3 by {
            assert(tail[i] == fields[i + 1]);
        }
        lemma_directories_in_lacking(tail, budget);
    }
}

/// A directory that fits the wire reads back from its bytes, with every file
/// and subdirectory in place.
pub proof fn lemma_directory_round_trip(directory: DirectoryView, budget: nat)
    requires
        directory_fits(directory, budget),
    ensures
        decode_directory(directory_bytes(directory), budget) == Ok::<DirectoryView, WireError>(
            directory,
        ),
    decreases budget, 0nat, 0nat,
{
    let head = seq![text_field(1, directory.name)];
    let files = files_fields(directory.files);
    let dirs = directories_fields(directory.subdirectories);
    let fields = directory_fields(directory);
    let below = (budget - 1) as nat;
    lemma_directory_fields(directory);
    assert(fields == head + files + dirs);
    lemma_parse_fields_of_bytes(fields);
    // the name
    assert(fields =~= head + (files + dirs));
    assert(lacks_tag(files + dirs, 1));
    lemma_head_text(directory.name, files + dirs);
    // the files
    assert(lacks_tag(head, 2));
    assert(lacks_tag(dirs, 2));
    lemma_files_in_concat(head + files, dirs);
    lemma_files_in_concat(head, files);
    lemma_files_in_lacking(head);
    lemma_files_in_lacking(dirs);
    lemma_files_in_written(directory.files);
    assert(Seq::<FileView>::empty() + directory.files =~= directory.files);
    assert(directory.files + Seq::<FileView>::empty() =~= directory.files);
    // the subdirectories
    assert(lacks_tag(head + files, 3));
    lemma_directories_in_concat(head + files, dirs, below);
    lemma_directories_in_lacking(head + files, below);
    lemma_directories_in_written(directory.subdirectories, below);
    assert(Seq::<DirectoryView>::empty() + directory.subdirectories =~= directory.subdirectories);
}

proof fn lemma_directories_in_written(directories: Seq<DirectoryView>, budget: nat)
    requires
        forall|i: int|
            0 <= i < directories.len() ==> directory_fits(#[trigger] directories[i], budget),
    ensures
        directories_in(directories_fields(directories), budget) == Ok::<
            Seq<DirectoryView>,
            WireError,
        >(directories),
    decreases budget, 1nat, directories.len(),
{
    let fields = directories_fields(directories);
    if directories.len() == 0 {
        assert(directories =~= Seq::empty());
    } else {
        let tail = directories.skip(1);
        assert(fields.skip(1) =~= directories_fields(tail));
        assert forall|i: int| 0 <= i < tail.len() implies directory_fits(
            #[trigger] tail[i],
            budget,
        ) by {
            assert(tail[i] == directories[i + 1]);
        }
        lemma_directories_in_written(tail, budget);
        lemma_directory_round_trip(directories[0], budget);
        assert(seq![directories[0]] + tail =~= directories);
    }
}

/// An identity that fits the wire reads back from its bytes.
pub proof fn lemma_identity_round_trip(identity: IdentityView)
    requires
        identity_fits(identity),
    ensures
        decode_identity(identity_bytes(identity)) == Ok::<IdentityView, WireError>(identity),
{
    let fields = identity_fields(identity);
    lemma_parse_fields_of_bytes(fields);
    let rest = seq![text_field(2, identity.credential)];
    assert(fields =~= seq![text_field(1, identity.handle)] + rest);
    lemma_head_text(identity.handle, rest);
    assert(fields.last() == text_field(2, identity.credential));
    encode_utf8_valid_utf8(identity.credential);
    encode_utf8_decode_utf8(identity.credential);
}

/// A result that fits the wire reads back from its bytes.
pub proof fn lemma_result_round_trip(result: CommandResultView)
    requires
        result_fits(result),
    ensures
        decode_result(result_bytes(result)) == Ok::<CommandResultView, WireError>(result),
{
    let fields = result_fields(result);
    lemma_parse_fields_of_bytes(fields);
    let rest = seq![number_field(2, result.exit_code as u64)];
    assert(fields =~= seq![text_field(1, result.combined_output)] + rest);
    lemma_head_text(result.combined_output, rest);
    assert(fields.last() == rest[0]);
    let code = result.exit_code;
    assert((code as u64) as i64 == code) by (bit_vector);
}

/// A command that fits the wire reads back from its bytes.
pub proof fn lemma_command_round_trip(command: CommandSpecView)
    requires
        command_fits(command),
    ensures
        decode_command(command_bytes(command)) == Ok::<CommandSpecView, WireError>(command),
{
    let head = seq![text_field(1, command.executable)];
    let args = texts_fields(2, command.arguments);
    let tree: Seq<FieldView> = match command.working_tree {
        Some(tree) => seq![blob_field(3, directory_bytes(tree))],
        None => Seq::empty(),
    };
    let fields = command_fields(command);
    assert(fields == head + args + tree);
    lemma_parse_fields_of_bytes(fields);
    assert(fields =~= head + (args + tree));
    assert(lacks_tag(args + tree, 1));
    lemma_head_text(command.executable, args + tree);
    assert(lacks_tag(head, 2));
    assert(lacks_tag(tree, 2));
    lemma_texts_in_concat(head + args, tree, 2);
    lemma_texts_in_concat(head, args, 2);
    lemma_texts_in_lacking(head, 2);
    lemma_texts_in_lacking(tree, 2);
    lemma_texts_in_written(command.arguments, 2);
    assert(Seq::<Seq<char>>::empty() + command.arguments =~= command.arguments);
    assert(command.arguments + Seq::<Seq<char>>::empty() =~= command.arguments);
    lemma_last_with_tag_concat(head + args, tree, 3);
    match command.working_tree {
        Some(t) => {
            assert(tree.last() == blob_field(3, directory_bytes(t)));
            assert(tree.drop_last() =~= Seq::<FieldView>::empty());
            lemma_directory_round_trip(t, MAX_TREE_DEPTH as nat);
        },
        None => {
            assert(lacks_tag(head + args, 3));
            lemma_last_with_tag_lacking(head + args, 3);
        },
    }
}

/// A singular nested message behind a head text field is found again; without
/// it, nothing is found.
proof fn lemma_head_then_nested(head: FieldView, nested: Option<Seq<u8>>)
    requires
        head.tag == 1,
    ensures
        nested_in(
            seq![head] + match nested {
                Some(b) => seq![blob_field(2, b)],
                None => Seq::empty(),
            },
            2,
        ) == Ok::<Option<Seq<u8>>, WireError>(nested),
        lacks_tag(
            match nested {
                Some(b) => seq![blob_field(2, b)],
                None => Seq::<FieldView>::empty(),
            },
            1,
        ),
{
    let tail: Seq<FieldView> = match nested {
        Some(b) => seq![blob_field(2, b)],
        None => Seq::empty(),
    };
    lemma_last_with_tag_concat(seq![head], tail, 2);
    match nested {
        Some(b) => {
            assert(tail.last() == blob_field(2, b));
        },
        None => {
            assert(lacks_tag(seq![head], 2));
            lemma_last_with_tag_lacking(seq![head], 2);
        },
    }
}

/// A task request that fits the wire reads back from its bytes.
pub proof fn lemma_request_round_trip(request: TaskRequestView)
    requires
        request_fits(request),
    ensures
        decode_request(request_bytes(request)) == Ok::<TaskRequestView, WireError>(request),
{
    let fields = request_fields(request);
    lemma_parse_fields_of_bytes(fields);
    let nested = match request.command {
        Some(command) => Some(command_bytes(command)),
        None => None,
    };
    let tail: Seq<FieldView> = match nested {
        Some(b) => seq![blob_field(2, b)],
        None => Seq::empty(),
    };
    assert(fields =~= seq![text_field(1, request.id)] + tail);
    lemma_head_then_nested(text_field(1, request.id), nested);
    lemma_head_text(request.id, tail);
    if let Some(command) = request.command {
        lemma_command_round_trip(command);
    }
}

/// A task response that fits the wire reads back from its bytes.
pub proof fn lemma_response_round_trip(response: TaskResponseView)
    requires
        response_fits(response),
    ensures
        decode_response(response_bytes(response)) == Ok::<TaskResponseView, WireError>(response),
{
    let fields = response_fields(response);
    lemma_parse_fields_of_bytes(fields);
    let nested = match response.response {
        Some(result) => Some(result_bytes(result)),
        None => None,
    };
    let tail: Seq<FieldView> = match nested {
        Some(b) => seq![blob_field(2, b)],
        None => Seq::empty(),
    };
    assert(fields =~= seq![text_field(1, response.id)] + tail);
    lemma_head_then_nested(text_field(1, response.id), nested);
    lemma_head_text(response.id, tail);
    if let Some(result) = response.response {
        lemma_result_round_trip(result);
    }
}

/// Every frame that fits the wire reads back from its bytes as the same
/// frame: the same variant, the same texts, the same working tree with
/// byte-identical files in the same structure.
pub proof fn lemma_frame_round_trip(frame: FrameView)
    requires
        frame_fits(frame),
    ensures
        decode_frame(frame_bytes(frame)) == Ok::<FrameView, WireError>(frame),
{
    let fields = frame_fields(frame);
    lemma_parse_fields_of_bytes(fields);
    assert(fields.last() == fields[0]);
    assert(variant_in(fields) == Some(fields[0]));
    match frame {
        FrameView::Init(identity) => {
            lemma_identity_round_trip(identity);
        },
        FrameView::TaskRequest(request) => {
            lemma_request_round_trip(request);
        },
        FrameView::TaskResponse(response) => {
            lemma_response_round_trip(response);
        },
    }
}

} // verus!
