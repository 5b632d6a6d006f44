//! Writing messages as bytes.

use vstd::prelude::*;
use crate::model::{
    directory_views, file_views, lemma_directory_view, text_views, CommandResult, CommandSpec,
    Directory, DirectoryView, FileEntry, Frame, Identity, TaskRequest, TaskResponse,
};
use crate::wire::fields::{
    fields_bytes, fields_ok, lemma_fields_bytes_push, put_bytes_field, put_varint_field,
    FieldView,
};
use crate::wire::laws::{
    command_sizes_fit, file_fits, frame_depth_fits, frame_sizes_fit, identity_fits,
    request_sizes_fit, response_fits, result_fits, tree_depth_fits, tree_sizes_fit,
};
use crate::wire::schema::{
    blob_field, command_bytes, command_fields, directories_fields, directory_bytes,
    directory_fields, file_bytes, file_fields, files_fields, frame_bytes, frame_fields,
    identity_bytes, identity_fields, number_field, request_bytes, request_fields,
    response_bytes, response_fields, result_bytes, result_fields, text_field, texts_fields,
    MAX_TREE_DEPTH,
};

verus! {

/// A message under construction: the bytes so far are those of the fields
/// written so far, and each of those fields fits the wire.
struct Writer {
    buf: Vec<u8>,
    written: Ghost<Seq<FieldView>>,
}

impl Writer {
    spec fn wf(&self) -> bool {
        self.buf@ == fields_bytes(self.written@) && fields_ok(self.written@)
    }

    fn new() -> (w: Writer)
        ensures
            w.wf(),
            w.written@ == Seq::<FieldView>::empty(),
    {
        Writer { buf: Vec::new(), written: Ghost(Seq::empty()) }
    }

    fn text(&mut self, tag: u32, text: &str)
        requires
            old(self).wf(),
            1 <= tag <= 3,
        ensures
            final(self).wf(),
            final(self).written@ == old(self).written@.push(text_field(tag, text@)),
    {
        proof {
            lemma_fields_bytes_push(self.written@, text_field(tag, text@));
        }
        let bytes = text.as_bytes();
        let len: usize = bytes.len();
        assert(bytes@.len() == len);
        put_bytes_field(&mut self.buf, tag, bytes);
        self.written = Ghost(self.written@.push(text_field(tag, text@)));
    }

    fn blob(&mut self, tag: u32, bytes: &[u8])
        requires
            old(self).wf(),
            1 <= tag <= 3,
        ensures
            final(self).wf(),
            final(self).written@ == old(self).written@.push(blob_field(tag, bytes@)),
    {
        proof {
            lemma_fields_bytes_push(self.written@, blob_field(tag, bytes@));
        }
        let len: usize = bytes.len();
        assert(bytes@.len() == len);
        put_bytes_field(&mut self.buf, tag, bytes);
        self.written = Ghost(self.written@.push(blob_field(tag, bytes@)));
    }

    fn number(&mut self, tag: u32, value: u64)
        requires
            old(self).wf(),
            1 <= tag <= 3,
        ensures
            final(self).wf(),
            final(self).written@ == old(self).written@.push(number_field(tag, value)),
    {
        proof {
            lemma_fields_bytes_push(self.written@, number_field(tag, value));
        }
        put_varint_field(&mut self.buf, tag, value);
        self.written = Ghost(self.written@.push(number_field(tag, value)));
    }

    fn finish(self) -> (out: Vec<u8>)
        requires
            self.wf(),
        ensures
            out@ == fields_bytes(self.written@),
            fields_ok(self.written@),
    {
        self.buf
    }
}

/// The bytes of an identity.
pub fn encode_identity(identity: &Identity) -> (out: Vec<u8>)
    ensures
        out@ == identity_bytes(identity@),
        identity_fits(identity@),
{
    let mut w = Writer::new();
    w.text(1, identity.handle.as_str());
    w.text(2, identity.credential.as_str());
    assert(w.written@ =~= identity_fields(identity@));
    w.finish()
}

/// The bytes of a command's result.
pub fn encode_result(result: &CommandResult) -> (out: Vec<u8>)
    ensures
        out@ == result_bytes(result@),
        result_fits(result@),
{
    let mut w = Writer::new();
    w.text(1, result.combined_output.as_str());
    w.number(2, result.exit_code as u64);
    assert(w.written@ =~= result_fields(result@));
    w.finish()
}

/// The bytes of a file.
pub fn encode_file(file: &FileEntry) -> (out: Vec<u8>)
    ensures
        out@ == file_bytes(file@),
        file_fits(file@),
{
    let mut w = Writer::new();
    w.text(1, file.name.as_str());
    w.blob(2, file.bytes.as_slice());
    assert(w.written@ =~= file_fields(file@));
    w.finish()
}

/// The fields of a directory are its name, then its files, then its
/// subdirectories.
pub proof fn lemma_directory_fields(directory: DirectoryView)
    ensures
        directory_fields(directory) == seq![text_field(1, directory.name)] + files_fields(
            directory.files,
        ) + directories_fields(directory.subdirectories),
{
    let inline = Seq::new(
        directory.subdirectories.len(),
        |i: int|
            if 0 <= i < directory.subdirectories.len() {
                blob_field(3, fields_bytes(directory_fields(directory.subdirectories[i])))
            } else {
                blob_field(3, Seq::empty())
            },
    );
    assert(inline =~= directories_fields(directory.subdirectories));
}

/// The bytes of a directory and of everything below it.
pub fn encode_directory(directory: &Directory) -> (out: Vec<u8>)
    ensures
        out@ == directory_bytes(directory@),
        tree_sizes_fit(directory@),
    decreases directory,
{
    proof {
        lemma_directory_view(*directory);
        lemma_directory_fields(directory@);
    }
    let ghost head = seq![text_field(1, directory.name@)];
    let ghost files = files_fields(directory@.files);
    let ghost dirs = directories_fields(directory@.subdirectories);
    let mut w = Writer::new();
    w.text(1, directory.name.as_str());
    assert(w.written@ =~= head + files.take(0));
    let mut i: usize = 0;
    while i < directory.files.len()
        invariant
            i <= directory.files.len(),
            w.wf(),
            directory@.files == file_views(directory.files@),
            files == files_fields(directory@.files),
            w.written@ == head + files.take(i as int),
            forall|k: int| 0 <= k < i ==> file_fits(#[trigger] directory@.files[k]),
        decreases directory.files.len() - i,
    {
        let bytes = encode_file(&directory.files[i]);
        w.blob(2, bytes.as_slice());
        assert(head + files.take(i as int + 1) =~= (head + files.take(i as int)).push(files[i as int]));
        i += 1;
    }
    assert(files.take(i as int) =~= files);
    assert(w.written@ =~= head + files + dirs.take(0));
    let mut j: usize = 0;
    while j < directory.subdirectories.len()
        invariant
            j <= directory.subdirectories.len(),
            w.wf(),
            directory@.subdirectories == directory_views(directory.subdirectories@),
            dirs == directories_fields(directory@.subdirectories),
            w.written@ == head + files + dirs.take(j as int),
            forall|k: int| 0 <= k < j ==> tree_sizes_fit(#[trigger] directory@.subdirectories[k]),
        decreases directory.subdirectories.len() - j,
    {
        let bytes = encode_directory(&directory.subdirectories[j]);
        w.blob(3, bytes.as_slice());
        assert(head + files + dirs.take(j as int + 1) =~= (head + files + dirs.take(
            j as int,
        )).push(dirs[j as int]));
        j += 1;
    }
    assert(dirs.take(j as int) =~= dirs);
    w.finish()
}

/// The bytes of a command.
pub fn encode_command(command: &CommandSpec) -> (out: Vec<u8>)
    ensures
        out@ == command_bytes(command@),
        command_sizes_fit(command@),
{
    let ghost head = seq![text_field(1, command.executable@)];
    let ghost args = texts_fields(2, command@.arguments);
    let mut w = Writer::new();
    w.text(1, command.executable.as_str());
    assert(w.written@ =~= head + args.take(0));
    let mut i: usize = 0;
    while i < command.arguments.len()
        invariant
            i <= command.arguments.len(),
            w.wf(),
            command@.arguments == text_views(command.arguments@),
            args == texts_fields(2, command@.arguments),
            w.written@ == head + args.take(i as int),
        decreases command.arguments.len() - i,
    {
        w.text(2, command.arguments[i].as_str());
        assert(head + args.take(i as int + 1) =~= (head + args.take(i as int)).push(args[i as int]));
        i += 1;
    }
    assert(args.take(i as int) =~= args);
    match &command.working_tree {
        Some(tree) => {
            let bytes = encode_directory(tree);
            w.blob(3, bytes.as_slice());
            assert(w.written@ =~= command_fields(command@));
        },
        None => {
            assert(w.written@ =~= command_fields(command@));
        },
    }
    w.finish()
}

/// The bytes of a task request.
pub fn encode_request(request: &TaskRequest) -> (out: Vec<u8>)
    ensures
        out@ == request_bytes(request@),
        request_sizes_fit(request@),
{
    let mut w = Writer::new();
    w.text(1, request.id.as_str());
    match &request.command {
        Some(command) => {
            let bytes = encode_command(command);
            w.blob(2, bytes.as_slice());
        },
        None => {},
    }
    assert(w.written@ =~= request_fields(request@));
    w.finish()
}

/// The bytes of a task response.
pub fn encode_response(response: &TaskResponse) -> (out: Vec<u8>)
    ensures
        out@ == response_bytes(response@),
        response_fits(response@),
{
    let mut w = Writer::new();
    w.text(1, response.id.as_str());
    match &response.response {
        Some(result) => {
            let bytes = encode_result(result);
            w.blob(2, bytes.as_slice());
        },
        None => {},
    }
    assert(w.written@ =~= response_fields(response@));
    w.finish()
}

impl Frame {
    /// The bytes that stand for this frame on the wire. Every length in the
    /// frame fits its prefix.
    pub fn encode(&self) -> (out: Vec<u8>)
        ensures
            out@ == frame_bytes(self@),
            frame_sizes_fit(self@),
    {
        let mut w = Writer::new();
        match self {
            Frame::Init(identity) => {
                let bytes = encode_identity(identity);
                w.blob(1, bytes.as_slice());
            },
            Frame::TaskRequest(request) => {
                let bytes = encode_request(request);
                w.blob(2, bytes.as_slice());
            },
            Frame::TaskResponse(response) => {
                let bytes = encode_response(response);
                w.blob(3, bytes.as_slice());
            },
        }
        assert(w.written@ =~= frame_fields(self@));
        w.finish()
    }
}

impl Directory {
    /// Whether the directory nests no deeper than `budget` levels, itself
    /// included.
    pub fn depth_within(&self, budget: u32) -> (fits: bool)
        ensures
            fits == tree_depth_fits(self@, budget as nat),
        decreases budget,
    {
        proof {
            lemma_directory_view(*self);
        }
        if budget == 0 {
            return false;
        }
        let mut i: usize = 0;
        while i < self.subdirectories.len()
            invariant
                i <= self.subdirectories.len(),
                budget > 0,
                self@.subdirectories == directory_views(self.subdirectories@),
                forall|k: int|
                    0 <= k < i ==> tree_depth_fits(
                        #[trigger] self@.subdirectories[k],
                        (budget - 1) as nat,
                    ),
            decreases self.subdirectories.len() - i,
        {
            if !self.subdirectories[i].depth_within(budget - 1) {
                assert(!tree_depth_fits(self@.subdirectories[i as int], (budget - 1) as nat));
                return false;
            }
            i += 1;
        }
        true
    }
}

impl Frame {
    /// Whether a working tree in the frame, if there is one, nests no deeper
    /// than `MAX_TREE_DEPTH` levels: whether the frame can be read back.
    pub fn depth_fits(&self) -> (fits: bool)
        ensures
            fits == frame_depth_fits(self@),
    {
        match self {
            Frame::TaskRequest(request) => match &request.command {
                Some(command) => match &command.working_tree {
                    Some(tree) => tree.depth_within(MAX_TREE_DEPTH),
                    None => true,
                },
                None => true,
            },
            _ => true,
        }
    }
}

} // verus!
