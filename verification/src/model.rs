//! The data that travels between hub and runner, and the mathematical view of
//! each type that the contracts speak of.

use vstd::prelude::*;

verus! {

/// What an agent presents when it registers: the account it runs under and
/// the credential provisioned for it.
#[derive(Debug, PartialEq, Eq)]
pub struct Identity {
    pub handle: String,
    pub credential: String,
}

pub struct IdentityView {
    pub handle: Seq<char>,
    pub credential: Seq<char>,
}

impl View for Identity {
    type V = IdentityView;

    open spec fn view(&self) -> IdentityView {
        IdentityView { handle: self.handle@, credential: self.credential@ }
    }
}

/// One file of a working tree: its name and its content.
#[derive(Debug, PartialEq, Eq)]
pub struct FileEntry {
    pub name: String,
    pub bytes: Vec<u8>,
}

pub struct FileView {
    pub name: Seq<char>,
    pub bytes: Seq<u8>,
}

impl View for FileEntry {
    type V = FileView;

    open spec fn view(&self) -> FileView {
        FileView { name: self.name@, bytes: self.bytes@ }
    }
}

/// A snapshot of a directory: its files and, recursively, its subdirectories.
#[derive(Debug, PartialEq, Eq)]
pub struct Directory {
    pub name: String,
    pub files: Vec<FileEntry>,
    pub subdirectories: Vec<Directory>,
}

pub struct DirectoryView {
    pub name: Seq<char>,
    pub files: Seq<FileView>,
    pub subdirectories: Seq<DirectoryView>,
}

impl DirectoryView {
    /// The view of a directory without name or content.
    pub open spec fn empty() -> DirectoryView {
        DirectoryView { name: Seq::empty(), files: Seq::empty(), subdirectories: Seq::empty() }
    }
}

impl View for Directory {
    type V = DirectoryView;

    open spec fn view(&self) -> DirectoryView
        decreases self,
    {
        DirectoryView {
            name: self.name@,
            files: Seq::new(self.files@.len(), |i: int| self.files@[i]@),
            subdirectories: Seq::new(
                self.subdirectories@.len(),
                |i: int|
                    if 0 <= i < self.subdirectories@.len() {
                        self.subdirectories@[i]@
                    } else {
                        DirectoryView::empty()
                    },
            ),
        }
    }
}

/// The views of a vector of files, in order.
pub open spec fn file_views(files: Seq<FileEntry>) -> Seq<FileView> {
    Seq::new(files.len(), |i: int| files[i]@)
}

/// The views of a vector of directories, in order.
pub open spec fn directory_views(directories: Seq<Directory>) -> Seq<DirectoryView> {
    Seq::new(directories.len(), |i: int| directories[i]@)
}

/// The views of a vector of strings, in order.
pub open spec fn text_views(texts: Seq<String>) -> Seq<Seq<char>> {
    Seq::new(texts.len(), |i: int| texts[i]@)
}

/// The view of a directory lists the views of its files and subdirectories.
pub proof fn lemma_directory_view(directory: Directory)
    ensures
        directory@.name == directory.name@,
        directory@.files == file_views(directory.files@),
        directory@.subdirectories == directory_views(directory.subdirectories@),
{
    assert(directory@.files =~= file_views(directory.files@));
    assert(directory@.subdirectories =~= directory_views(directory.subdirectories@));
}

/// A command to run: the program, its arguments, and the tree of files to lay
/// out before it starts.
#[derive(Debug, PartialEq, Eq)]
pub struct CommandSpec {
    pub executable: String,
    pub arguments: Vec<String>,
    pub working_tree: Option<Directory>,
}

pub struct CommandSpecView {
    pub executable: Seq<char>,
    pub arguments: Seq<Seq<char>>,
    pub working_tree: Option<DirectoryView>,
}

impl View for CommandSpec {
    type V = CommandSpecView;

    open spec fn view(&self) -> CommandSpecView {
        CommandSpecView {
            executable: self.executable@,
            arguments: text_views(self.arguments@),
            working_tree: match self.working_tree {
                Some(tree) => Some(tree@),
                None => None,
            },
        }
    }
}

/// What a command left behind: its standard output followed by its standard
/// error, and its exit code.
#[derive(Debug, PartialEq, Eq)]
pub struct CommandResult {
    pub combined_output: String,
    pub exit_code: i64,
}

pub struct CommandResultView {
    pub combined_output: Seq<char>,
    pub exit_code: i64,
}

impl View for CommandResult {
    type V = CommandResultView;

    open spec fn view(&self) -> CommandResultView {
        CommandResultView { combined_output: self.combined_output@, exit_code: self.exit_code }
    }
}

/// A request to run a command, under the id that its response will carry.
#[derive(Debug, PartialEq, Eq)]
pub struct TaskRequest {
    pub id: String,
    pub command: Option<CommandSpec>,
}

pub struct TaskRequestView {
    pub id: Seq<char>,
    pub command: Option<CommandSpecView>,
}

impl View for TaskRequest {
    type V = TaskRequestView;

    open spec fn view(&self) -> TaskRequestView {
        TaskRequestView {
            id: self.id@,
            command: match self.command {
                Some(command) => Some(command@),
                None => None,
            },
        }
    }
}

/// The outcome of the task with the given id.
#[derive(Debug, PartialEq, Eq)]
pub struct TaskResponse {
    pub id: String,
    pub response: Option<CommandResult>,
}

pub struct TaskResponseView {
    pub id: Seq<char>,
    pub response: Option<CommandResultView>,
}

impl View for TaskResponse {
    type V = TaskResponseView;

    open spec fn view(&self) -> TaskResponseView {
        TaskResponseView {
            id: self.id@,
            response: match self.response {
                Some(response) => Some(response@),
                None => None,
            },
        }
    }
}

/// One unit of back-channel traffic.
#[derive(Debug, PartialEq, Eq)]
pub enum Frame {
    /// An agent announces who it is.
    Init(Identity),
    /// The hub asks an agent to run a command.
    TaskRequest(TaskRequest),
    /// An agent reports what a command left behind.
    TaskResponse(TaskResponse),
}

pub enum FrameView {
    Init(IdentityView),
    TaskRequest(TaskRequestView),
    TaskResponse(TaskResponseView),
}

impl View for Frame {
    type V = FrameView;

    open spec fn view(&self) -> FrameView {
        match self {
            Frame::Init(identity) => FrameView::Init(identity@),
            Frame::TaskRequest(request) => FrameView::TaskRequest(request@),
            Frame::TaskResponse(response) => FrameView::TaskResponse(response@),
        }
    }
}

} // verus!
