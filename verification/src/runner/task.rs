//! Running one task: lay out the sandbox, run the command in it, gather what
//! it printed, clean up, reply. The work outside happens between the steps of
//! `Task::advance`, which decides what comes next and never fails: whatever
//! goes wrong outside ends in a reply with the failure exit code.

use vstd::prelude::*;
use vstd::utf8::{encode_utf8, valid_utf8};
use crate::model::{
    text_views, CommandResult, CommandResultView, CommandSpec, CommandSpecView, TaskRequest,
    TaskRequestView, TaskResponse, TaskResponseView,
};
use crate::runner::sandbox::{
    copy_path, realise_steps, renamed, step_views, FsStep, FsStepView,
};
use crate::text::join;

verus! {

/// The exit code of a result that stands for a failure of the runner itself.
pub const FAILURE_EXIT_CODE: i64 = -1;

/// The exit code reported for a command that ended without one, as when a
/// signal killed it.
pub const MISSING_EXIT_CODE: i64 = 1;

/// The text that `bytes` spell when every malformed stretch is replaced by the
/// replacement character.
pub uninterp spec fn lossy_text(bytes: Seq<u8>) -> Seq<char>;

/// The text of captured output.
///
/// Trusted: calls `String::from_utf8_lossy`, whose result this crate names
/// `lossy_text`. Valid UTF-8 comes back as the text it spells.
#[verifier::external_body]
fn text_lossy(bytes: &[u8]) -> (text: String)
    ensures
        text@ == lossy_text(bytes@),
        valid_utf8(bytes@) ==> encode_utf8(text@) == bytes@,
{
    String::from_utf8_lossy(bytes).into_owned()
}

/// How far a task has got.
#[derive(Debug, Clone, Copy, PartialEq, Eq, Structural)]
pub enum Stage {
    /// Nothing has happened yet.
    Created,
    /// The sandbox is being laid out.
    Materialising,
    /// The command runs.
    Running,
    /// The sandbox is being removed; the result is known.
    Cleaning,
    /// The reply has been given.
    Finished,
}

/// What happened outside.
#[derive(Debug, PartialEq, Eq)]
pub enum Event {
    /// The task is to start.
    Begin,
    /// The sandbox is laid out in full.
    Materialised,
    /// Laying out the sandbox failed, with this error.
    MaterialiseFailed(String),
    /// The command could not be started, with this error.
    SpawnFailed(String),
    /// Waiting for the command failed, with this error.
    WaitFailed(String),
    /// The command ended: what it wrote to standard output and standard
    /// error, and its exit code if it has one.
    Exited { stdout: Vec<u8>, stderr: Vec<u8>, code: Option<i32> },
    /// The sandbox is gone, or could not be removed: either way.
    CleanedUp,
}

pub enum EventView {
    Begin,
    Materialised,
    MaterialiseFailed(Seq<char>),
    SpawnFailed(Seq<char>),
    WaitFailed(Seq<char>),
    Exited { stdout: Seq<u8>, stderr: Seq<u8>, code: Option<i32> },
    CleanedUp,
}

impl View for Event {
    type V = EventView;

    open spec fn view(&self) -> EventView {
        match self {
            Event::Begin => EventView::Begin,
            Event::Materialised => EventView::Materialised,
            Event::MaterialiseFailed(e) => EventView::MaterialiseFailed(e@),
            Event::SpawnFailed(e) => EventView::SpawnFailed(e@),
            Event::WaitFailed(e) => EventView::WaitFailed(e@),
            Event::Exited { stdout, stderr, code } => EventView::Exited {
                stdout: stdout@,
                stderr: stderr@,
                code: *code,
            },
            Event::CleanedUp => EventView::CleanedUp,
        }
    }
}

/// What to do next.
#[derive(Debug, PartialEq, Eq)]
pub enum Action {
    /// Carry out the steps, in order; stop at the first that fails.
    Materialise { steps: Vec<FsStep> },
    /// Start the program with the arguments, in the folder, capturing both
    /// of its output streams, and wait for it.
    Run { executable: String, arguments: Vec<String>, folder: String },
    /// Remove the folder and all that is in it.
    CleanUp { folder: String },
    /// Send the response: the task is over.
    Reply(TaskResponse),
    /// The event does not belong to the stage: carry on.
    Nothing,
}

pub enum ActionView {
    Materialise { steps: Seq<FsStepView> },
    Run { executable: Seq<char>, arguments: Seq<Seq<char>>, folder: Seq<char> },
    CleanUp { folder: Seq<char> },
    Reply(TaskResponseView),
    Nothing,
}

impl View for Action {
    type V = ActionView;

    open spec fn view(&self) -> ActionView {
        match self {
            Action::Materialise { steps } => ActionView::Materialise { steps: step_views(steps@) },
            Action::Run { executable, arguments, folder } => ActionView::Run {
                executable: executable@,
                arguments: text_views(arguments@),
                folder: folder@,
            },
            Action::CleanUp { folder } => ActionView::CleanUp { folder: folder@ },
            Action::Reply(response) => ActionView::Reply(response@),
            Action::Nothing => ActionView::Nothing,
        }
    }
}

/// One command to run, and how far it has got.
#[derive(Debug, PartialEq, Eq)]
pub struct Task {
    id: String,
    request: Option<CommandSpec>,
    stage: Stage,
    outcome: Option<CommandResult>,
}

pub struct TaskView {
    pub id: Seq<char>,
    pub request: Option<CommandSpecView>,
    pub stage: Stage,
    pub outcome: Option<CommandResultView>,
}

impl View for Task {
    type V = TaskView;

    closed spec fn view(&self) -> TaskView {
        TaskView {
            id: self.id@,
            request: match self.request {
                Some(command) => Some(command@),
                None => None,
            },
            stage: self.stage,
            outcome: match self.outcome {
                Some(result) => Some(result@),
                None => None,
            },
        }
    }
}

/// The task that a request asks for, before anything has happened.
pub open spec fn created(request: TaskRequestView) -> TaskView {
    TaskView { id: request.id, request: request.command, stage: Stage::Created, outcome: None }
}

/// The name of the sandbox of the task with the given id.
pub open spec fn folder_name(id: Seq<char>) -> Seq<char> {
    "runner-tmp-"@ + id
}

/// The place below which sandboxes are made: the runner's own working
/// directory.
pub open spec fn sandbox_root() -> Seq<Seq<char>> {
    seq!["."@]
}

/// The result that stands for a failure: the fixed exit code, and a message
/// that says what failed and why.
pub open spec fn failure(what: Seq<char>, why: Seq<char>) -> CommandResultView {
    CommandResultView {
        combined_output: "operation failed: "@ + what + why,
        exit_code: FAILURE_EXIT_CODE,
    }
}

/// The result of a command that ended, given the text of its two streams:
/// standard output, then standard error; the exit code, or
/// `MISSING_EXIT_CODE` where there is none.
pub open spec fn result_of(out: Seq<char>, err: Seq<char>, code: Option<i32>) -> CommandResultView {
    CommandResultView {
        combined_output: out + err,
        exit_code: match code {
            Some(status) => status as i64,
            None => MISSING_EXIT_CODE,
        },
    }
}

/// The result of a command that ended, given what its two streams hold.
pub open spec fn exited(stdout: Seq<u8>, stderr: Seq<u8>, code: Option<i32>) -> CommandResultView {
    result_of(lossy_text(stdout), lossy_text(stderr), code)
}

/// The task once its result is known and the sandbox is to be removed.
pub open spec fn cleaning(task: TaskView, outcome: CommandResultView) -> (TaskView, ActionView) {
    (
        TaskView { stage: Stage::Cleaning, outcome: Some(outcome), ..task },
        ActionView::CleanUp { folder: folder_name(task.id) },
    )
}

/// The task once it replies.
pub open spec fn replying(task: TaskView, outcome: Option<CommandResultView>) -> (
    TaskView,
    ActionView,
) {
    (
        TaskView { stage: Stage::Finished, outcome: None, ..task },
        ActionView::Reply(TaskResponseView { id: task.id, response: outcome }),
    )
}

/// The executor, one step at a time.
///
/// A task without a command or without a working tree replies at once with a
/// failure. Otherwise the sandbox is laid out, the command is run in it, and
/// whatever comes of that, the sandbox is removed before the reply is given.
pub open spec fn next(task: TaskView, event: EventView) -> (TaskView, ActionView) {
    match (task.stage, event) {
        (Stage::Created, EventView::Begin) => match task.request {
            None => replying(task, Some(failure("no command specified"@, Seq::empty()))),
            Some(command) => match command.working_tree {
                None => replying(task, Some(failure("no directory specified"@, Seq::empty()))),
                Some(tree) => (
                    TaskView { stage: Stage::Materialising, ..task },
                    ActionView::Materialise {
                        steps: realise_steps(renamed(tree, folder_name(task.id)), sandbox_root()),
                    },
                ),
            },
        },
        (Stage::Materialising, EventView::Materialised) => match task.request {
            Some(command) => (
                TaskView { stage: Stage::Running, ..task },
                ActionView::Run {
                    executable: command.executable,
                    arguments: command.arguments,
                    folder: folder_name(task.id),
                },
            ),
            None => cleaning(task, failure("no command specified"@, Seq::empty())),
        },
        (Stage::Materialising, EventView::MaterialiseFailed(why)) => cleaning(
            task,
            failure("failed to create working directory: "@, why),
        ),
        (Stage::Running, EventView::SpawnFailed(why)) => cleaning(
            task,
            failure("failed to execute command: "@, why),
        ),
        (Stage::Running, EventView::WaitFailed(why)) => cleaning(
            task,
            failure("failed to wait for command to finish: "@, why),
        ),
        (Stage::Running, EventView::Exited { stdout, stderr, code }) => cleaning(
            task,
            exited(stdout, stderr, code),
        ),
        (Stage::Cleaning, EventView::CleanedUp) => replying(task, task.outcome),
        _ => (task, ActionView::Nothing),
    }
}

/// The sandbox is always removed: a task that has begun to lay it out replies
/// only after the clean-up, and leaves the stages of laying out and running
/// only into the clean-up.
pub proof fn lemma_cleanup_comes_first(task: TaskView, event: EventView)
    ensures
        next(task, event).1 is Reply ==> task.stage == Stage::Cleaning || task.stage
            == Stage::Created,
        (task.stage == Stage::Materialising || task.stage == Stage::Running) && next(
            task,
            event,
        ).0.stage != task.stage && next(task, event).0.stage != Stage::Running ==> next(
            task,
            event,
        ).0.stage == Stage::Cleaning && next(task, event).1 == (ActionView::CleanUp {
            folder: folder_name(task.id),
        }),
        next(task, event).0.stage == Stage::Cleaning && task.stage != Stage::Cleaning ==> next(
            task,
            event,
        ).0.outcome.is_some(),
{
}

/// Whatever fails outside becomes a result with the failure exit code: the
/// task goes on to clean up and reply.
pub proof fn lemma_failures_become_results(task: TaskView, event: EventView)
    requires
        event is MaterialiseFailed || event is SpawnFailed || event is WaitFailed,
        next(task, event).1 != ActionView::Nothing,
    ensures
        next(task, event).0.stage == Stage::Cleaning,
        next(task, event).0.outcome matches Some(result) && result.exit_code
            == FAILURE_EXIT_CODE,
{
}

/// Whether an event is an answer to what was asked for.
pub open spec fn answers(action: ActionView, event: EventView) -> bool {
    match action {
        ActionView::Materialise { .. } => event is Materialised || event is MaterialiseFailed,
        ActionView::Run { .. } => event is SpawnFailed || event is WaitFailed || event is Exited,
        ActionView::CleanUp { .. } => event is CleanedUp,
        ActionView::Reply(_) => false,
        ActionView::Nothing => false,
    }
}

/// Every task replies: from its beginning, as long as each event answers what
/// was asked for, the fourth step at the latest is a reply, under the task's
/// id and with a result. No answer is ever met with nothing to do.
pub proof fn lemma_every_task_replies(
    task: TaskView,
    first: EventView,
    second: EventView,
    third: EventView,
)
    requires
        task.stage == Stage::Created,
        answers(next(task, EventView::Begin).1, first),
        answers(next(next(task, EventView::Begin).0, first).1, second),
    ensures
        !(next(task, EventView::Begin).1 is Nothing),
        !(next(next(task, EventView::Begin).0, first).1 is Nothing),
        ({
            let after = next(next(next(task, EventView::Begin).0, first).0, second);
            let last = if after.1 is Reply {
                after.1
            } else {
                next(after.0, third).1
            };
            answers(after.1, third) || after.1 is Reply ==> (last matches ActionView::Reply(
                response,
            ) && response.id == task.id && response.response.is_some())
        }),
{
}

/// A task that cannot begin replies at once, with a failure.
pub proof fn lemma_refusal_is_a_reply(task: TaskView)
    requires
        task.stage == Stage::Created,
        !answers(next(task, EventView::Begin).1, EventView::Materialised),
    ensures
        next(task, EventView::Begin).1 matches ActionView::Reply(response) && response.id
            == task.id && response.response.is_some() && response.response.unwrap().exit_code
            == FAILURE_EXIT_CODE,
{
}

/// The reply carries the id of the task, and the result exactly as it was
/// when the command ended: cleaning up does not change it.
pub proof fn lemma_reply_keeps_result(task: TaskView)
    requires
        task.stage == Stage::Cleaning,
    ensures
        next(task, EventView::CleanedUp).1 == ActionView::Reply(
            TaskResponseView { id: task.id, response: task.outcome },
        ),
{
}

/// The result of a command that ended, given the text of its two streams.
pub fn command_result(out: &str, err: &str, code: Option<i32>) -> (result: CommandResult)
    ensures
        result@ == result_of(out@, err@, code),
{
    CommandResult {
        combined_output: join(out, err),
        exit_code: match code {
            Some(status) => status as i64,
            None => MISSING_EXIT_CODE,
        },
    }
}

/// The result that stands for a failure: the fixed exit code, and a message
/// that says what failed and why.
pub fn failure_result(what: &str, why: &str) -> (result: CommandResult)
    ensures
        result@ == failure(what@, why@),
{
    let head = join("operation failed: ", what);
    let text = join(head.as_str(), why);
    assert(text@ =~= "operation failed: "@ + what@ + why@);
    CommandResult { combined_output: text, exit_code: FAILURE_EXIT_CODE }
}

impl Task {
    /// The task that `request` asks for.
    pub fn new(request: TaskRequest) -> (task: Task)
        ensures
            task@ == created(request@),
    {
        Task { id: request.id, request: request.command, stage: Stage::Created, outcome: None }
    }

    /// The id of the task.
    pub fn id(&self) -> (id: &String)
        ensures
            id@ == self@.id,
    {
        &self.id
    }

    /// How far the task has got.
    pub fn stage(&self) -> (stage: Stage)
        ensures
            stage == self@.stage,
    {
        self.stage
    }

    /// The name of the task's sandbox.
    pub fn folder(&self) -> (name: String)
        ensures
            name@ == folder_name(self@.id),
    {
        join("runner-tmp-", self.id.as_str())
    }

    /// Goes on to clean up, with the result that will be replied.
    fn clean_up(&mut self, outcome: CommandResult) -> (action: Action)
        ensures
            (final(self)@, action@) == cleaning(old(self)@, outcome@),
    {
        self.stage = Stage::Cleaning;
        self.outcome = Some(outcome);
        Action::CleanUp { folder: self.folder() }
    }

    /// Replies with a failure, before anything was laid out.
    fn refuse(&mut self, what: &str) -> (action: Action)
        ensures
            (final(self)@, action@) == replying(
                old(self)@,
                Some(failure(what@, Seq::empty())),
            ),
    {
        self.stage = Stage::Finished;
        self.outcome = None;
        let result = failure_result(what, "");
        proof {
            reveal_strlit("");
            assert(""@ =~= Seq::<char>::empty());
        }
        Action::Reply(TaskResponse { id: self.id.clone(), response: Some(result) })
    }

    /// Takes note of what happened outside and says what to do next.
    pub fn advance(&mut self, event: Event) -> (action: Action)
        ensures
            (final(self)@, action@) == next(old(self)@, event@),
    {
        match (self.stage, event) {
            (Stage::Created, Event::Begin) => {
                let steps = match &self.request {
                    None => None,
                    Some(command) => match &command.working_tree {
                        None => Some(None),
                        Some(tree) => {
                            let mut root: Vec<String> = Vec::new();
                            root.push(String::from_str("."));
                            assert(text_views(root@) =~= sandbox_root());
                            Some(Some(tree.realise_as(self.folder().as_str(), &root)))
                        },
                    },
                };
                match steps {
                    None => self.refuse("no command specified"),
                    Some(None) => self.refuse("no directory specified"),
                    Some(Some(steps)) => {
                        self.stage = Stage::Materialising;
                        Action::Materialise { steps }
                    },
                }
            },
            (Stage::Materialising, Event::Materialised) => {
                let run = match &self.request {
                    Some(command) => Some(
                        (command.executable.clone(), copy_path(&command.arguments)),
                    ),
                    None => None,
                };
                match run {
                    Some((executable, arguments)) => {
                        self.stage = Stage::Running;
                        Action::Run { executable, arguments, folder: self.folder() }
                    },
                    None => {
                        let result = failure_result("no command specified", "");
                        proof {
                            reveal_strlit("");
                            assert(""@ =~= Seq::<char>::empty());
                        }
                        self.clean_up(result)
                    },
                }
            },
            (Stage::Materialising, Event::MaterialiseFailed(why)) => {
                let result = failure_result("failed to create working directory: ", why.as_str());
                self.clean_up(result)
            },
            (Stage::Running, Event::SpawnFailed(why)) => {
                let result = failure_result("failed to execute command: ", why.as_str());
                self.clean_up(result)
            },
            (Stage::Running, Event::WaitFailed(why)) => {
                let result = failure_result(
                    "failed to wait for command to finish: ",
                    why.as_str(),
                );
                self.clean_up(result)
            },
            (Stage::Running, Event::Exited { stdout, stderr, code }) => {
                let out = text_lossy(stdout.as_slice());
                let err = text_lossy(stderr.as_slice());
                let result = command_result(out.as_str(), err.as_str(), code);
                self.clean_up(result)
            },
            (Stage::Cleaning, Event::CleanedUp) => {
                self.stage = Stage::Finished;
                let response = self.outcome.take();
                Action::Reply(TaskResponse { id: self.id.clone(), response })
            },
            _ => Action::Nothing,
        }
    }
}

} // verus!
