//! What a runner does with a message from the hub, and how it reports back.

use vstd::prelude::*;
use futures::channel::mpsc::UnboundedSender;
use tokio_tungstenite::tungstenite::Message;
use crate::channel::{classify, enqueue, frame_message, kind_of, Incoming, IncomingView};
use crate::model::{Frame, FrameView, TaskResponse};
use crate::runner::task::{created, Task, TaskView};
use crate::wire::schema::{decode_frame, WireError};

verus! {

/// Why a message led to nothing.
#[derive(Debug, Clone, Copy, PartialEq, Eq, Structural)]
pub enum Dropped {
    /// The hub is closing the connection.
    Closing,
    /// The message is not binary.
    Unexpected,
    /// The payload is no frame.
    Undecodable(WireError),
    /// The frame is none that a hub sends to a runner.
    NotARequest,
}

/// What a message from the hub calls for.
#[derive(Debug, PartialEq, Eq)]
pub enum Handling {
    /// Run the task, then report its response.
    Execute(Task),
    /// Nothing, for the reason given.
    Dropped(Dropped),
}

pub enum HandlingView {
    Execute(TaskView),
    Dropped(Dropped),
}

impl View for Handling {
    type V = HandlingView;

    open spec fn view(&self) -> HandlingView {
        match self {
            Handling::Execute(task) => HandlingView::Execute(task@),
            Handling::Dropped(why) => HandlingView::Dropped(*why),
        }
    }
}

/// A runner acts on task requests alone: every binary message that decodes to
/// one becomes a task, and nothing else does.
pub open spec fn handling_of(incoming: IncomingView) -> HandlingView {
    match incoming {
        IncomingView::Close(_) => HandlingView::Dropped(Dropped::Closing),
        IncomingView::Other => HandlingView::Dropped(Dropped::Unexpected),
        IncomingView::Binary(bytes) => match decode_frame(bytes) {
            Err(e) => HandlingView::Dropped(Dropped::Undecodable(e)),
            Ok(FrameView::TaskRequest(request)) => HandlingView::Execute(created(request)),
            Ok(_) => HandlingView::Dropped(Dropped::NotARequest),
        },
    }
}

/// Decides what a message from the hub, already told apart by kind, calls
/// for.
pub fn handle_incoming(incoming: Incoming) -> (handling: Handling)
    ensures
        handling@ == handling_of(incoming@),
{
    match incoming {
        Incoming::Close(_) => Handling::Dropped(Dropped::Closing),
        Incoming::Other => Handling::Dropped(Dropped::Unexpected),
        Incoming::Binary(bytes) => match Frame::decode(bytes.as_slice()) {
            Err(e) => Handling::Dropped(Dropped::Undecodable(e)),
            Ok(Frame::TaskRequest(request)) => Handling::Execute(Task::new(request)),
            Ok(_) => Handling::Dropped(Dropped::NotARequest),
        },
    }
}

/// Decides what a websocket message from the hub calls for: what
/// `handling_of` says of its kind.
pub fn handle_message(msg: Message) -> (handling: Handling)
    ensures
        handling@ == handling_of(kind_of(msg)),
{
    handle_incoming(classify(msg))
}

/// The frame that reports `response`.
pub fn response_frame(response: TaskResponse) -> (frame: Frame)
    ensures
        frame@ == FrameView::TaskResponse(response@),
{
    Frame::TaskResponse(response)
}

/// Queues the report of `response` on the connection's outgoing queue.
/// Returns whether the queue took it.
pub fn handle_task_response(response: TaskResponse, tx: &UnboundedSender<Message>) -> bool {
    let frame = response_frame(response);
    enqueue(tx, frame_message(&frame)).is_ok()
}

} // verus!
