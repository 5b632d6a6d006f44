//! The outside channels that hub and runner talk through: the queue of outgoing
//! websocket messages of a connection, and the one-shot slot on which the caller
//! of a task waits for its result.

use vstd::prelude::*;
use futures::channel::mpsc::{TrySendError, UnboundedSender};
use tokio::sync::oneshot::{Receiver, Sender};
use tokio_tungstenite::tungstenite::protocol::frame::coding::CloseCode;
use tokio_tungstenite::tungstenite::protocol::CloseFrame;
use tokio_tungstenite::tungstenite::Message;
use crate::model::{CommandResult, Frame};
use crate::wire::schema::frame_bytes;

verus! {

/// The sending half of an unbounded queue.
#[verifier::external_type_specification]
#[verifier::external_body]
#[verifier::reject_recursive_types(T)]
pub struct ExUnboundedSender<T>(UnboundedSender<T>);

/// What `unbounded_send` returns when the receiving half is gone.
#[verifier::external_type_specification]
#[verifier::external_body]
#[verifier::reject_recursive_types(T)]
pub struct ExTrySendError<T>(TrySendError<T>);

/// A websocket message.
#[verifier::external_type_specification]
#[verifier::external_body]
pub struct ExMessage(Message);

/// The sending half of a one-shot slot.
#[verifier::external_type_specification]
#[verifier::external_body]
#[verifier::reject_recursive_types(T)]
pub struct ExSender<T>(Sender<T>);

/// The receiving half of a one-shot slot.
#[verifier::external_type_specification]
#[verifier::external_body]
#[verifier::reject_recursive_types(T)]
pub struct ExReceiver<T>(Receiver<T>);

/// What waiting on a slot gives when it was dropped unfulfilled. No function
/// here names it; it is declared because the receiving half cannot be
/// declared without it: waiting on that half yields it.
#[verifier::external_type_specification]
#[verifier::external_body]
pub struct ExRecvError(tokio::sync::oneshot::error::RecvError);

/// What the hub or a runner tells apart in an incoming websocket message.
#[derive(Debug, PartialEq, Eq)]
pub enum Incoming {
    /// A binary message with its payload.
    Binary(Vec<u8>),
    /// The other side is closing the connection, with this close code if it
    /// gives one.
    Close(Option<u16>),
    /// Text, ping, pong or a raw frame.
    Other,
}

pub enum IncomingView {
    Binary(Seq<u8>),
    Close(Option<u16>),
    Other,
}

impl View for Incoming {
    type V = IncomingView;

    open spec fn view(&self) -> IncomingView {
        match self {
            Incoming::Binary(bytes) => IncomingView::Binary(bytes@),
            Incoming::Close(code) => IncomingView::Close(*code),
            Incoming::Other => IncomingView::Other,
        }
    }
}

/// The close code that signals a policy violation.
pub const POLICY_VIOLATION: u16 = 1008;

/// The kind of a websocket message: the payload of a binary message, the
/// close code of a close message, and no more of any other.
pub uninterp spec fn kind_of(message: Message) -> IncomingView;

/// Tells the variants of a websocket message apart.
///
/// Trusted: matches on `tungstenite::Message`, whose variant and content the
/// crate names `kind_of`. A close code is read as its number, by
/// `tungstenite`'s conversion of `CloseCode` to `u16`.
#[verifier::external_body]
pub(crate) fn classify(message: Message) -> (incoming: Incoming)
    ensures
        incoming@ == kind_of(message),
{
    match message {
        Message::Binary(bytes) => Incoming::Binary(bytes),
        Message::Close(Some(frame)) => Incoming::Close(Some(frame.code.into())),
        Message::Close(None) => Incoming::Close(None),
        Message::Text(_) => Incoming::Other,
        Message::Ping(_) => Incoming::Other,
        Message::Pong(_) => Incoming::Other,
        Message::Frame(_) => Incoming::Other,
    }
}

/// A binary websocket message that carries `bytes`.
///
/// Trusted: builds `tungstenite::Message::Binary`, which `classify` tells as
/// binary with these bytes.
#[verifier::external_body]
pub(crate) fn binary_message(bytes: Vec<u8>) -> (message: Message)
    ensures
        kind_of(message) == IncomingView::Binary(bytes@),
{
    Message::Binary(bytes)
}

/// A close message with the given close code and no reason text.
///
/// Trusted: builds `tungstenite::Message::Close` around a `CloseFrame` whose
/// code is `CloseCode::from` of the number; converting that code back gives
/// the number again, for every number.
#[verifier::external_body]
pub(crate) fn close_message(code: u16) -> (message: Message)
    ensures
        kind_of(message) == IncomingView::Close(Some(code)),
{
    Message::Close(Some(CloseFrame { code: CloseCode::from(code), reason: "".into() }))
}

/// The binary message that carries `frame`, encoded.
pub fn frame_message(frame: &Frame) -> (message: Message)
    ensures
        kind_of(message) == IncomingView::Binary(frame_bytes(frame@)),
{
    binary_message(frame.encode())
}

/// The close message that signals a policy violation.
pub fn policy_close() -> (message: Message)
    ensures
        kind_of(message) == IncomingView::Close(Some(POLICY_VIOLATION)),
{
    close_message(POLICY_VIOLATION)
}

/// Queues `message` for sending.
///
/// Trusted: calls `UnboundedSender::unbounded_send`, which fails when the
/// receiving half is gone. Whether it is depends on the other task, so nothing
/// is claimed of the result. The call aborts where the queue already holds as
/// many messages as its counter can count, about half of `usize::MAX`.
#[verifier::external_body]
pub(crate) fn enqueue(channel: &UnboundedSender<Message>, message: Message) -> Result<
    (),
    TrySendError<Message>,
> {
    channel.unbounded_send(message)
}

/// The half that fulfils the slot on which `receiver` waits.
pub uninterp spec fn sender_of(receiver: Receiver<Option<CommandResult>>) -> Sender<
    Option<CommandResult>,
>;

/// A fresh one-shot slot: the half that fulfils it and the half that waits.
///
/// Trusted: calls `tokio::sync::oneshot::channel`, which makes the two halves
/// of one slot: what is sent on the first arrives on the second and nowhere
/// else. The crate names the first half of a second half `sender_of`.
#[verifier::external_body]
pub(crate) fn open_slot() -> (pair: (Sender<Option<CommandResult>>, Receiver<Option<CommandResult>>))
    ensures
        sender_of(pair.1) == pair.0,
{
    tokio::sync::oneshot::channel()
}

/// Fulfils a slot; hands the value back when nobody waits on it any more.
///
/// Trusted: calls `tokio::sync::oneshot::Sender::send`, which returns the value
/// in `Err` when the receiving half was dropped or closed, and does not change
/// it.
#[verifier::external_body]
pub(crate) fn fulfil<T>(slot: Sender<T>, value: T) -> (r: Result<(), T>)
    ensures
        r matches Err(back) ==> back == value,
{
    slot.send(value)
}

} // verus!
