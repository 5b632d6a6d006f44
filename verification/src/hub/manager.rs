//! The manager that holds the peers and the tasks in flight, judges what
//! arrives on the back-channel, and routes requests to runners.

use vstd::prelude::*;
use futures::channel::mpsc::UnboundedSender;
use tokio::sync::oneshot::Receiver;
use tokio_tungstenite::tungstenite::Message;
use crate::channel::{classify, kind_of, open_slot, sender_of, Incoming, IncomingView};
use crate::hub::peers::{Peer, PeerMap, PeerView};
use crate::hub::tasks::{Completion, Slot, TaskList};
use crate::model::{
    CommandResult, CommandSpec, CommandSpecView, Frame, FrameView, Identity, IdentityView,
    TaskRequest, TaskRequestView, TaskResponse, TaskResponseView,
};
use crate::text::same_text;
use crate::wire::schema::decode_frame;

verus! {

/// A record of the user store: an account and the credential issued to it.
#[derive(Debug, PartialEq, Eq)]
pub struct User {
    pub zid: String,
    pub token: String,
}

pub struct UserView {
    pub zid: Seq<char>,
    pub token: Seq<char>,
}

impl View for User {
    type V = UserView;

    open spec fn view(&self) -> UserView {
        UserView { zid: self.zid@, token: self.token@ }
    }
}

/// Why a task could not be forwarded.
#[derive(Debug, Clone, Copy, PartialEq, Eq, Structural)]
pub enum ClientManagerError {
    /// No runner is registered for the identity.
    NoRunner,
    /// A task is pending under the id already.
    DuplicateTask,
}

/// What an incoming message calls for.
#[derive(Debug, PartialEq, Eq)]
pub enum Verdict {
    /// Nothing: the peer is closing the connection itself.
    Ignore,
    /// The peer broke the protocol: close it with a policy violation.
    Close,
    /// The peer asks to register: its identity has to be looked up.
    Lookup(Identity),
    /// A runner reports the outcome of a task.
    Complete(TaskResponse),
}

pub enum VerdictView {
    Ignore,
    Close,
    Lookup(IdentityView),
    Complete(TaskResponseView),
}

impl View for Verdict {
    type V = VerdictView;

    open spec fn view(&self) -> VerdictView {
        match self {
            Verdict::Ignore => VerdictView::Ignore,
            Verdict::Close => VerdictView::Close,
            Verdict::Lookup(identity) => VerdictView::Lookup(identity@),
            Verdict::Complete(response) => VerdictView::Complete(response@),
        }
    }
}

/// The rules of the back-channel. Only binary messages that decode to a frame
/// are in order; an unregistered peer may only send `Init`; a registered peer
/// may only send task responses.
pub open spec fn verdict_on(registered: bool, incoming: IncomingView) -> VerdictView {
    match incoming {
        IncomingView::Close(_) => VerdictView::Ignore,
        IncomingView::Other => VerdictView::Close,
        IncomingView::Binary(bytes) => match decode_frame(bytes) {
            Err(_) => VerdictView::Close,
            Ok(FrameView::Init(identity)) => if registered {
                VerdictView::Close
            } else {
                VerdictView::Lookup(identity)
            },
            Ok(FrameView::TaskRequest(_)) => VerdictView::Close,
            Ok(FrameView::TaskResponse(response)) => if registered {
                VerdictView::Complete(response)
            } else {
                VerdictView::Close
            },
        },
    }
}

/// Judges an incoming message from a peer that is or is not registered.
pub fn judge(registered: bool, incoming: Incoming) -> (verdict: Verdict)
    ensures
        verdict@ == verdict_on(registered, incoming@),
{
    match incoming {
        Incoming::Close(_) => Verdict::Ignore,
        Incoming::Other => Verdict::Close,
        Incoming::Binary(bytes) => match Frame::decode(bytes.as_slice()) {
            Err(_) => Verdict::Close,
            Ok(Frame::Init(identity)) => if registered {
                Verdict::Close
            } else {
                Verdict::Lookup(identity)
            },
            Ok(Frame::TaskRequest(_)) => Verdict::Close,
            Ok(Frame::TaskResponse(response)) => if registered {
                Verdict::Complete(response)
            } else {
                Verdict::Close
            },
        },
    }
}

/// An unregistered peer stays connected only on a frame that decodes to
/// `Init`, or when it closes the connection itself: everything else gets it
/// closed.
pub proof fn lemma_unregistered_peer_must_init(incoming: IncomingView)
    ensures
        verdict_on(false, incoming) is Close <==> !(incoming is Close) && !(
        incoming matches IncomingView::Binary(bytes) && decode_frame(bytes) matches Ok(
            FrameView::Init(_),
        )),
        !(verdict_on(false, incoming) is Complete),
{
}

/// A registered peer that sends another `Init` is closed.
pub proof fn lemma_second_init_closes(bytes: Seq<u8>)
    requires
        decode_frame(bytes) matches Ok(FrameView::Init(_)),
    ensures
        verdict_on(true, IncomingView::Binary(bytes)) is Close,
{
}

/// Whether the user record confirms the identity that a peer announced: there
/// is a record, and it carries that handle and that credential.
pub open spec fn record_confirms(user: Option<UserView>, identity: IdentityView) -> bool {
    user matches Some(record) && record.zid == identity.handle && record.token
        == identity.credential
}

/// What the hub did about a peer.
#[derive(Debug, PartialEq, Eq)]
pub enum Reaction {
    /// No peer is known under the address.
    UnknownPeer,
    /// Nothing was called for.
    Ignored,
    /// The peer was closed with a policy violation and dropped from the
    /// registry.
    Closed,
    /// The peer asks to register: the user record of this identity is now to be
    /// looked up and handed to `handle_registration`.
    Lookup(Identity),
    /// The peer is now registered.
    Registered,
    /// A task response was taken; this is what became of it.
    Completed(Completion),
}

/// What handling a message of the kind `incoming` from the peer under `address`
/// comes to, from the peers and tasks before to the reaction and the peers and
/// tasks after.
///
/// A message from a peer that is not known changes nothing. A peer that
/// breaks the rules of `verdict_on` is closed and dropped. A request to
/// register changes nothing yet. A task response completes the task it names
/// and no other.
pub open spec fn reaction_to(
    peers: Map<u64, PeerView>,
    tasks: Map<Seq<char>, Slot>,
    incoming: IncomingView,
    address: u64,
    reaction: Reaction,
    peers_after: Map<u64, PeerView>,
    tasks_after: Map<Seq<char>, Slot>,
) -> bool {
    if !peers.dom().contains(address) {
        reaction is UnknownPeer && peers_after == peers && tasks_after == tasks
    } else {
        match verdict_on(peers[address].identity.is_some(), incoming) {
            VerdictView::Ignore => reaction is Ignored && peers_after == peers && tasks_after
                == tasks,
            VerdictView::Close => reaction is Closed && peers_after == peers.remove(address)
                && tasks_after == tasks,
            VerdictView::Lookup(identity) => reaction matches Reaction::Lookup(found) && found@
                == identity && peers_after == peers && tasks_after == tasks,
            VerdictView::Complete(response) => reaction matches Reaction::Completed(outcome) && (
            outcome == Completion::Stale <==> !tasks.dom().contains(response.id)) && peers_after
                == peers && tasks_after == tasks.remove(response.id),
        }
    }
}

/// What a caller of `forward_task` holds while it waits.
#[derive(Debug)]
pub struct Ticket {
    /// The id under which the task was issued.
    pub task_id: String,
    /// Where the result will arrive.
    pub receiver: Receiver<Option<CommandResult>>,
    /// Whether the runner's queue took the request.
    pub sent: bool,
}

/// A task that was filed and is ready to be sent.
#[derive(Debug)]
pub struct Dispatch {
    /// The address of the runner the task goes to.
    pub runner: u64,
    /// The frame to send to it.
    pub frame: Frame,
    /// Where the result will arrive.
    pub receiver: Receiver<Option<CommandResult>>,
}

/// The frame that asks a runner to run `task` under `id`.
pub open spec fn request_frame(id: Seq<char>, task: CommandSpecView) -> FrameView {
    FrameView::TaskRequest(TaskRequestView { id, command: Some(task) })
}

/// A fresh task id.
///
/// Trusted: calls `uuid::Uuid::new_v4` and formats the result. The id is
/// random, so nothing is claimed of it. The call aborts where the operating
/// system has no random bytes to give.
#[verifier::external_body]
fn fresh_task_id() -> String {
    uuid::Uuid::new_v4().to_string()
}

/// The manager that contains all peer data, handles message routing, and
/// executes orders against connected runners.
pub struct ClientManager {
    /// The map of peers.
    pub peers: PeerMap,
    /// The list of tasks.
    pub tasks: TaskList,
}

impl ClientManager {
    /// A manager without peers or tasks.
    pub fn new() -> (manager: ClientManager)
        ensures
            manager.peers@ == Map::<u64, PeerView>::empty(),
            manager.tasks@ == Map::<Seq<char>, Slot>::empty(),
    {
        ClientManager { peers: PeerMap::new(), tasks: TaskList::new() }
    }

    /// Records a freshly accepted connection: a peer that has not registered.
    pub fn accept(&mut self, address: u64, tx: UnboundedSender<Message>)
        ensures
            final(self).peers@ == old(self).peers@.insert(
                address,
                PeerView { channel: tx, identity: None },
            ),
            final(self).tasks@ == old(self).tasks@,
    {
        self.peers.insert(address, Peer::new(tx));
    }

    /// Forgets the peer of a connection that went away. Returns whether there
    /// was one.
    pub fn disconnected(&mut self, address: u64) -> (known: bool)
        ensures
            known == old(self).peers@.dom().contains(address),
            final(self).peers@ == old(self).peers@.remove(address),
            final(self).tasks@ == old(self).tasks@,
    {
        self.peers.remove(address).is_some()
    }

    /// Closes the peer under `address` with a policy violation and drops it.
    fn close_peer(&mut self, address: u64)
        ensures
            final(self).peers@ == old(self).peers@.remove(address),
            final(self).tasks@ == old(self).tasks@,
    {
        match self.peers.remove(address) {
            Some(peer) => {
                peer.close_with_policy();
            },
            None => {},
        }
    }

    /// Handles what a peer sent, already told apart by kind.
    ///
    /// A peer that breaks the rules of `verdict_on` is closed with a policy
    /// violation and dropped. A request to register changes nothing yet. A task
    /// response completes the task it names and no other.
    pub fn handle_incoming(&mut self, incoming: Incoming, address: u64) -> (reaction: Reaction)
        ensures
            reaction_to(
                old(self).peers@,
                old(self).tasks@,
                incoming@,
                address,
                reaction,
                final(self).peers@,
                final(self).tasks@,
            ),
    {
        let registered = match self.peers.get(address) {
            Some(peer) => peer.is_registered(),
            None => {
                return Reaction::UnknownPeer;
            },
        };
        match judge(registered, incoming) {
            Verdict::Ignore => Reaction::Ignored,
            Verdict::Close => {
                self.close_peer(address);
                Reaction::Closed
            },
            Verdict::Lookup(identity) => Reaction::Lookup(identity),
            Verdict::Complete(response) => Reaction::Completed(self.tasks.complete_task(response)),
        }
    }

    /// Handles a websocket message from the peer under `address`: what
    /// `reaction_to` says of its kind.
    ///
    /// A message from a peer that is not known changes nothing. A message
    /// from a known peer is left alone, or gets the peer closed and dropped, or
    /// asks for a registration, or completes the task that it names and no
    /// other, as the rules of `verdict_on` say of the kind of the message.
    pub fn handle_message(&mut self, msg: Message, address: u64) -> (reaction: Reaction)
        ensures
            reaction_to(
                old(self).peers@,
                old(self).tasks@,
                kind_of(msg),
                address,
                reaction,
                final(self).peers@,
                final(self).tasks@,
            ),
    {
        self.handle_incoming(classify(msg), address)
    }

    /// Finishes the registration of the peer under `address`, which announced
    /// `message`, with the user record that the lookup gave.
    ///
    /// The peer becomes registered if it was not yet and the record confirms
    /// its identity. Otherwise it is closed with a policy violation and
    /// dropped.
    pub fn handle_registration(
        &mut self,
        address: u64,
        message: Identity,
        user: Option<User>,
    ) -> (reaction: Reaction)
        ensures
            final(self).tasks@ == old(self).tasks@,
            !old(self).peers@.dom().contains(address) ==> reaction is UnknownPeer && final(self).peers@ == old(self).peers@,
            old(self).peers@.dom().contains(address) ==> if old(self).peers@[address].identity.is_none() && record_confirms(
                match user {
                    Some(record) => Some(record@),
                    None => None,
                },
                message@,
            ) {
                reaction is Registered && final(self).peers@ == old(self).peers@.insert(
                    address,
                    PeerView {
                        channel: old(self).peers@[address].channel,
                        identity: Some(message@),
                    },
                )
            } else {
                reaction is Closed && final(self).peers@ == old(self).peers@.remove(address)
            },
    {
        let registered = match self.peers.get(address) {
            Some(peer) => peer.is_registered(),
            None => {
                return Reaction::UnknownPeer;
            },
        };
        let confirmed = match &user {
            Some(record) => same_text(record.zid.as_str(), message.handle.as_str()) && same_text(
                record.token.as_str(),
                message.credential.as_str(),
            ),
            None => false,
        };
        if !registered && confirmed {
            self.peers.register(address, message);
            Reaction::Registered
        } else {
            self.close_peer(address);
            Reaction::Closed
        }
    }

    /// Called when the grace period of the peer under `address` is over: a peer
    /// that has not registered by then is closed with a policy violation and
    /// dropped.
    pub fn registration_expired(&mut self, address: u64) -> (reaction: Reaction)
        ensures
            final(self).tasks@ == old(self).tasks@,
            if old(self).peers@.dom().contains(address) && old(self).peers@[address].identity.is_none() {
                reaction is Closed && final(self).peers@ == old(self).peers@.remove(address)
            } else {
                reaction is Ignored && final(self).peers@ == old(self).peers@
            },
    {
        let unregistered = match self.peers.get(address) {
            Some(peer) => !peer.is_registered(),
            None => false,
        };
        if unregistered {
            self.close_peer(address);
            Reaction::Closed
        } else {
            Reaction::Ignored
        }
    }

    /// Whether some peer is registered for the handle.
    pub open spec fn has_runner(peers: Map<u64, PeerView>, zid: Seq<char>) -> bool {
        exists|address: u64| peers.dom().contains(address) && (#[trigger] peers[address]).runs_for(zid)
    }

    /// Files `task` under `task_id` for a runner of `zid`: picks the runner and
    /// registers a fresh slot for the result, whose other half it hands out:
    /// completing the id resumes whoever waits on that receiver.
    ///
    /// Fails with `NoRunner` exactly if no peer is registered for `zid`, and
    /// else with `DuplicateTask` exactly if a task is pending under the id.
    pub fn prepare(&mut self, zid: &str, task: CommandSpec, task_id: String) -> (r: Result<
        Dispatch,
        ClientManagerError,
    >)
        ensures
            final(self).peers@ == old(self).peers@,
            match r {
                Ok(dispatch) => {
                    &&& old(self).peers@.dom().contains(dispatch.runner)
                    &&& old(self).peers@[dispatch.runner].runs_for(zid@)
                    &&& dispatch.frame@ == request_frame(task_id@, task@)
                    &&& !old(self).tasks@.dom().contains(task_id@)
                    &&& final(self).tasks@ == old(self).tasks@.insert(
                        task_id@,
                        sender_of(dispatch.receiver),
                    )
                },
                Err(ClientManagerError::NoRunner) => !Self::has_runner(old(self).peers@, zid@)
                    && final(self).tasks@ == old(self).tasks@,
                Err(ClientManagerError::DuplicateTask) => Self::has_runner(old(self).peers@, zid@)
                    && old(self).tasks@.dom().contains(task_id@) && final(self).tasks@ == old(self).tasks@,
            },
    {
        let runner = match self.peers.find_runner(zid) {
            Some(address) => address,
            None => {
                return Err(ClientManagerError::NoRunner);
            },
        };
        if self.tasks.is_pending(task_id.as_str()) {
            return Err(ClientManagerError::DuplicateTask);
        }
        let (tx, rx) = open_slot();
        let id = task_id.clone();
        self.tasks.add_task(task_id, tx);
        let frame = Frame::TaskRequest(TaskRequest { id, command: Some(task) });
        Ok(Dispatch { runner, frame, receiver: rx })
    }

    /// Forwards `task` to a runner that is registered for `zid`, under a fresh
    /// task id, and returns the ticket on which to wait for the result.
    ///
    /// Fails with `NoRunner` exactly if no peer is registered for `zid`; then,
    /// as on any failure, nothing has changed. With a runner registered, the
    /// call can only fail where the id it drew is pending already, so it
    /// succeeds whenever no task is pending. On success exactly one task has
    /// been added to the pending ones, under the id on the ticket, and its slot
    /// is the one that the receiver on the ticket waits on: completing that id
    /// resumes this caller.
    pub fn forward_task(&mut self, zid: &str, task: CommandSpec) -> (r: Result<
        Ticket,
        ClientManagerError,
    >)
        ensures
            final(self).peers@ == old(self).peers@,
            r == Err::<Ticket, ClientManagerError>(ClientManagerError::NoRunner)
                <==> !Self::has_runner(old(self).peers@, zid@),
            r matches Err(ClientManagerError::DuplicateTask) ==> exists|id: Seq<char>|
                old(self).tasks@.dom().contains(id),
            match r {
                Ok(ticket) => {
                    &&& !old(self).tasks@.dom().contains(ticket.task_id@)
                    &&& final(self).tasks@ == old(self).tasks@.insert(
                        ticket.task_id@,
                        sender_of(ticket.receiver),
                    )
                },
                Err(_) => final(self).tasks@ == old(self).tasks@,
            },
    {
        if self.peers.find_runner(zid).is_none() {
            return Err(ClientManagerError::NoRunner);
        }
        let task_id = fresh_task_id();
        let id = task_id.clone();
        match self.prepare(zid, task, task_id) {
            Ok(dispatch) => {
                let sent = match self.peers.get(dispatch.runner) {
                    Some(peer) => peer.send_socket_frame(&dispatch.frame),
                    None => false,
                };
                Ok(Ticket { task_id: id, receiver: dispatch.receiver, sent })
            },
            Err(e) => Err(e),
        }
    }
}

} // verus!
