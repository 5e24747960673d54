//! The Remote Channel: a bidirectional, non-blocking command/response
//! transport pairing a `Requester` (usable by any thread) with a `Responder`
//! (held by the resource-owning thread).
//!
//! Commands travel one way, responses the other, both over unbounded FIFO
//! queues; neither side ever blocks the other.  The responder applies
//! commands in arrival order through [`OwnedResource::apply`]; what one
//! drain does to the resource, and in which order responses come back, is
//! pinned by [`process_commands`] and the FIFO law [`lemma_fifo_order`].

use crate::resource::OwnedResource;
use crate::transport::{
    new_queue, queue_len, queue_receiver_clone, queue_send, queue_sender_clone, queue_try_recv,
    RecvAttempt,
};
use crate::ChannelClosed;
use vstd::prelude::*;

verus! {

/// What the requester gets back for one command: the resource's own
/// response, or word that the command was refused because the owner was
/// already shutting down (the `ResourceCommandRejected` condition — a
/// response value, not a channel failure, so the sender can tell an
/// untimely request from a dead channel).
#[derive(Clone, Copy, Debug, PartialEq, Eq)]
pub enum ResourceResponse<R> {
    /// The command was applied; this is its response.
    Applied(R),
    /// The command arrived while the owner was `ShuttingDown` or `Closed`
    /// and was refused; the resource is unchanged.
    Rejected,
}

/// The lifecycle of an owned resource behind its responder.
#[derive(Clone, Copy, Debug, PartialEq, Eq, Structural)]
pub enum LifecyclePhase {
    /// No resource bound yet; `open` never exposes this phase, since binding
    /// the resource is what initializes the pair.
    Uninitialized,
    /// Commands are drained and applied.
    Running,
    /// Shutdown observed: queued commands are still drained and answered,
    /// each with `Rejected`, so no in-flight acknowledgement is lost; then
    /// the responder closes.
    ShuttingDown,
    /// No command will ever be applied again.
    Closed,
}

/// The single step the lifecycle may take: forward, never back.
pub open spec fn phase_step(from: LifecyclePhase, to: LifecyclePhase) -> bool {
    ||| from == to
    ||| (from == LifecyclePhase::Uninitialized && to == LifecyclePhase::Running)
    ||| (from == LifecyclePhase::Running && to == LifecyclePhase::ShuttingDown)
    ||| (from == LifecyclePhase::ShuttingDown && to == LifecyclePhase::Closed)
}

/// The resource after a whole command batch is applied in order.
pub open spec fn apply_outcome<C, R, T: OwnedResource<C, R>>(t: T, cs: Seq<C>) -> T
    decreases cs.len(),
{
    if cs.len() <= 0 {
        t
    } else {
        apply_outcome(t.next_state(cs[0]), cs.drop_first())
    }
}

/// The responses a command batch produces, in the order of the commands
/// that produced them; fire-and-forget commands contribute nothing.
pub open spec fn applied_responses<C, R, T: OwnedResource<C, R>>(t: T, cs: Seq<C>) -> Seq<
    ResourceResponse<R>,
>
    decreases cs.len(),
{
    if cs.len() <= 0 {
        Seq::empty()
    } else {
        let head: Seq<ResourceResponse<R>> = match t.response_for(cs[0]) {
            Option::Some(r) => seq![ResourceResponse::Applied(r)],
            Option::None => Seq::empty(),
        };
        head + applied_responses(t.next_state(cs[0]), cs.drop_first())
    }
}

/// Processing one more command is applying it to the outcome of the batch
/// before it.
pub proof fn lemma_process_snoc<C, R, T: OwnedResource<C, R>>(t: T, cs: Seq<C>, c: C)
    ensures
        apply_outcome(t, cs.push(c)) == apply_outcome(t, cs).next_state(c),
        applied_responses(t, cs.push(c)) == applied_responses(t, cs) + (match apply_outcome(
            t,
            cs,
        ).response_for(c) {
            Option::Some(r) => seq![ResourceResponse::<R>::Applied(r)],
            Option::None => Seq::<ResourceResponse<R>>::empty(),
        }),
    decreases cs.len(),
{
    if cs.len() <= 0 {
        assert(cs.push(c)[0] == c);
        assert(cs.push(c).drop_first() =~= Seq::<C>::empty());
        assert(apply_outcome(t.next_state(c), Seq::<C>::empty()) == t.next_state(c));
        assert(applied_responses(t.next_state(c), Seq::<C>::empty()) == Seq::<
            ResourceResponse<R>,
        >::empty());
        assert(applied_responses(t, cs.push(c)) =~= applied_responses(t, cs) + (match apply_outcome(
            t,
            cs,
        ).response_for(c) {
            Option::Some(r) => seq![ResourceResponse::<R>::Applied(r)],
            Option::None => Seq::<ResourceResponse<R>>::empty(),
        }));
    } else {
        assert(cs.push(c)[0] == cs[0]);
        assert(cs.push(c).drop_first() =~= cs.drop_first().push(c));
        lemma_process_snoc(t.next_state(cs[0]), cs.drop_first(), c);
        assert(applied_responses(t, cs.push(c)) =~= applied_responses(t, cs) + (match apply_outcome(
            t,
            cs,
        ).response_for(c) {
            Option::Some(r) => seq![ResourceResponse::<R>::Applied(r)],
            Option::None => Seq::<ResourceResponse<R>>::empty(),
        }));
    }
}

/// The FIFO law: for any two command batches sent in order, the responder
/// observes exactly the concatenation — processing `first + second` is
/// processing `first` and then `second` against the resource `first` left
/// behind — and the responses come back concatenated in the same relative
/// order.
pub proof fn lemma_fifo_order<C, R, T: OwnedResource<C, R>>(t: T, first: Seq<C>, second: Seq<C>)
    ensures
        apply_outcome(t, first + second) == apply_outcome(apply_outcome(t, first), second),
        applied_responses(t, first + second) == applied_responses(t, first) + applied_responses(
            apply_outcome(t, first),
            second,
        ),
    decreases first.len(),
{
    if first.len() <= 0 {
        assert(first + second =~= second);
        assert(applied_responses(t, first) + applied_responses(apply_outcome(t, first), second)
            =~= applied_responses(t, second));
    } else {
        assert((first + second)[0] == first[0]);
        assert((first + second).drop_first() =~= first.drop_first() + second);
        lemma_fifo_order(t.next_state(first[0]), first.drop_first(), second);
        assert(applied_responses(t, first + second) =~= applied_responses(t, first)
            + applied_responses(apply_outcome(t, first), second));
    }
}

/// Apply a drained command batch to the resource, in order, collecting the
/// responses in the same order.
pub fn process_commands<C, R, T: OwnedResource<C, R>>(resource: &mut T, commands: Vec<C>) -> (responses: Vec<
    ResourceResponse<R>,
>)
    ensures
        *final(resource) == apply_outcome(*old(resource), commands@),
        responses@ == applied_responses(*old(resource), commands@),
{
    let ghost all = commands@;
    let ghost t0 = *resource;
    let mut remaining = commands;
    let mut responses: Vec<ResourceResponse<R>> = Vec::new();
    let n = remaining.len();
    let mut i: usize = 0;
    while i < n
        invariant
            i <= n,
            n == all.len(),
            remaining@ == all.skip(i as int),
            *resource == apply_outcome(t0, all.take(i as int)),
            responses@ == applied_responses(t0, all.take(i as int)),
        decreases n - i,
    {
        let c = remaining.remove(0);
        proof {
            assert(all.skip(i as int)[0] == all[i as int]);
            assert(all.skip(i as int).remove(0) =~= all.skip(i + 1));
            assert(all.take(i + 1).drop_last() =~= all.take(i as int));
            assert(all.take(i + 1) =~= all.take(i as int).push(all[i as int]));
            lemma_process_snoc(t0, all.take(i as int), all[i as int]);
        }
        let r = resource.apply(c);
        match r {
            Option::Some(resp) => responses.push(ResourceResponse::Applied(resp)),
            Option::None => {},
        }
        i += 1;
    }
    proof {
        assert(all.take(n as int) =~= all);
    }
    responses
}

/// The sending end of a Remote Channel: enqueues commands for asynchronous
/// application and drains whatever responses have come back, never
/// blocking.  May be shared across the requesting thread through
/// [`Requester::clone_handle`].
#[verifier::reject_recursive_types(C)]
#[verifier::reject_recursive_types(R)]
pub struct Requester<C, R> {
    commands: crossbeam_channel::Sender<C>,
    responses: crossbeam_channel::Receiver<ResourceResponse<R>>,
}

/// The receiving end of a Remote Channel, held by the thread that owns the
/// resource.  Not shareable: exactly one thread drains it.
#[verifier::reject_recursive_types(C)]
#[verifier::reject_recursive_types(R)]
pub struct Responder<C, R, T> {
    resource: T,
    phase: LifecyclePhase,
    commands: crossbeam_channel::Receiver<C>,
    responses: crossbeam_channel::Sender<ResourceResponse<R>>,
}

/// Bind a fresh command/response pair to an owned resource instance.  The
/// resource moves into the responder, which starts `Running`.
pub fn open<C, R, T>(resource: T) -> (pair: (Requester<C, R>, Responder<C, R, T>))
    ensures
        pair.1.state() == resource,
        pair.1.phase() == LifecyclePhase::Running,
{
    let (cmd_tx, cmd_rx) = new_queue::<C>();
    let (resp_tx, resp_rx) = new_queue::<ResourceResponse<R>>();
    (
        Requester { commands: cmd_tx, responses: resp_rx },
        Responder {
            resource,
            phase: LifecyclePhase::Running,
            commands: cmd_rx,
            responses: resp_tx,
        },
    )
}

impl<C, R> Requester<C, R> {
    /// Enqueue a command for asynchronous application.  Never blocks and
    /// returns immediately; fails exactly when the paired responder has
    /// been dropped, and then the only error signalled is `ChannelClosed` —
    /// the caller decides whether to drop the request or surface the
    /// failure.
    pub fn send(&self, command: C) -> (r: Result<(), ChannelClosed>)
        ensures
            r matches Err(e) ==> e == ChannelClosed,
    {
        match queue_send(&self.commands, command) {
            Result::Ok(()) => Result::Ok(()),
            Result::Err(_lost) => Result::Err(ChannelClosed),
        }
    }

    /// Another handle on the same channel, for sharing across the
    /// requesting thread.  Commands from every handle join the one command
    /// queue; each response is drained by exactly one handle.
    pub fn clone_handle(&self) -> Requester<C, R> {
        Requester {
            commands: queue_sender_clone(&self.commands),
            responses: queue_receiver_clone(&self.responses),
        }
    }

    /// Drain every response queued at the moment of the call, in the order
    /// the owner produced them.  Never blocks; empty when nothing is
    /// pending.
    pub fn try_recv_responses(&self) -> Vec<ResourceResponse<R>> {
        let pending = queue_len(&self.responses);
        let mut out: Vec<ResourceResponse<R>> = Vec::new();
        let mut i: usize = 0;
        while i < pending
            decreases pending - i,
        {
            match queue_try_recv(&self.responses) {
                RecvAttempt::Received(r) => out.push(r),
                RecvAttempt::Empty => {
                    return out;
                },
                RecvAttempt::Disconnected => {
                    return out;
                },
            }
            i += 1;
        }
        out
    }
}

impl<C, R, T> Responder<C, R, T> {
    /// The resource as the responder holds it.
    pub closed spec fn state(self) -> T {
        self.resource
    }

    /// Where the resource stands in its lifecycle.
    pub closed spec fn phase(self) -> LifecyclePhase {
        self.phase
    }

    /// Where the resource stands in its lifecycle, on the owning thread.
    pub fn current_phase(&self) -> (p: LifecyclePhase)
        ensures
            p == self.phase(),
    {
        self.phase
    }

    /// Read the owned resource, on the owning thread.
    pub fn resource(&self) -> (r: &T)
        ensures
            *r == self.state(),
    {
        &self.resource
    }

    /// Unbind the resource, dropping the responder's end of the channel.
    pub fn into_resource(self) -> (r: T)
        ensures
            r == self.state(),
    {
        self.resource
    }

    /// Observe the shutdown signal: a running responder stops accepting
    /// work and moves to `ShuttingDown`; any other phase is unchanged.
    pub fn begin_shutdown(&mut self)
        ensures
            final(self).state() == old(self).state(),
            final(self).phase() == (if old(self).phase() == LifecyclePhase::Running {
                LifecyclePhase::ShuttingDown
            } else {
                old(self).phase()
            }),
            phase_step(old(self).phase(), final(self).phase()),
    {
        if let LifecyclePhase::Running = self.phase {
            self.phase = LifecyclePhase::ShuttingDown;
        }
    }
}

impl<C, R, T: OwnedResource<C, R>> Responder<C, R, T> {
    /// On the owning thread: drain every command queued at the moment of
    /// the call and answer each, in arrival order.  `Running`, each command
    /// is applied and its response (if its type has one) queued back.
    /// `ShuttingDown` or `Closed`, each command is refused with `Rejected`
    /// instead — acknowledged, never silently dropped — and a draining
    /// `ShuttingDown` responder then closes.  Not self-driving: the owning
    /// thread's loop must call this periodically.  Returns how many
    /// commands were drained.
    pub fn drain_and_apply(&mut self) -> (n: usize)
        ensures
            phase_step(old(self).phase(), final(self).phase()),
            old(self).phase() == LifecyclePhase::Running ==> final(self).phase()
                == LifecyclePhase::Running && (exists|cs: Seq<C>|
                cs.len() == n && final(self).state() == apply_outcome(old(self).state(), cs)),
            old(self).phase() != LifecyclePhase::Running ==> final(self).state() == old(
                self,
            ).state(),
            old(self).phase() == LifecyclePhase::ShuttingDown ==> final(self).phase()
                == LifecyclePhase::Closed,
            old(self).phase() == LifecyclePhase::Closed ==> final(self).phase()
                == LifecyclePhase::Closed,
            old(self).phase() == LifecyclePhase::Uninitialized ==> final(self).phase()
                == LifecyclePhase::Uninitialized && n == 0,
    {
        if let LifecyclePhase::Uninitialized = self.phase {
            return 0;
        }
        let pending = queue_len(&self.commands);
        let mut drained: Vec<C> = Vec::new();
        let mut i: usize = 0;
        while i < pending
            decreases pending - i,
        {
            match queue_try_recv(&self.commands) {
                RecvAttempt::Received(c) => drained.push(c),
                RecvAttempt::Empty => {
                    break ;
                },
                RecvAttempt::Disconnected => {
                    break ;
                },
            }
            i += 1;
        }
        let count = drained.len();
        let running = match self.phase {
            LifecyclePhase::Running => true,
            _ => false,
        };
        if running {
            let ghost cs = drained@;
            let responses = process_commands(&mut self.resource, drained);
            self.send_responses(responses);
            proof {
                assert(cs.len() == count && self.state() == apply_outcome(
                    old(self).state(),
                    cs,
                ));
            }
        } else {
            let mut j: usize = 0;
            let mut rejected: Vec<ResourceResponse<R>> = Vec::new();
            while j < count
                invariant
                    j <= count,
                decreases count - j,
            {
                rejected.push(ResourceResponse::Rejected);
                j += 1;
            }
            self.send_responses(rejected);
            if let LifecyclePhase::ShuttingDown = self.phase {
                self.phase = LifecyclePhase::Closed;
            }
        }
        count
    }

    /// Queue a batch of responses back to the requester, in order; a
    /// requester that has gone away during shutdown is no error, so a
    /// failed send is dropped.
    fn send_responses(&mut self, responses: Vec<ResourceResponse<R>>)
        ensures
            final(self).state() == old(self).state(),
            final(self).phase() == old(self).phase(),
    {
        let mut remaining = responses;
        let n = remaining.len();
        let mut i: usize = 0;
        while i < n
            invariant
                i <= n,
                remaining@.len() == n - i,
                self.state() == old(self).state(),
                self.phase() == old(self).phase(),
            decreases n - i,
        {
            let r = remaining.remove(0);
            match queue_send(&self.responses, r) {
                Result::Ok(()) => {},
                Result::Err(_expected_during_shutdown) => {},
            }
            i += 1;
        }
    }
}

} // verus!
