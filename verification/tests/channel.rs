//! Remote Channel behaviour: ordering, shutdown, and the counter scenario.

use antigen_core::channel::{open, LifecyclePhase, ResourceResponse};
use antigen_core::resource::{
    DeviceCommand, DeviceManager, DeviceResponse, OwnedResource, WindowCommand, WindowManager,
    WindowResponse,
};
use antigen_core::ChannelClosed;

struct Counter {
    count: u64,
}

#[derive(Clone, Copy, Debug, PartialEq, Eq)]
struct Increment;

#[derive(Clone, Copy, Debug, PartialEq, Eq)]
struct Incremented(u64);

impl OwnedResource<Increment, Incremented> for Counter {
    fn next_state(self, _c: Increment) -> Self {
        Counter {
            count: self.count + 1,
        }
    }

    fn response_for(self, _c: Increment) -> Option<Incremented> {
        Some(Incremented(self.count + 1))
    }

    fn apply(&mut self, _c: Increment) -> Option<Incremented> {
        self.count += 1;
        Some(Incremented(self.count))
    }
}

#[test]
fn counter_three_increments() {
    let (requester, mut responder) = open::<Increment, Incremented, Counter>(Counter { count: 0 });
    requester.send(Increment).unwrap();
    requester.send(Increment).unwrap();
    requester.send(Increment).unwrap();
    let drained = responder.drain_and_apply();
    assert_eq!(drained, 3);
    assert_eq!(responder.resource().count, 3);
    let responses = requester.try_recv_responses();
    assert_eq!(
        responses,
        vec![
            ResourceResponse::Applied(Incremented(1)),
            ResourceResponse::Applied(Incremented(2)),
            ResourceResponse::Applied(Incremented(3)),
        ]
    );
}

struct Recorder {
    seen: Vec<u64>,
}

#[derive(Clone, Copy, Debug, PartialEq, Eq)]
struct Tag(u64);

#[derive(Clone, Copy, Debug, PartialEq, Eq)]
struct Echo(u64);

impl OwnedResource<Tag, Echo> for Recorder {
    fn next_state(mut self, c: Tag) -> Self {
        self.seen.push(c.0);
        self
    }

    fn response_for(self, c: Tag) -> Option<Echo> {
        Some(Echo(c.0))
    }

    fn apply(&mut self, c: Tag) -> Option<Echo> {
        self.seen.push(c.0);
        Some(Echo(c.0))
    }
}

#[test]
fn commands_observed_in_send_order() {
    let (requester, mut responder) = open::<Tag, Echo, Recorder>(Recorder { seen: Vec::new() });
    let ids: Vec<u64> = (0..64).collect();
    for id in &ids {
        requester.send(Tag(*id)).unwrap();
    }
    let drained = responder.drain_and_apply();
    assert_eq!(drained, 64);
    assert_eq!(responder.resource().seen, ids);
    let responses = requester.try_recv_responses();
    let echoed: Vec<u64> = responses
        .into_iter()
        .map(|r| match r {
            ResourceResponse::Applied(Echo(v)) => v,
            ResourceResponse::Rejected => panic!("unexpected rejection"),
        })
        .collect();
    assert_eq!(echoed, ids);
}

#[test]
fn responses_in_order_across_two_batches() {
    let (requester, mut responder) = open::<Tag, Echo, Recorder>(Recorder { seen: Vec::new() });
    requester.send(Tag(10)).unwrap();
    requester.send(Tag(11)).unwrap();
    responder.drain_and_apply();
    requester.send(Tag(12)).unwrap();
    responder.drain_and_apply();
    let responses = requester.try_recv_responses();
    assert_eq!(
        responses,
        vec![
            ResourceResponse::Applied(Echo(10)),
            ResourceResponse::Applied(Echo(11)),
            ResourceResponse::Applied(Echo(12)),
        ]
    );
    assert_eq!(responder.resource().seen, vec![10, 11, 12]);
}

#[test]
fn send_after_responder_dropped_yields_channel_closed() {
    let (requester, responder) = open::<Increment, Incremented, Counter>(Counter { count: 0 });
    drop(responder);
    let r = requester.send(Increment);
    assert_eq!(r, Err(ChannelClosed));
    let again = requester.send(Increment);
    assert_eq!(again, Err(ChannelClosed));
}

#[test]
fn into_resource_drops_channel_end() {
    let (requester, responder) = open::<Increment, Incremented, Counter>(Counter { count: 5 });
    let counter = responder.into_resource();
    assert_eq!(counter.count, 5);
    assert_eq!(requester.send(Increment), Err(ChannelClosed));
}

#[test]
fn commands_rejected_during_shutdown() {
    let (requester, mut responder) = open::<Increment, Incremented, Counter>(Counter { count: 0 });
    requester.send(Increment).unwrap();
    responder.begin_shutdown();
    assert_eq!(responder.current_phase(), LifecyclePhase::ShuttingDown);
    let drained = responder.drain_and_apply();
    assert_eq!(drained, 1);
    assert_eq!(responder.resource().count, 0);
    assert_eq!(responder.current_phase(), LifecyclePhase::Closed);
    let responses = requester.try_recv_responses();
    assert_eq!(responses, vec![ResourceResponse::Rejected]);
}

#[test]
fn closed_responder_keeps_rejecting() {
    let (requester, mut responder) = open::<Increment, Incremented, Counter>(Counter { count: 0 });
    responder.begin_shutdown();
    responder.drain_and_apply();
    assert_eq!(responder.current_phase(), LifecyclePhase::Closed);
    requester.send(Increment).unwrap();
    responder.drain_and_apply();
    assert_eq!(responder.resource().count, 0);
    assert_eq!(
        requester.try_recv_responses(),
        vec![ResourceResponse::Rejected]
    );
}

#[test]
fn empty_drain_is_harmless() {
    let (requester, mut responder) = open::<Increment, Incremented, Counter>(Counter { count: 7 });
    assert_eq!(responder.drain_and_apply(), 0);
    assert_eq!(responder.resource().count, 7);
    assert!(requester.try_recv_responses().is_empty());
}

#[test]
fn window_manager_over_channel() {
    let (requester, mut responder) =
        open::<WindowCommand, WindowResponse, WindowManager>(WindowManager::new(640, 480));
    requester
        .send(WindowCommand::SetTitle(String::from("sandbox")))
        .unwrap();
    requester
        .send(WindowCommand::Resize {
            width: 800,
            height: 600,
        })
        .unwrap();
    requester.send(WindowCommand::SetVisible(true)).unwrap();
    assert_eq!(responder.drain_and_apply(), 3);
    assert_eq!(responder.resource().title, "sandbox");
    assert_eq!(responder.resource().width, 800);
    assert_eq!(responder.resource().height, 600);
    assert!(responder.resource().visible);
    // Only the resize acknowledges; title and visibility are fire-and-forget.
    assert_eq!(
        requester.try_recv_responses(),
        vec![ResourceResponse::Applied(WindowResponse::Resized {
            width: 800,
            height: 600,
        })]
    );
}

#[test]
fn device_manager_over_channel() {
    let (requester, mut responder) =
        open::<DeviceCommand, DeviceResponse, DeviceManager>(DeviceManager::new());
    requester
        .send(DeviceCommand::CreateBuffer { size: 1024 })
        .unwrap();
    requester
        .send(DeviceCommand::CreateBuffer { size: 512 })
        .unwrap();
    requester.send(DeviceCommand::SubmitCommandBuffer).unwrap();
    assert_eq!(responder.drain_and_apply(), 3);
    assert_eq!(responder.resource().buffers_created, 2);
    assert_eq!(responder.resource().bytes_allocated, 1536);
    assert_eq!(responder.resource().submissions, 1);
    assert_eq!(
        requester.try_recv_responses(),
        vec![
            ResourceResponse::Applied(DeviceResponse::BufferCreated { buffer: 0 }),
            ResourceResponse::Applied(DeviceResponse::BufferCreated { buffer: 1 }),
            ResourceResponse::Applied(DeviceResponse::Submitted { index: 0 }),
        ]
    );
}

#[test]
fn device_allocation_saturates() {
    let mut device = DeviceManager::new();
    device.apply(DeviceCommand::CreateBuffer { size: u64::MAX });
    device.apply(DeviceCommand::CreateBuffer { size: 100 });
    assert_eq!(device.bytes_allocated, u64::MAX);
    assert_eq!(device.buffers_created, 2);
}

#[test]
fn cloned_requester_shares_the_command_queue() {
    let (requester, mut responder) = open::<Tag, Echo, Recorder>(Recorder { seen: Vec::new() });
    let second = requester.clone_handle();
    requester.send(Tag(1)).unwrap();
    second.send(Tag(2)).unwrap();
    requester.send(Tag(3)).unwrap();
    assert_eq!(responder.drain_and_apply(), 3);
    assert_eq!(responder.resource().seen, vec![1, 2, 3]);
    // Responses drain through whichever handle asks; together they see all.
    let mut all = requester.try_recv_responses();
    all.extend(second.try_recv_responses());
    assert_eq!(all.len(), 3);
}
