//! The mutation pipeline: what is done to every packet that is copied from
//! the capture into the cut.

use vstd::prelude::*;

use crate::model::{
    entity_views, message_views, DemoMessage, DemoMessageView, DemoPacket, DemoPacketView, Entity,
    EntityUpdateView, EntityView, CLOSE_CAPTION,
};
use crate::retain::{lemma_flagged_filter, lemma_flagged_map, retain_flagged};
use crate::DeleteFilter;

verus! {

/// Rewrites a packet.
pub trait PacketMutator {
    /// The packet after the rewrite.
    spec fn mutated(&self, packet: DemoPacketView) -> DemoPacketView;

    fn mutate_packet(&self, packet: &mut DemoPacket)
        ensures
            final(packet)@ == self.mutated(old(packet)@),
    ;
}

/// Rewrites a message.
pub trait MessageMutator {
    /// The message after the rewrite.
    spec fn rewritten(&self, message: DemoMessageView) -> DemoMessageView;

    fn mutate_message(&self, message: &mut DemoMessage)
        ensures
            final(message)@ == self.rewritten(old(message)@),
    ;
}

/// Decides which messages stay in a packet.
pub trait MessageFilter {
    /// Whether the message stays.
    spec fn keeps(&self, message: DemoMessageView) -> bool;

    fn filter(&self, message: &DemoMessage) -> (r: bool)
        ensures
            r == self.keeps(message@),
    ;
}

/// Rewrites an entity entry.
pub trait EntityMutator {
    /// The entry after the rewrite.
    spec fn changed(&self, entity: EntityView) -> EntityView;

    fn mutate_entity(&self, entity: &mut Entity)
        ensures
            final(entity)@ == self.changed(old(entity)@),
    ;
}

/// Applies an entity rewrite to each entry of an entity update.
pub struct MessageEntityMutator<T: EntityMutator> {
    pub mutator: T,
}

impl<T: EntityMutator> MessageMutator for MessageEntityMutator<T> {
    open spec fn rewritten(&self, message: DemoMessageView) -> DemoMessageView {
        match message {
            DemoMessageView::Entities(update) => DemoMessageView::Entities(
                EntityUpdateView {
                    entities: update.entities.map_values(|e: EntityView| self.mutator.changed(e)),
                    ..update
                },
            ),
            _ => message,
        }
    }

    fn mutate_message(&self, message: &mut DemoMessage) {
        match message {
            DemoMessage::Entities(update) => {
                let ghost before = entity_views(update.entities@);
                let mut i: usize = 0;
                while i < update.entities.len()
                    invariant
                        i <= update.entities.len(),
                        update.entities.len() == before.len(),
                        forall|j: int|
                            0 <= j < i ==> #[trigger] update.entities@[j]@ == self.mutator.changed(
                                before[j],
                            ),
                        forall|j: int|
                            i <= j < update.entities.len() ==> #[trigger] update.entities@[j]@
                                == before[j],
                        update.removed_entities == old(message)->Entities_0.removed_entities,
                        update.max_entries == old(message)->Entities_0.max_entries,
                        update.delta == old(message)->Entities_0.delta,
                        update.base_line == old(message)->Entities_0.base_line,
                        update.updated_base_line == old(message)->Entities_0.updated_base_line,
                    decreases update.entities.len() - i,
                {
                    self.mutator.mutate_entity(&mut update.entities[i]);
                    i = i + 1;
                }
                proof {
                    assert(entity_views(update.entities@) =~= before.map_values(
                        |e: EntityView| self.mutator.changed(e),
                    ));
                }
            },
            _ => {},
        }
    }
}

/// The messages of `messages` that satisfy `keep`, in order.
pub open spec fn kept_messages(
    messages: Seq<DemoMessageView>,
    keep: spec_fn(DemoMessageView) -> bool,
) -> Seq<DemoMessageView> {
    messages.filter(keep)
}

/// Applies a message rewrite to each message of a message packet.
pub struct PacketMessageMutator<T: MessageMutator> {
    pub mutator: T,
}

impl<T: MessageMutator> PacketMutator for PacketMessageMutator<T> {
    open spec fn mutated(&self, packet: DemoPacketView) -> DemoPacketView {
        match packet {
            DemoPacketView::Messages { tick, messages, meta } => DemoPacketView::Messages {
                tick,
                messages: messages.map_values(|m: DemoMessageView| self.mutator.rewritten(m)),
                meta,
            },
            _ => packet,
        }
    }

    fn mutate_packet(&self, packet: &mut DemoPacket) {
        match packet {
            DemoPacket::Messages { messages, .. } => {
                let ghost before = message_views(messages@);
                let mut i: usize = 0;
                while i < messages.len()
                    invariant
                        i <= messages.len(),
                        messages.len() == before.len(),
                        forall|j: int|
                            0 <= j < i ==> #[trigger] messages@[j]@ == self.mutator.rewritten(
                                before[j],
                            ),
                        forall|j: int| i <= j < messages.len() ==> #[trigger] messages@[j]@ == before[j],
                    decreases messages.len() - i,
                {
                    self.mutator.mutate_message(&mut messages[i]);
                    i = i + 1;
                }
                proof {
                    assert(message_views(messages@) =~= before.map_values(
                        |m: DemoMessageView| self.mutator.rewritten(m),
                    ));
                }
            },
            _ => {},
        }
    }
}

/// Drops from a message packet the messages that a filter does not keep.
pub struct PacketMessageFilter<T: MessageFilter> {
    pub filter: T,
}

impl<T: MessageFilter> PacketMutator for PacketMessageFilter<T> {
    open spec fn mutated(&self, packet: DemoPacketView) -> DemoPacketView {
        match packet {
            DemoPacketView::Messages { tick, messages, meta } => DemoPacketView::Messages {
                tick,
                messages: kept_messages(messages, |m: DemoMessageView| self.filter.keeps(m)),
                meta,
            },
            _ => packet,
        }
    }

    fn mutate_packet(&self, packet: &mut DemoPacket) {
        match packet {
            DemoPacket::Messages { messages, .. } => {
                let ghost before = messages@;
                let mut flags: Vec<bool> = Vec::new();
                let mut i: usize = 0;
                while i < messages.len()
                    invariant
                        i <= messages.len(),
                        flags.len() == i,
                        forall|j: int|
                            0 <= j < i ==> flags@[j] == self.filter.keeps(
                                (#[trigger] messages@[j])@,
                            ),
                    decreases messages.len() - i,
                {
                    flags.push(self.filter.filter(&messages[i]));
                    i = i + 1;
                }
                retain_flagged(messages, &flags);
                proof {
                    let keep = |m: DemoMessageView| self.filter.keeps(m);
                    let view = |m: DemoMessage| m@;
                    lemma_flagged_map(before, flags@, view);
                    lemma_flagged_filter(before.map_values(view), flags@, keep);
                    assert(message_views(messages@) =~= messages@.map_values(view));
                    assert(message_views(before) =~= before.map_values(view));
                }
            },
            _ => {},
        }
    }
}

/// Keeps every message but closed captions.
#[derive(Clone, Copy, Debug)]
pub struct CaptionFilter;

impl MessageFilter for CaptionFilter {
    open spec fn keeps(&self, message: DemoMessageView) -> bool {
        match message {
            DemoMessageView::User { kind, .. } => kind != CLOSE_CAPTION,
            _ => true,
        }
    }

    fn filter(&self, message: &DemoMessage) -> (r: bool) {
        match message {
            DemoMessage::User { kind, .. } => *kind != CLOSE_CAPTION,
            _ => true,
        }
    }
}

/// Moves every packet's tick back by the start of the cut. A tick before
/// the start becomes tick zero.
#[derive(Clone, Copy, Debug)]
pub struct TickRebase {
    pub start_tick: u32,
}

/// `tick` counted from `start_tick`, and zero for a tick before it.
pub open spec fn rebased(tick: u32, start_tick: u32) -> u32 {
    if tick >= start_tick {
        (tick - start_tick) as u32
    } else {
        0
    }
}

impl PacketMutator for TickRebase {
    open spec fn mutated(&self, packet: DemoPacketView) -> DemoPacketView {
        packet.with_tick(rebased(packet.tick(), self.start_tick))
    }

    fn mutate_packet(&self, packet: &mut DemoPacket) {
        match packet {
            DemoPacket::Messages { tick, .. } => {
                *tick = if *tick >= self.start_tick {
                    *tick - self.start_tick
                } else {
                    0
                };
            },
            DemoPacket::Raw { tick, .. } => {
                *tick = if *tick >= self.start_tick {
                    *tick - self.start_tick
                } else {
                    0
                };
            },
        }
    }
}

/// One step of the pipeline.
pub enum Mutator {
    /// Drops the messages that the filter does not keep.
    Filter(PacketMessageFilter<CaptionFilter>),
    /// Rewrites each message.
    Message(PacketMessageMutator<DeleteFilter>),
    /// Rewrites the packet itself.
    Packet(TickRebase),
}

impl PacketMutator for Mutator {
    open spec fn mutated(&self, packet: DemoPacketView) -> DemoPacketView {
        match self {
            Mutator::Filter(m) => m.mutated(packet),
            Mutator::Message(m) => m.mutated(packet),
            Mutator::Packet(m) => m.mutated(packet),
        }
    }

    fn mutate_packet(&self, packet: &mut DemoPacket) {
        match self {
            Mutator::Filter(m) => m.mutate_packet(packet),
            Mutator::Message(m) => m.mutate_packet(packet),
            Mutator::Packet(m) => m.mutate_packet(packet),
        }
    }
}

/// The packet after the steps of `steps`, taken in order.
pub open spec fn apply_all(steps: Seq<Mutator>, packet: DemoPacketView) -> DemoPacketView
    decreases steps.len(),
{
    if steps.len() == 0 {
        packet
    } else {
        steps.last().mutated(apply_all(steps.drop_last(), packet))
    }
}

/// The steps of the pipeline, in the order in which they are applied.
pub struct MutatorList {
    mutators: Vec<Mutator>,
}

impl View for MutatorList {
    type V = Seq<Mutator>;

    closed spec fn view(&self) -> Seq<Mutator> {
        self.mutators@
    }
}

impl Default for MutatorList {
    fn default() -> (r: MutatorList)
        ensures
            r@ == Seq::<Mutator>::empty(),
    {
        MutatorList::new()
    }
}

impl MutatorList {
    /// A pipeline without steps.
    pub fn new() -> (r: MutatorList)
        ensures
            r@ == Seq::<Mutator>::empty(),
    {
        MutatorList { mutators: Vec::new() }
    }

    /// Appends a step.
    pub fn push_mutator(&mut self, mutator: Mutator)
        ensures
            final(self)@ == old(self)@.push(mutator),
    {
        self.mutators.push(mutator)
    }

    /// Appends a step that drops the messages which `filter` does not keep.
    pub fn push_message_filter(&mut self, filter: CaptionFilter)
        ensures
            final(self)@ == old(self)@.push(Mutator::Filter(PacketMessageFilter { filter })),
    {
        self.mutators.push(Mutator::Filter(PacketMessageFilter { filter }))
    }

    /// Appends a step that rewrites each message with `mutator`.
    pub fn push_message_mutator(&mut self, mutator: DeleteFilter)
        ensures
            final(self)@ == old(self)@.push(Mutator::Message(PacketMessageMutator { mutator })),
    {
        self.mutators.push(Mutator::Message(PacketMessageMutator { mutator }))
    }

    /// Appends a step that rewrites the packet with `mutator`.
    pub fn push_packet_mutator(&mut self, mutator: TickRebase)
        ensures
            final(self)@ == old(self)@.push(Mutator::Packet(mutator)),
    {
        self.mutators.push(Mutator::Packet(mutator))
    }
}

impl PacketMutator for MutatorList {
    open spec fn mutated(&self, packet: DemoPacketView) -> DemoPacketView {
        apply_all(self@, packet)
    }

    fn mutate_packet(&self, packet: &mut DemoPacket) {
        let mut i: usize = 0;
        while i < self.mutators.len()
            invariant
                i <= self.mutators.len(),
                packet@ == apply_all(self.mutators@.take(i as int), old(packet)@),
            decreases self.mutators.len() - i,
        {
            proof {
                assert(self.mutators@.take(i + 1).drop_last() == self.mutators@.take(i as int));
            }
            self.mutators[i].mutate_packet(packet);
            i = i + 1;
        }
        proof {
            assert(self.mutators@.take(i as int) == self.mutators@);
        }
    }
}

/// No step changes what kind of packet a packet is.
pub proof fn lemma_kind_kept(steps: Seq<Mutator>, packet: DemoPacketView)
    ensures
        apply_all(steps, packet).kind() == packet.kind(),
    decreases steps.len(),
{
    if steps.len() > 0 {
        lemma_kind_kept(steps.drop_last(), packet);
    }
}

} // verus!
