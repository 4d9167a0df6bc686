//! Cuts a tick range out of a recorded session capture and keeps the result
//! decodable on its own.
//!
//! The packets before the cut are not copied. Two trackers follow them, one
//! for the visible entities and one for the string tables, and from their
//! state a short run of packets is synthesized that brings a fresh decoder
//! to where a decoder of the whole capture would be. The packets of the
//! range follow, with their ticks counted from the start of the cut.
//!
//! The wire format is the codec's. What its calls return is named in
//! [`codec`], and [`cut_of`] says over those names which bytes a cut is.

pub mod codec;
pub mod convert;
pub mod entity;
pub mod entity_map;
pub mod error;
pub mod highlight;
pub mod index_set;
pub mod model;
pub mod mutate;
pub mod plan;
pub mod props;
pub mod retain;
pub mod sorted_map;
pub mod sorting;
pub mod string_tables;
pub mod synthesis;

pub use crate::entity::ActiveEntities;
pub use crate::error::CutError;
pub use crate::highlight::{Highlight, HighlightAnalyser, HighlightSource};
pub use crate::model::{
    entity_views, BaselineSlots, DemoMessage, DemoPacket, Entity, EntityUpdate, EntityView,
    PacketKind, Prop, TableEntry, TableUpdate, TickedUpdate, UpdateType,
};
pub use crate::mutate::{
    CaptionFilter, EntityMutator, MessageFilter, MessageMutator, Mutator, MutatorList,
    PacketMutator, TickRebase,
};
pub use crate::convert::{fits_packet, fits_update};
pub use crate::string_tables::{StringTable, StringTablesUpdates};

use tf_demo_parser::demo::packet::stringtable::StringTableEntry;
use std::collections::BTreeSet;
use tf_demo_parser::demo::header::Header;
use tf_demo_parser::demo::parser::RawPacketStream;

use vstd::prelude::*;

use crate::codec::{
    capture_header, capture_packets, capture_ticks, encoded, handle_packet, handles,
    header_bytes, header_ticks, header_written, new_context, next_packet, open_capture,
    packet_bytes, read_of, rewritten_header, stop_bytes, stop_packet_bytes, taken, ticks_of,
    unread, DecodeContext, Encoded, Fed, Read,
};
use crate::convert::{
    packet_fits, packet_read, packet_written, read_baselines, read_packet, slots_read,
    write_packet,
};
use crate::entity::{empty_tracker, ingest_message, refused_at, TrackerView};
use crate::model::{
    message_views, slots_valid, BaselineSlotsView, DemoMessageView, DemoPacketView,
    EntityUpdateView,
};
use crate::mutate::{apply_all, rebased, PacketMessageFilter};
use crate::retain::{lemma_flagged_filter, lemma_flagged_map, retain_flagged};
use crate::plan::{
    clamp_range, cut_range, is_preserved, is_synthesis, lemma_synthesis_determined,
    packet_views, pivot_basis, pivot_of, preserved, synthesize, PivotBasis, TickRange,
    START_MARGIN, STOP_TICK_LIMIT,
};
use crate::string_tables::upsert_entries;

verus! {

/// Whether an entity entry takes an index away that the receiver of the cut
/// never saw arrive.
pub open spec fn is_stale_removal(e: EntityView, known: Set<u32>) -> bool {
    (e.update_type == UpdateType::Leave || e.update_type == UpdateType::Delete)
        && !known.contains(e.entity_index)
}

/// The entries of `entities` that are no stale removals, in order.
pub open spec fn without_stale_removals(entities: Seq<EntityView>, known: Set<u32>) -> Seq<
    EntityView,
> {
    entities.filter(|e: EntityView| !is_stale_removal(e, known))
}

/// Suppresses stale removals: in an entity update whose basis tick lies
/// before `till_delta`, entries that leave or delete an index outside the
/// known set are dropped.
pub struct DeleteFilter {
    current_entities: BTreeSet<u32>,
    till_delta: u32,
}

impl DeleteFilter {
    /// The indices that were visible at the cut.
    pub closed spec fn known(&self) -> Set<u32> {
        self.current_entities@
    }

    /// The tick from which on updates are left alone.
    pub closed spec fn until(&self) -> u32 {
        self.till_delta
    }

    /// A filter that knows the indices `current_entities` and rewrites the
    /// updates whose basis tick lies before `till_delta`.
    pub fn new(current_entities: BTreeSet<u32>, till_delta: u32) -> (r: DeleteFilter)
        ensures
            r.known() == current_entities@,
            r.until() == till_delta,
    {
        DeleteFilter { current_entities, till_delta }
    }
}

/// The message with its stale removals suppressed: an entity update whose
/// basis tick lies before `until` loses the entries that leave or delete an
/// index outside `known`. Any other message is untouched.
pub open spec fn without_stale(message: DemoMessageView, known: Set<u32>, until: u32) -> DemoMessageView {
    match message {
        DemoMessageView::Entities(update) => if update.delta is Some && update.delta->0 < until {
            DemoMessageView::Entities(
                EntityUpdateView {
                    entities: without_stale_removals(update.entities, known),
                    ..update
                },
            )
        } else {
            message
        },
        _ => message,
    }
}

impl MessageMutator for DeleteFilter {
    open spec fn rewritten(&self, message: DemoMessageView) -> DemoMessageView {
        without_stale(message, self.known(), self.until())
    }

    fn mutate_message(&self, message: &mut DemoMessage) {
        match message {
            DemoMessage::Entities(update) => {
                let stale = match update.delta {
                    Some(delta) => delta < self.till_delta,
                    None => false,
                };
                if stale {
                    let ghost known = self.known();
                    let ghost before = update.entities@;
                    let mut flags: Vec<bool> = Vec::new();
                    let mut i: usize = 0;
                    while i < update.entities.len()
                        invariant
                            i <= update.entities.len(),
                            flags.len() == i,
                            known == self.known(),
                            forall|j: int|
                                0 <= j < i ==> flags@[j] == !is_stale_removal(
                                    (#[trigger] update.entities@[j])@,
                                    known,
                                ),
                        decreases update.entities.len() - i,
                    {
                        let entity = &update.entities[i];
                        let removal = match entity.update_type {
                            UpdateType::Delete => true,
                            UpdateType::Leave => true,
                            _ => false,
                        };
                        flags.push(!removal || self.current_entities.contains(&entity.entity_index));
                        i = i + 1;
                    }
                    retain_flagged(&mut update.entities, &flags);
                    proof {
                        let keep = |e: EntityView| !is_stale_removal(e, known);
                        let view = |e: Entity| e@;
                        lemma_flagged_map(before, flags@, view);
                        lemma_flagged_filter(before.map_values(view), flags@, keep);
                        assert(entity_views(update.entities@) =~= update.entities@.map_values(view));
                        assert(entity_views(before) =~= before.map_values(view));
                    }
                }
            },
            _ => {},
        }
    }
}

/// Mathematical value of a [`StartState`].
pub struct StartView {
    pub entities: TrackerView,
    pub tables: Map<(u8, u16), StringTableEntry<'static>>,
    /// The server tick of the last tick marker.
    pub server_tick: u32,
}

/// The preroll state after one message: a string-table update and an entity
/// update go to their trackers, a tick marker sets the server tick. There is
/// none where the entity tracker refuses the update.
pub open spec fn preroll_message(s: StartView, message: DemoMessageView) -> Option<StartView> {
    match message {
        DemoMessageView::TableUpdate(update) => Some(
            StartView { tables: upsert_entries(s.tables, update.table_id, update.entries), ..s },
        ),
        DemoMessageView::Entities(update) => match ingest_message(s.entities, update) {
            Some(entities) => Some(StartView { entities, ..s }),
            None => None,
        },
        DemoMessageView::NetTick { tick, .. } => Some(StartView { server_tick: tick, ..s }),
        _ => Some(s),
    }
}

/// The preroll state after a list of messages, taken in order.
pub open spec fn preroll_messages(s: StartView, messages: Seq<DemoMessageView>) -> Option<
    StartView,
>
    decreases messages.len(),
{
    if messages.len() == 0 {
        Some(s)
    } else {
        match preroll_messages(s, messages.drop_last()) {
            Some(before) => preroll_message(before, messages.last()),
            None => None,
        }
    }
}

/// The preroll state after one packet that is folded into it. Only message
/// packets hold anything to fold.
pub open spec fn preroll_packet(s: StartView, packet: DemoPacketView) -> Option<StartView> {
    match packet {
        DemoPacketView::Messages { messages, .. } => preroll_messages(s, messages),
        _ => Some(s),
    }
}

/// The preroll state at the point where a packet is refused: the messages
/// before message `i` are folded in, and the entity tracker stands where it
/// refused entry `n` of message `i`. There is none where that entry is not
/// refused.
pub open spec fn preroll_refused_at(s: StartView, packet: DemoPacketView, i: int, n: int) -> Option<
    StartView,
> {
    match packet {
        DemoPacketView::Messages { messages, .. } => if 0 <= i < messages.len() {
            match (preroll_messages(s, messages.take(i)), messages[i]) {
                (Some(before), DemoMessageView::Entities(update)) => match refused_at(
                    before.entities,
                    update,
                    n,
                ) {
                    Some(entities) => Some(StartView { entities, ..before }),
                    None => None,
                },
                _ => None,
            }
        } else {
            None
        },
        _ => None,
    }
}

/// Once a message is refused, the whole list is.
pub(crate) proof fn lemma_preroll_refused(s: StartView, messages: Seq<DemoMessageView>, n: int)
    requires
        0 <= n <= messages.len(),
        preroll_messages(s, messages.take(n)) is None,
    ensures
        preroll_messages(s, messages) is None,
    decreases messages.len() - n,
{
    if n < messages.len() {
        assert(messages.take(n + 1).drop_last() == messages.take(n));
        lemma_preroll_refused(s, messages, n + 1);
    } else {
        assert(messages.take(n) == messages);
    }
}

/// What a packet of the preroll is to the cut.
pub enum PrerollStep {
    /// The packet is of a preserved kind: it is copied as it is.
    Kept,
    /// The packet lies before the start: it was folded into the trackers.
    Folded,
    /// The packet is the first at or after the start. It is handed back
    /// untouched.
    Pivot(DemoPacket),
}

/// What the preroll gathers: the trackers, the packets that are copied as
/// they are, and the last server tick.
pub struct StartState {
    entities: ActiveEntities,
    table_updates: StringTablesUpdates,
    start_packets: Vec<DemoPacket>,
    server_tick: u32,
}

impl View for StartState {
    type V = StartView;

    closed spec fn view(&self) -> StartView {
        StartView {
            entities: self.entities@,
            tables: self.table_updates@,
            server_tick: self.server_tick,
        }
    }
}

impl StartState {
    /// The trackers are well formed.
    pub closed spec fn wf(&self) -> bool {
        self.entities.wf() && self.table_updates.wf()
    }

    /// The packets that are copied as they are, in order.
    pub closed spec fn kept(&self) -> Seq<DemoPacketView> {
        packet_views(self.start_packets@)
    }

    /// The state before the first packet.
    pub fn new() -> (r: StartState)
        ensures
            r.wf(),
            r@.server_tick == 0,
            r@.tables == Map::<(u8, u16), StringTableEntry<'static>>::empty(),
            r@.entities == empty_tracker(),
            r.kept() == Seq::<DemoPacketView>::empty(),
    {
        let r = StartState {
            entities: ActiveEntities::new(),
            table_updates: StringTablesUpdates::new(),
            start_packets: Vec::with_capacity(6),
            server_tick: 0,
        };
        assert(r.kept() =~= Seq::<DemoPacketView>::empty());
        r
    }

    /// Folds the messages of a packet into the trackers.
    fn fold_packet(&mut self, packet: &DemoPacket) -> (r: Result<(), CutError>)
        requires
            old(self).wf(),
        ensures
            final(self).wf(),
            final(self).kept() == old(self).kept(),
            match preroll_packet(old(self)@, packet@) {
                Some(s) => r is Ok && final(self)@ == s,
                None => r == Err::<(), CutError>(CutError::ClassMismatch) && exists|i: int, n: int|
                    #[trigger] preroll_refused_at(old(self)@, packet@, i, n) == Some(final(self)@),
            },
    {
        match packet {
            DemoPacket::Messages { messages, .. } => {
                let ghost views = message_views(messages@);
                let ghost start = self@;
                let mut i: usize = 0;
                while i < messages.len()
                    invariant
                        i <= messages.len(),
                        self.wf(),
                        self.kept() == old(self).kept(),
                        views == message_views(messages@),
                        start == old(self)@,
                        packet@ is Messages,
                        packet@->Messages_messages == views,
                        preroll_packet(old(self)@, packet@) == preroll_messages(start, views),
                        preroll_messages(start, views.take(i as int)) == Some(self@),
                    decreases messages.len() - i,
                {
                    proof {
                        assert(views.take(i + 1).drop_last() == views.take(i as int));
                        assert(views.take(i + 1).last() == messages@[i as int]@);
                    }
                    match &messages[i] {
                        DemoMessage::TableUpdate(update) => {
                            self.table_updates.handle_update(update);
                        },
                        DemoMessage::Entities(update) => {
                            let ghost before = self@;
                            match self.entities.handle_message(update) {
                                Ok(()) => {},
                                Err(e) => {
                                    proof {
                                        assert(messages@[i as int]@ == DemoMessageView::Entities(
                                            update@,
                                        ));
                                        assert(preroll_messages(start, views.take(i + 1)) is None);
                                        lemma_preroll_refused(start, views, i + 1);
                                        assert(e == CutError::ClassMismatch);
                                        let n = choose|n: int|
                                            #[trigger] refused_at(before.entities, update@, n)
                                                == Some(self@.entities);
                                        assert(views[i as int] == DemoMessageView::Entities(
                                            update@,
                                        ));
                                        assert(preroll_refused_at(start, packet@, i as int, n)
                                            == Some(self@));
                                    }
                                    return Err(e);
                                },
                            }
                        },
                        DemoMessage::NetTick { tick, .. } => {
                            self.server_tick = *tick;
                        },
                        _ => {},
                    }
                    i = i + 1;
                }
                proof {
                    assert(views.take(i as int) == views);
                }
                Ok(())
            },
            _ => Ok(()),
        }
    }

    /// Takes one packet of the capture into the preroll.
    ///
    /// A packet of a preserved kind is kept for copying, whatever its tick.
    /// Any other packet is the pivot if its tick has reached `start_tick`,
    /// and is folded into the trackers if not.
    pub fn preroll(&mut self, packet: DemoPacket, start_tick: u32) -> (r: Result<
        PrerollStep,
        CutError,
    >)
        requires
            old(self).wf(),
        ensures
            final(self).wf(),
            preserved(packet@.kind()) ==> (r matches Ok(PrerollStep::Kept))
                && final(self)@ == old(self)@
                && final(self).kept() == old(self).kept().push(packet@),
            !preserved(packet@.kind()) && packet@.tick() >= start_tick ==> (r matches Ok(
                PrerollStep::Pivot(pivot),
            ) && pivot@ == packet@) && final(self)@ == old(self)@
                && final(self).kept() == old(self).kept(),
            !preserved(packet@.kind()) && packet@.tick() < start_tick ==> final(self).kept()
                == old(self).kept() && match preroll_packet(old(self)@, packet@) {
                Some(s) => (r matches Ok(PrerollStep::Folded)) && final(self)@ == s,
                None => (r matches Err(CutError::ClassMismatch)) && exists|i: int, n: int|
                    #[trigger] preroll_refused_at(old(self)@, packet@, i, n) == Some(final(self)@),
            },
    {
        if is_preserved(packet.kind()) {
            let ghost before = self.start_packets@;
            self.start_packets.push(packet);
            proof {
                assert(packet_views(self.start_packets@) =~= packet_views(before).push(packet@));
            }
            Ok(PrerollStep::Kept)
        } else if packet.tick() >= start_tick {
            Ok(PrerollStep::Pivot(packet))
        } else {
            match self.fold_packet(&packet) {
                Ok(()) => Ok(PrerollStep::Folded),
                Err(e) => Err(e),
            }
        }
    }
}

/// The steps that every packet of the range passes through: messages that
/// only decorate are dropped, removals of entities that the cut never
/// introduced are suppressed, and ticks are counted from the start of the
/// cut.
pub fn cut_mutators(known: BTreeSet<u32>, server_tick: u32, start_tick: u32) -> (r: MutatorList)
    ensures
        r@.len() == 3,
        r@[0] == Mutator::Filter(PacketMessageFilter { filter: CaptionFilter }),
        r@[1] matches Mutator::Message(step) && step.mutator.known() == known@
            && step.mutator.until() == server_tick,
        r@[2] == Mutator::Packet(TickRebase { start_tick }),
{
    let mut mutators = MutatorList::new();
    mutators.push_message_filter(CaptionFilter);
    mutators.push_message_mutator(DeleteFilter::new(known, server_tick));
    mutators.push_packet_mutator(TickRebase { start_tick });
    mutators
}

/// What the steps of a cut make of a packet: its tick is counted from the
/// start of the cut, its kind stays, a packet that is no message packet is
/// otherwise untouched, and a message packet has its messages filtered
/// first and rewritten then.
pub proof fn lemma_cut_pipeline(steps: Seq<Mutator>, start_tick: u32, packet: DemoPacketView)
    requires
        steps.len() == 3,
        steps[0] is Filter,
        steps[1] is Message,
        steps[2] == Mutator::Packet(TickRebase { start_tick }),
    ensures
        apply_all(steps, packet) == steps[2].mutated(steps[1].mutated(steps[0].mutated(packet))),
        apply_all(steps, packet).tick() == rebased(packet.tick(), start_tick),
        apply_all(steps, packet).kind() == packet.kind(),
        packet is Raw ==> apply_all(steps, packet) == packet.with_tick(
            rebased(packet.tick(), start_tick),
        ),
        packet is Messages ==> apply_all(steps, packet) is Messages,
{
    let one = steps.drop_last();
    let two = one.drop_last();
    assert(two.drop_last().len() == 0);
    assert(steps.last() == steps[2]);
    assert(one.last() == steps[1]);
    assert(two.last() == steps[0]);
    assert(apply_all(two.drop_last(), packet) == packet);
    assert(apply_all(two, packet) == steps[0].mutated(packet));
    assert(apply_all(one, packet) == steps[1].mutated(apply_all(two, packet)));
    assert(apply_all(steps, packet) == steps[2].mutated(apply_all(one, packet)));
}

/// What becomes of a packet of the range.
pub struct StreamStep {
    /// The packet as it goes into the cut.
    pub packet: DemoPacket,
    /// Whether the packet goes into the cut. Console commands do not.
    pub written: bool,
    /// Whether the packet is the last of the range.
    pub last: bool,
}

/// Takes one packet of the capture into the range: the packet passes
/// through `mutators`, goes into the cut unless it is a console command, and
/// ends the range if its tick in the capture has reached `end_tick`.
pub fn stream(mutators: &MutatorList, packet: DemoPacket, end_tick: u32) -> (r: StreamStep)
    ensures
        r.packet@ == apply_all(mutators@, packet@),
        r.written == (packet@.kind() != PacketKind::ConsoleCmd),
        r.last == (packet@.tick() >= end_tick),
{
    let capture_tick = packet.tick();
    let written = match packet.kind() {
        PacketKind::ConsoleCmd => false,
        _ => true,
    };
    let mut packet = packet;
    mutators.mutate_packet(&mut packet);
    StreamStep { packet, written, last: capture_tick >= end_tick }
}

/// What a preroll has gathered: the state of the trackers and the packets
/// kept for copying.
pub struct PrerollView {
    pub state: StartView,
    pub kept: Seq<DemoPacketView>,
}

/// The preroll state before the first packet.
pub open spec fn preroll_start() -> StartView {
    StartView {
        entities: empty_tracker(),
        tables: Map::<(u8, u16), StringTableEntry<'static>>::empty(),
        server_tick: 0,
    }
}

/// The preroll after the packets `packets`, taken in order: a packet of a
/// preserved kind is kept, any other is folded in. There is none where a
/// packet is refused, or where a packet is a pivot, since a preroll ends
/// before its pivot.
pub open spec fn preroll_run(start_tick: u32, packets: Seq<DemoPacketView>) -> Option<PrerollView>
    decreases packets.len(),
{
    if packets.len() == 0 {
        Some(PrerollView { state: preroll_start(), kept: Seq::<DemoPacketView>::empty() })
    } else {
        match preroll_run(start_tick, packets.drop_last()) {
            Some(before) => {
                let packet = packets.last();
                if preserved(packet.kind()) {
                    Some(PrerollView { kept: before.kept.push(packet), ..before })
                } else if packet.tick() >= start_tick {
                    None
                } else {
                    match preroll_packet(before.state, packet) {
                        Some(state) => Some(PrerollView { state, ..before }),
                        None => None,
                    }
                }
            },
            None => None,
        }
    }
}

/// The steps of a cut for the known indices `known`, the last server tick
/// `until` of the preroll and the start tick `start_tick`.
pub open spec fn is_cut_steps(steps: Seq<Mutator>, known: Set<u32>, until: u32, start_tick: u32) -> bool {
    &&& steps.len() == 3
    &&& steps[0] == Mutator::Filter(PacketMessageFilter { filter: CaptionFilter })
    &&& steps[1] matches Mutator::Message(step) && step.mutator.known() == known
        && step.mutator.until() == until
    &&& steps[2] == Mutator::Packet(TickRebase { start_tick })
}

/// What a cut makes of a packet of its range: a message packet loses its
/// captions, then the stale removals of its entity updates, and every
/// packet has its tick counted from the start of the cut.
pub open spec fn cut_packet(known: Set<u32>, until: u32, start_tick: u32, packet: DemoPacketView) -> DemoPacketView {
    let kept = match packet {
        DemoPacketView::Messages { tick, messages, meta } => DemoPacketView::Messages {
            tick,
            messages: messages.filter(|m: DemoMessageView| CaptionFilter.keeps(m)).map_values(
                |m: DemoMessageView| without_stale(m, known, until),
            ),
            meta,
        },
        _ => packet,
    };
    kept.with_tick(rebased(packet.tick(), start_tick))
}

/// The steps of a cut make of a packet what `cut_packet` says.
pub proof fn lemma_cut_steps(
    steps: Seq<Mutator>,
    known: Set<u32>,
    until: u32,
    start_tick: u32,
    packet: DemoPacketView,
)
    requires
        is_cut_steps(steps, known, until, start_tick),
    ensures
        apply_all(steps, packet) == cut_packet(known, until, start_tick, packet),
{
    lemma_cut_pipeline(steps, start_tick, packet);
    let first = steps[0]->Filter_0;
    let second = steps[1]->Message_0;
    match packet {
        DemoPacketView::Messages { tick, messages, meta } => {
            let keep = |m: DemoMessageView| first.filter.keeps(m);
            let caption = |m: DemoMessageView| CaptionFilter.keeps(m);
            assert(keep =~= caption);
            let filtered = messages.filter(caption);
            assert(steps[0].mutated(packet) == DemoPacketView::Messages {
                tick,
                messages: filtered,
                meta,
            });
            assert(filtered.map_values(|m: DemoMessageView| second.mutator.rewritten(m))
                =~= filtered.map_values(|m: DemoMessageView| without_stale(m, known, until)));
        },
        _ => {},
    }
}

/// Where a preroll ends: what it has gathered, the pivot, the bytes that
/// follow the pivot, and what the context of the preroll has taken in.
pub struct PrerollEnd {
    pub gathered: PrerollView,
    pub pivot: DemoPacketView,
    pub unread: Seq<u8>,
    pub fed: Fed,
}

/// The preroll of a capture, from the bytes `unread` on, in a context that
/// has taken in `fed`, with `gathered` in hand and at most `budget` packets
/// to read.
///
/// Each packet is read and mirrored with the context as it stands. A packet
/// of a preserved kind is kept, the first other packet at or after
/// `start_tick` is the pivot and ends the preroll, and any other is folded
/// in. Every packet but the pivot is handed to the context. The preroll
/// fails where a read fails, where the context refuses a packet or the
/// budget runs out before the pivot, where the packets end before a pivot,
/// and where the entity tracker refuses a packet. There is none where it
/// comes to bytes on which the reader's arithmetic leaves its range.
pub open spec fn preroll_of(
    start_tick: u32,
    unread: Seq<u8>,
    fed: Fed,
    gathered: PrerollView,
    budget: nat,
) -> Option<Result<PrerollEnd, CutError>>
    decreases budget,
{
    if budget == 0 {
        Some(Err(CutError::Decode))
    } else {
        match read_of(unread, fed) {
            Read::OutOfRange => None,
            Read::Failed => Some(Err(CutError::Decode)),
            Read::Ended => Some(Err(CutError::MissingPivot)),
            Read::Next { packet, rest } => {
                let mirror = packet_read(packet, fed);
                if preserved(mirror.kind()) {
                    if handles(fed, packet) {
                        preroll_of(
                            start_tick,
                            rest,
                            fed.with(packet),
                            PrerollView { state: gathered.state, kept: gathered.kept.push(mirror) },
                            (budget - 1) as nat,
                        )
                    } else {
                        Some(Err(CutError::Decode))
                    }
                } else if mirror.tick() >= start_tick {
                    Some(Ok(PrerollEnd { gathered, pivot: mirror, unread: rest, fed }))
                } else {
                    match preroll_packet(gathered.state, mirror) {
                        Some(state) => if handles(fed, packet) {
                            preroll_of(
                                start_tick,
                                rest,
                                fed.with(packet),
                                PrerollView { state, kept: gathered.kept },
                                (budget - 1) as nat,
                            )
                        } else {
                            Some(Err(CutError::Decode))
                        },
                        None => Some(Err(CutError::ClassMismatch)),
                    }
                }
            },
        }
    }
}

/// Runs the preroll: reads packets from the start of the capture until the
/// pivot, and hands every packet but the pivot to the context.
///
/// What comes back is what `preroll_of` says: on success the state and the
/// kept packets of the preroll and the pivot, with the stream behind the
/// pivot, and else the error of the preroll.
///
/// `budget` bounds the number of packets read. A capture holds fewer packets
/// than bytes, so its length is a bound that is never reached.
fn skip_start(
    context: &mut DecodeContext,
    packets: &mut RawPacketStream<'static>,
    start_tick: u32,
    budget: usize,
) -> (r: Result<(StartState, DemoPacket), CutError>)
    requires
        preroll_of(
            start_tick,
            unread(*old(packets)),
            taken(*old(context)),
            PrerollView { state: preroll_start(), kept: Seq::<DemoPacketView>::empty() },
            budget as nat,
        ) is Some,
    ensures
        preroll_of(
            start_tick,
            unread(*old(packets)),
            taken(*old(context)),
            PrerollView { state: preroll_start(), kept: Seq::<DemoPacketView>::empty() },
            budget as nat,
        ) matches Some(run) && match run {
            Ok(end) => r matches Ok(found) && found.0.wf() && found.0@ == end.gathered.state
                && found.0.kept() == end.gathered.kept && found.1@ == end.pivot && unread(
                *final(packets),
            ) == end.unread && taken(*final(context)) == end.fed,
            Err(e) => r matches Err(found) && found == e,
        },
        r matches Ok(found) ==> found.1@.tick() >= start_tick && !preserved(found.1@.kind())
            && exists|read: Seq<DemoPacketView>| #[trigger]
            preroll_run(start_tick, read) == Some(
                PrerollView { state: found.0@, kept: found.0.kept() },
            ),
{
    let mut state = StartState::new();
    let ghost mut read: Seq<DemoPacketView> = Seq::empty();
    let ghost goal = preroll_of(
        start_tick,
        unread(*packets),
        taken(*context),
        PrerollView { state: preroll_start(), kept: Seq::<DemoPacketView>::empty() },
        budget as nat,
    );
    proof {
        assert(state@ == preroll_start());
    }
    let mut left = budget;
    while left > 0
        invariant
            state.wf(),
            preroll_run(start_tick, read) == Some(
                PrerollView { state: state@, kept: state.kept() },
            ),
            goal is Some,
            goal == preroll_of(
                start_tick,
                unread(*old(packets)),
                taken(*old(context)),
                PrerollView { state: preroll_start(), kept: Seq::<DemoPacketView>::empty() },
                budget as nat,
            ),
            goal == preroll_of(
                start_tick,
                unread(*packets),
                taken(*context),
                PrerollView { state: state@, kept: state.kept() },
                left as nat,
            ),
        decreases left,
    {
        left = left - 1;
        let raw = match next_packet(packets, context) {
            Ok(Some(raw)) => raw,
            Ok(None) => {
                return Err(CutError::MissingPivot);
            },
            Err(_) => {
                return Err(CutError::Decode);
            },
        };
        let packet = read_packet(&raw, context);
        let ghost mirror = packet@;
        match state.preroll(packet, start_tick) {
            Ok(PrerollStep::Pivot(pivot)) => {
                return Ok((state, pivot));
            },
            Ok(_) => {},
            Err(e) => {
                return Err(e);
            },
        }
        proof {
            assert(read.push(mirror).drop_last() =~= read);
            assert(read.push(mirror).last() == mirror);
            read = read.push(mirror);
        }
        match handle_packet(context, raw) {
            Ok(()) => {},
            Err(_) => {
                return Err(CutError::Decode);
            },
        }
    }
    Err(CutError::Decode)
}

/// What has been written: the bytes, and what the context of the writes has
/// taken in.
pub struct Written {
    pub fed: Fed,
    pub out: Seq<u8>,
}

/// What is written after one more packet. The packet is turned into the
/// codec's packet and encoded with the context as it stands, its bytes go
/// behind what is written, and the context takes the packet in. A packet
/// with an entity index that the wire does not carry is refused, and so is
/// one that the codec does not encode or the context does not accept. There
/// is none where the writer's arithmetic leaves its range on the packet.
pub open spec fn emitted(before: Written, packet: DemoPacketView) -> Option<
    Result<Written, CutError>,
> {
    if !packet_fits(packet) {
        Some(Err(CutError::Encode))
    } else {
        let raw = packet_written(packet);
        match encoded(before.fed, raw) {
            Encoded::Bytes(bytes) => if handles(before.fed, raw) {
                Some(Ok(Written { fed: before.fed.with(raw), out: before.out + bytes }))
            } else {
                Some(Err(CutError::Decode))
            },
            Encoded::Failed => Some(Err(CutError::Encode)),
            Encoded::OutOfRange => None,
        }
    }
}

/// What is written after a list of packets, taken in order.
pub open spec fn emitted_all(before: Written, packets: Seq<DemoPacketView>) -> Option<
    Result<Written, CutError>,
>
    decreases packets.len(),
{
    if packets.len() == 0 {
        Some(Ok(before))
    } else {
        match emitted(before, packets.first()) {
            Some(Ok(next)) => emitted_all(next, packets.drop_first()),
            other => other,
        }
    }
}

/// Writes a packet behind what is written already, and hands it to the
/// context. A packet with an entity index that the wire does not carry is
/// not written.
///
/// Every packet is a whole number of bytes long, so a packet is encoded into
/// a buffer of its own and the bytes are appended.
fn emit(out: &mut Vec<u8>, context: &mut DecodeContext, packet: &DemoPacket) -> (r: Result<
    (),
    CutError,
>)
    requires
        emitted(Written { fed: taken(*old(context)), out: old(out)@ }, packet@) is Some,
    ensures
        old(out)@.is_prefix_of(final(out)@),
        emitted(Written { fed: taken(*old(context)), out: old(out)@ }, packet@) matches Some(
            run,
        ) && match run {
            Ok(after) => r is Ok && final(out)@ == after.out && taken(*final(context))
                == after.fed,
            Err(e) => r == Err::<(), CutError>(e),
        },
{
    if !fits_packet(packet) {
        return Err(CutError::Encode);
    }
    let raw = write_packet(packet);
    match packet_bytes(&raw, context) {
        Ok(mut bytes) => {
            out.append(&mut bytes);
        },
        Err(_) => {
            return Err(CutError::Encode);
        },
    }
    match handle_packet(context, raw) {
        Ok(()) => Ok(()),
        Err(_) => Err(CutError::Decode),
    }
}

/// Writes a list of packets, in order, each as `emit` does, and stops at
/// the first that is refused.
fn emit_all(out: &mut Vec<u8>, context: &mut DecodeContext, packets: &Vec<DemoPacket>) -> (r:
    Result<(), CutError>)
    requires
        emitted_all(
            Written { fed: taken(*old(context)), out: old(out)@ },
            packet_views(packets@),
        ) is Some,
    ensures
        old(out)@.is_prefix_of(final(out)@),
        emitted_all(
            Written { fed: taken(*old(context)), out: old(out)@ },
            packet_views(packets@),
        ) matches Some(run) && match run {
            Ok(after) => r is Ok && final(out)@ == after.out && taken(*final(context))
                == after.fed,
            Err(e) => r == Err::<(), CutError>(e),
        },
{
    let ghost views = packet_views(packets@);
    let ghost goal = emitted_all(Written { fed: taken(*context), out: out@ }, views);
    let mut i: usize = 0;
    proof {
        assert(views.skip(0) =~= views);
    }
    while i < packets.len()
        invariant
            i <= packets.len(),
            views == packet_views(packets@),
            old(out)@.is_prefix_of(out@),
            goal is Some,
            goal == emitted_all(Written { fed: taken(*old(context)), out: old(out)@ }, views),
            goal == emitted_all(Written { fed: taken(*context), out: out@ }, views.skip(i as int)),
        decreases packets.len() - i,
    {
        let ghost before = out@;
        proof {
            assert(views.skip(i as int).first() == packets@[i as int]@);
            assert(views.skip(i as int).drop_first() =~= views.skip(i + 1));
        }
        match emit(out, context, &packets[i]) {
            Ok(()) => {},
            Err(e) => {
                return Err(e);
            },
        }
        proof {
            lemma_prefix_chain(old(out)@, before, out@);
        }
        i = i + 1;
    }
    Ok(())
}

/// What is written behind the pivot: the packets of the range, from the
/// bytes `unread` on, behind `before`, with at most `budget` packets to
/// read.
///
/// Each packet is read and mirrored with the context of the writes as it
/// stands, and rewritten as `cut_packet` says. It is written unless it is a
/// console command, and it is the last if its tick in the capture has
/// reached the end of the range. The range also ends where the packets end
/// or the budget runs out. It fails where a read or a write fails. There is
/// none where it comes to a read or a write on which the codec's arithmetic
/// leaves its range.
pub open spec fn tail_of(
    unread: Seq<u8>,
    before: Written,
    known: Set<u32>,
    until: u32,
    range: TickRange,
    budget: nat,
) -> Option<Result<Seq<u8>, CutError>>
    decreases budget,
{
    if budget == 0 {
        Some(Ok(before.out))
    } else {
        match read_of(unread, before.fed) {
            Read::OutOfRange => None,
            Read::Failed => Some(Err(CutError::Decode)),
            Read::Ended => Some(Ok(before.out)),
            Read::Next { packet, rest } => {
                let mirror = packet_read(packet, before.fed);
                let after = if mirror.kind() != PacketKind::ConsoleCmd {
                    emitted(before, cut_packet(known, until, range.start, mirror))
                } else {
                    Some(Ok(before))
                };
                match after {
                    Some(Ok(after)) => if mirror.tick() >= range.end {
                        Some(Ok(after.out))
                    } else {
                        tail_of(rest, after, known, until, range, (budget - 1) as nat)
                    },
                    Some(Err(e)) => Some(Err(e)),
                    None => None,
                }
            },
        }
    }
}

/// Copies the packets of the range behind what is written, as `tail_of`
/// says.
fn copy_range(
    out: &mut Vec<u8>,
    context: &mut DecodeContext,
    packets: &mut RawPacketStream<'static>,
    mutators: &MutatorList,
    Ghost(known): Ghost<Set<u32>>,
    until: u32,
    range: TickRange,
    budget: usize,
) -> (r: Result<(), CutError>)
    requires
        is_cut_steps(mutators@, known, until, range.start),
        tail_of(
            unread(*old(packets)),
            Written { fed: taken(*old(context)), out: old(out)@ },
            known,
            until,
            range,
            budget as nat,
        ) is Some,
    ensures
        old(out)@.is_prefix_of(final(out)@),
        tail_of(
            unread(*old(packets)),
            Written { fed: taken(*old(context)), out: old(out)@ },
            known,
            until,
            range,
            budget as nat,
        ) matches Some(run) && match run {
            Ok(bytes) => r is Ok && final(out)@ == bytes,
            Err(e) => r == Err::<(), CutError>(e),
        },
{
    let ghost goal = tail_of(
        unread(*packets),
        Written { fed: taken(*context), out: out@ },
        known,
        until,
        range,
        budget as nat,
    );
    let mut left = budget;
    while left > 0
        invariant
            is_cut_steps(mutators@, known, until, range.start),
            old(out)@.is_prefix_of(out@),
            goal is Some,
            goal == tail_of(
                unread(*old(packets)),
                Written { fed: taken(*old(context)), out: old(out)@ },
                known,
                until,
                range,
                budget as nat,
            ),
            goal == tail_of(
                unread(*packets),
                Written { fed: taken(*context), out: out@ },
                known,
                until,
                range,
                left as nat,
            ),
        decreases left,
    {
        left = left - 1;
        let raw = match next_packet(packets, context) {
            Ok(Some(raw)) => raw,
            Ok(None) => {
                return Ok(());
            },
            Err(_) => {
                return Err(CutError::Decode);
            },
        };
        let mirror = read_packet(&raw, context);
        proof {
            lemma_cut_steps(mutators@, known, until, range.start, mirror@);
        }
        let step = stream(mutators, mirror, range.end);
        if step.written {
            let ghost before = out@;
            match emit(out, context, &step.packet) {
                Ok(()) => {},
                Err(e) => {
                    return Err(e);
                },
            }
            proof {
                lemma_prefix_chain(old(out)@, before, out@);
            }
        }
        if step.last {
            return Ok(());
        }
    }
    Ok(())
}

/// What is written before stays in front of what is written after.
pub proof fn lemma_prefix_chain(a: Seq<u8>, b: Seq<u8>, c: Seq<u8>)
    requires
        a.is_prefix_of(b),
        b.is_prefix_of(c),
    ensures
        a.is_prefix_of(c),
{
    assert(a =~= c.subrange(0, a.len() as int)) by {
        assert forall|i: int| 0 <= i < a.len() implies a[i] == c[i] by {
            assert(a[i] == b.subrange(0, a.len() as int)[i]);
            assert(b[i] == c.subrange(0, b.len() as int)[i]);
        }
    }
}

/// The packets that a cut puts in front of its pivot, for the state of a
/// preroll, the baseline slots and the basis of the pivot. `is_synthesis`
/// leaves one such run only.
pub open spec fn synthesis_of(
    state: StartView,
    baselines: BaselineSlotsView,
    basis: PivotBasis,
) -> Seq<DemoPacketView> {
    choose|packets: Seq<DemoPacketView>|
        is_synthesis(packets, state.entities, state.tables, baselines, basis, state.server_tick)
}

/// What a cut writes behind the header bytes `head`, for the range `range`
/// of the capture `input` with the header `header`, and the error where it
/// writes nothing.
///
/// The preroll runs from the first packet in a context of its own. In a
/// second context, behind the header, go the packets that the preroll kept,
/// the synthesized packets for the state of the preroll and the baseline
/// slots of its context, the pivot rewritten, and the packets of the range
/// that follow the pivot, in this order. The number of bytes of the capture
/// bounds the packets of the preroll and those of the range.
pub open spec fn body_of(input: Seq<u8>, header: Header, range: TickRange, head: Seq<u8>) -> Option<
    Result<Seq<u8>, CutError>,
> {
    match preroll_of(
        range.start,
        capture_packets(input),
        Fed::new(header),
        PrerollView { state: preroll_start(), kept: Seq::<DemoPacketView>::empty() },
        input.len(),
    ) {
        Some(Ok(end)) => match emitted_all(
            Written { fed: Fed::new(header), out: head },
            end.gathered.kept,
        ) {
            Some(Ok(copied)) => match pivot_of(end.pivot) {
                Ok(basis) => {
                    let state = end.gathered.state;
                    let baselines = slots_read(end.fed);
                    let known = state.entities.active.dom();
                    if !slots_valid(baselines) {
                        Some(Err(CutError::Decode))
                    } else {
                        match emitted_all(copied, synthesis_of(state, baselines, basis)) {
                            Some(Ok(primed)) => match emitted(
                                primed,
                                cut_packet(known, state.server_tick, range.start, end.pivot),
                            ) {
                                Some(Ok(begun)) => tail_of(
                                    end.unread,
                                    begun,
                                    known,
                                    state.server_tick,
                                    range,
                                    input.len(),
                                ),
                                Some(Err(e)) => Some(Err(e)),
                                None => None,
                            },
                            Some(Err(e)) => Some(Err(e)),
                            None => None,
                        }
                    }
                },
                Err(e) => Some(Err(e)),
            },
            Some(Err(e)) => Some(Err(e)),
            None => None,
        },
        Some(Err(e)) => Some(Err(e)),
        None => None,
    }
}

/// The cut of the ticks `start_tick` to `end_tick` out of the capture
/// `input`: which bytes it is, or which error.
///
/// A capture without a header is refused, and so is a request whose range
/// is none or too long for a stop packet. The cut is the header rewritten
/// to the length of the range, what `body_of` puts behind it, and the stop
/// packet at that length. There is none where the cut comes to a read or
/// a write on which the codec's arithmetic leaves its range.
pub open spec fn cut_of(input: Seq<u8>, start_tick: u32, end_tick: u32) -> Option<
    Result<Seq<u8>, CutError>,
> {
    match capture_header(input) {
        Some(header) => match cut_range(header_ticks(header), start_tick, end_tick) {
            Some(range) => {
                let length = (range.end - range.start) as u32;
                match header_written(header, length) {
                    Some(head) => match body_of(input, header, range, head) {
                        Some(Ok(body)) => Some(Ok(body + stop_bytes(length))),
                        Some(Err(e)) => Some(Err(e)),
                        None => None,
                    },
                    None => Some(Err(CutError::Encode)),
                }
            },
            None => Some(Err(CutError::InvalidRange)),
        },
        None => Some(Err(CutError::Decode)),
    }
}

/// `out` is framed as the cut of `input` from `start_tick` to `end_tick`:
/// the capture has a header and the range of the cut, `out` begins with that
/// header rewritten to the length of the range, and `out` ends with the stop
/// packet at that length.
pub open spec fn is_framed(input: Seq<u8>, start_tick: u32, end_tick: u32, out: Seq<u8>) -> bool {
    &&& capture_ticks(input) matches Some(ticks)
    &&& cut_range(ticks, start_tick, end_tick) matches Some(range)
    &&& rewritten_header(input, (range.end - range.start) as u32) matches Some(head)
    &&& head.is_prefix_of(out)
    &&& out.len() >= head.len() + 4
    &&& out.subrange(out.len() - 4, out.len() as int) == stop_bytes(
        (range.end - range.start) as u32,
    )
}

/// Requests that come to the same range have the same cut: the result
/// follows the range of the cut, not the ticks asked for. A start beyond
/// the latest start gives what the latest start gives, and an end beyond
/// the capture gives what the end of the capture gives.
pub proof fn lemma_cut_follows_range(
    input: Seq<u8>,
    start_tick: u32,
    end_tick: u32,
    other_start: u32,
    other_end: u32,
)
    requires
        capture_ticks(input) matches Some(ticks) && cut_range(ticks, start_tick, end_tick)
            == cut_range(ticks, other_start, other_end),
    ensures
        cut_of(input, start_tick, end_tick) == cut_of(input, other_start, other_end),
{
}

/// A cut with an end at or beyond the end of the capture is the cut to the
/// end of the capture, and a cut with a start within the margin of the end
/// of the capture is the cut from the margin.
pub proof fn lemma_cut_clamps(input: Seq<u8>, start_tick: u32, end_tick: u32)
    requires
        capture_ticks(input) is Some,
    ensures
        end_tick >= capture_ticks(input)->0 ==> cut_of(input, start_tick, end_tick) == cut_of(
            input,
            start_tick,
            capture_ticks(input)->0,
        ),
        capture_ticks(input)->0 >= START_MARGIN && start_tick >= capture_ticks(input)->0
            - START_MARGIN ==> cut_of(input, start_tick, end_tick) == cut_of(
            input,
            (capture_ticks(input)->0 - START_MARGIN) as u32,
            end_tick,
        ),
{
    let ticks = capture_ticks(input)->0;
    if end_tick >= ticks {
        lemma_cut_follows_range(input, start_tick, end_tick, start_tick, ticks);
    }
    if ticks >= START_MARGIN && start_tick >= ticks - START_MARGIN {
        lemma_cut_follows_range(
            input,
            start_tick,
            end_tick,
            (ticks - START_MARGIN) as u32,
            end_tick,
        );
    }
}

/// A capture and a request leave one result only: two cuts of the same
/// capture for the same ticks are the same bytes, or the same refusal.
pub proof fn lemma_cut_determined(
    input: Seq<u8>,
    start_tick: u32,
    end_tick: u32,
    one: Result<Seq<u8>, CutError>,
    other: Result<Seq<u8>, CutError>,
)
    requires
        cut_of(input, start_tick, end_tick) == Some(one),
        cut_of(input, start_tick, end_tick) == Some(other),
    ensures
        one == other,
{
}

/// Cuts the ticks `start_tick` to `end_tick` out of the capture `input`.
///
/// The range is clamped to the capture first. The result is a capture of
/// its own: a header with the tick count of the range, the packets that
/// every capture needs, the synthesized state at the start of the range,
/// the packets of the range with their ticks counted from its start, and a
/// stop packet at the length of the range. The duration in the header is
/// carried over as it is.
///
/// The result is what `cut_of` says, bytes or error. The cut is for the
/// captures for which `cut_of` has a result. On the others the codec's
/// arithmetic leaves its range in a read or a write that the cut makes, as
/// it does on a compressed string table that copies from before its start:
/// no test short of that read or write tells them apart, and the codec does
/// not return from it where overflow is checked.
pub fn cut(input: &[u8], start_tick: u32, end_tick: u32) -> (r: Result<Vec<u8>, CutError>)
    requires
        cut_of(input@, start_tick, end_tick) is Some,
    ensures
        cut_of(input@, start_tick, end_tick) matches Some(run) && match run {
            Ok(bytes) => r matches Ok(out) && out@ == bytes,
            Err(e) => r == Err::<Vec<u8>, CutError>(e),
        },
        r matches Ok(out) ==> is_framed(input@, start_tick, end_tick, out@),
{
    let (header, mut packets) = match open_capture(input) {
        Ok(opened) => opened,
        Err(_) => {
            return Err(CutError::Decode);
        },
    };
    let ticks = ticks_of(&header);
    let range = match clamp_range(ticks, start_tick, end_tick) {
        Ok(range) => range,
        Err(e) => {
            return Err(e);
        },
    };
    let length = range.end - range.start;
    if length >= STOP_TICK_LIMIT {
        return Err(CutError::InvalidRange);
    }
    let mut out: Vec<u8> = match header_bytes(&header, length) {
        Ok(bytes) => bytes,
        Err(_) => {
            return Err(CutError::Encode);
        },
    };
    let ghost head = out@;
    let mut start_context = new_context(&header);
    let mut context = new_context(&header);

    let (start_state, mut pivot) = match skip_start(
        &mut start_context,
        &mut packets,
        range.start,
        input.len(),
    ) {
        Ok(found) => found,
        Err(e) => {
            return Err(e);
        },
    };
    let ghost state = start_state@;
    let ghost source = pivot@;
    let StartState { entities, table_updates, start_packets, server_tick } = start_state;
    match emit_all(&mut out, &mut context, &start_packets) {
        Ok(()) => {},
        Err(e) => {
            return Err(e);
        },
    }
    let ghost copied = out@;

    let basis = match pivot_basis(&pivot) {
        Ok(basis) => basis,
        Err(e) => {
            return Err(e);
        },
    };
    let known = entities.entity_ids();
    let ghost visible = known@;
    let baselines = read_baselines(&start_context);
    if !baselines.is_valid() {
        return Err(CutError::Decode);
    }
    let synthesized = synthesize(entities, table_updates, &baselines, basis, server_tick);
    proof {
        lemma_synthesis_determined(
            packet_views(synthesized@),
            synthesis_of(state, baselines@, basis),
            state.entities,
            state.tables,
            baselines@,
            basis,
            state.server_tick,
        );
    }
    match emit_all(&mut out, &mut context, &synthesized) {
        Ok(()) => {},
        Err(e) => {
            return Err(e);
        },
    }
    let ghost primed = out@;

    let mutators = cut_mutators(known, server_tick, range.start);
    mutators.mutate_packet(&mut pivot);
    proof {
        lemma_cut_steps(mutators@, visible, server_tick, range.start, source);
    }
    match emit(&mut out, &mut context, &pivot) {
        Ok(()) => {},
        Err(e) => {
            return Err(e);
        },
    }
    let ghost begun = out@;
    match copy_range(
        &mut out,
        &mut context,
        &mut packets,
        &mutators,
        Ghost(visible),
        server_tick,
        range,
        input.len(),
    ) {
        Ok(()) => {},
        Err(e) => {
            return Err(e);
        },
    }

    let ghost body = out@;
    let mut stop = stop_packet_bytes(length);
    out.append(&mut stop);
    proof {
        lemma_prefix_chain(head, copied, primed);
        lemma_prefix_chain(head, primed, begun);
        lemma_prefix_chain(head, begun, body);
        assert(out@ =~= body + stop_bytes(length));
        assert(out@.subrange(out@.len() - 4, out@.len() as int) =~= stop_bytes(length));
        assert(head =~= out@.subrange(0, head.len() as int));
    }
    Ok(out)
}

} // verus!
