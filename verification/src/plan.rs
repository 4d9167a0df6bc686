//! The decisions of a cut that need no codec: the tick range, which packets
//! pass unchanged, what the pivot packet says, and the packets that are
//! synthesized in front of it.

use tf_demo_parser::demo::packet::stringtable::StringTableEntry;
use vstd::prelude::*;

use crate::entity::{ActiveEntities, TrackerView};
use crate::error::CutError;
use crate::model::{
    message_views, slots_valid, BaselineSlots, BaselineSlotsView, DemoMessage, DemoMessageView,
    DemoPacket, DemoPacketView, EntityUpdate, EntityUpdateView, EntityView, PacketKind,
    TableUpdateView,
};
use crate::synthesis::{
    is_baseline_refresh, is_removal, is_snapshot, lemma_refresh_determined,
    lemma_removal_determined, lemma_snapshot_determined,
};
use crate::string_tables::{
    is_flattened, lemma_flattened_determined, update_views, StringTablesUpdates,
};

verus! {

/// Number of ticks that a cut keeps at least between its start and the end
/// of the capture, so that a pivot packet with an entity update exists.
pub const START_MARGIN: u32 = 10;

/// Frame time of a synthesized tick marker.
pub const NET_TICK_FRAME_TIME: u16 = 1881;

/// Frame time deviation of a synthesized tick marker.
pub const NET_TICK_STD_DEV: u16 = 263;

/// The ticks of the capture that a cut covers, `start` to `end`.
#[derive(Clone, Copy, Debug, PartialEq, Eq, Structural)]
pub struct TickRange {
    pub start: u32,
    pub end: u32,
}

/// The range that a request is clamped to in a capture of `header_ticks`
/// ticks: the start to at most `header_ticks - START_MARGIN`, the end to at
/// most `header_ticks`. There is none where the capture is shorter than the
/// margin or the clamped end lies before the clamped start.
pub open spec fn clamped_range(header_ticks: u32, start_tick: u32, end_tick: u32) -> Option<
    TickRange,
> {
    if header_ticks < START_MARGIN {
        None
    } else {
        let start = if start_tick <= header_ticks - START_MARGIN {
            start_tick
        } else {
            (header_ticks - START_MARGIN) as u32
        };
        let end = if end_tick <= header_ticks {
            end_tick
        } else {
            header_ticks
        };
        if end < start {
            None
        } else {
            Some(TickRange { start, end })
        }
    }
}

/// Clamps a requested range to the capture.
pub fn clamp_range(header_ticks: u32, start_tick: u32, end_tick: u32) -> (r: Result<
    TickRange,
    CutError,
>)
    ensures
        match clamped_range(header_ticks, start_tick, end_tick) {
            Some(range) => r == Ok::<TickRange, CutError>(range),
            None => r == Err::<TickRange, CutError>(CutError::InvalidRange),
        },
{
    if header_ticks < START_MARGIN {
        return Err(CutError::InvalidRange);
    }
    let latest = header_ticks - START_MARGIN;
    let start = if start_tick <= latest {
        start_tick
    } else {
        latest
    };
    let end = if end_tick <= header_ticks {
        end_tick
    } else {
        header_ticks
    };
    if end < start {
        Err(CutError::InvalidRange)
    } else {
        Ok(TickRange { start, end })
    }
}

/// An end beyond the capture is cut back to the capture's last tick, and a
/// start within the margin of the capture's end is moved back to the margin.
pub proof fn lemma_clamping(header_ticks: u32, start_tick: u32, end_tick: u32)
    requires
        header_ticks >= START_MARGIN,
    ensures
        end_tick > header_ticks ==> clamped_range(header_ticks, start_tick, end_tick) is Some
            && clamped_range(header_ticks, start_tick, end_tick)->0.end == header_ticks,
        end_tick > header_ticks && start_tick <= header_ticks - START_MARGIN ==> clamped_range(
            header_ticks,
            start_tick,
            end_tick,
        ) == Some(TickRange { start: start_tick, end: header_ticks }),
        start_tick > header_ticks - START_MARGIN && end_tick >= header_ticks - START_MARGIN
            ==> clamped_range(header_ticks, start_tick, end_tick) is Some && clamped_range(
            header_ticks,
            start_tick,
            end_tick,
        )->0.start == header_ticks - START_MARGIN,
        clamped_range(header_ticks, start_tick, end_tick) matches Some(range) ==> range.start
            <= range.end <= header_ticks && range.start <= start_tick && range.end <= end_tick,
{
}

/// A stop packet carries its tick in 24 bits: a cut must be shorter than
/// this many ticks.
pub const STOP_TICK_LIMIT: u32 = 0x100_0000;

/// The range of a cut: the clamped range, where there is one and the stop
/// packet can carry its length.
pub open spec fn cut_range(header_ticks: u32, start_tick: u32, end_tick: u32) -> Option<
    TickRange,
> {
    match clamped_range(header_ticks, start_tick, end_tick) {
        Some(range) => if range.end - range.start < STOP_TICK_LIMIT {
            Some(range)
        } else {
            None
        },
        None => None,
    }
}

/// Whether packets of this kind are copied into every cut as they are:
/// sign-on, data tables, string tables and tick synchronisation.
pub open spec fn preserved(kind: PacketKind) -> bool {
    kind == PacketKind::Signon || kind == PacketKind::DataTables || kind
        == PacketKind::StringTables || kind == PacketKind::SyncTick
}

/// Whether packets of this kind are copied into every cut as they are.
pub fn is_preserved(kind: PacketKind) -> (r: bool)
    ensures
        r == preserved(kind),
{
    match kind {
        PacketKind::Signon => true,
        PacketKind::DataTables => true,
        PacketKind::StringTables => true,
        PacketKind::SyncTick => true,
        _ => false,
    }
}

/// What the synthesized packets take from the pivot packet.
#[derive(Clone, Copy, Debug, PartialEq, Eq, Structural)]
pub struct PivotBasis {
    /// The basis tick of the pivot's entity update.
    pub delta_tick: u32,
    /// The slot count that it announces.
    pub max_entries: u16,
    /// The baseline slot that it reads.
    pub base_line: u8,
}

/// The last entity update of `messages` that is a difference against a
/// basis tick.
pub open spec fn last_delta_update(messages: Seq<DemoMessageView>) -> Option<EntityUpdateView>
    decreases messages.len(),
{
    if messages.len() == 0 {
        None
    } else {
        match messages.last() {
            DemoMessageView::Entities(update) => if update.delta is Some {
                Some(update)
            } else {
                last_delta_update(messages.drop_last())
            },
            _ => last_delta_update(messages.drop_last()),
        }
    }
}

/// What a packet gives as pivot: the basis of its last delta entity update,
/// which must leave room for two ticks before it.
pub open spec fn pivot_of(packet: DemoPacketView) -> Result<PivotBasis, CutError> {
    match packet {
        DemoPacketView::Messages { messages, .. } => match last_delta_update(messages) {
            Some(update) => if update.delta->0 >= 2 {
                Ok(
                    PivotBasis {
                        delta_tick: update.delta->0,
                        max_entries: update.max_entries,
                        base_line: update.base_line,
                    },
                )
            } else {
                Err(CutError::BasisOutOfRange)
            },
            None => Err(CutError::PivotWithoutEntities),
        },
        _ => Err(CutError::PivotWithoutEntities),
    }
}

/// Reads the basis tick, the slot count and the baseline slot of the pivot
/// packet.
pub fn pivot_basis(packet: &DemoPacket) -> (r: Result<PivotBasis, CutError>)
    ensures
        r == pivot_of(packet@),
{
    match packet {
        DemoPacket::Messages { messages, .. } => {
            let mut found: Option<PivotBasis> = None;
            let ghost views = message_views(messages@);
            let mut i: usize = 0;
            while i < messages.len()
                invariant
                    i <= messages.len(),
                    views == message_views(messages@),
                    match last_delta_update(views.take(i as int)) {
                        Some(update) => found == Some(
                            PivotBasis {
                                delta_tick: update.delta->0,
                                max_entries: update.max_entries,
                                base_line: update.base_line,
                            },
                        ),
                        None => found is None,
                    },
                decreases messages.len() - i,
            {
                proof {
                    assert(views.take(i + 1).drop_last() == views.take(i as int));
                    assert(views.take(i + 1).last() == messages@[i as int]@);
                }
                match &messages[i] {
                    DemoMessage::Entities(update) => {
                        match update.delta {
                            Some(delta) => {
                                found = Some(
                                    PivotBasis {
                                        delta_tick: delta,
                                        max_entries: update.max_entries,
                                        base_line: update.base_line,
                                    },
                                );
                            },
                            None => {},
                        }
                    },
                    _ => {},
                }
                i = i + 1;
            }
            proof {
                assert(views.take(i as int) == views);
            }
            match found {
                Some(basis) => if basis.delta_tick >= 2 {
                    Ok(basis)
                } else {
                    Err(CutError::BasisOutOfRange)
                },
                None => Err(CutError::PivotWithoutEntities),
            }
        },
        _ => Err(CutError::PivotWithoutEntities),
    }
}

/// The tick marker that every synthesized packet begins with.
pub open spec fn net_tick_view(tick: u32) -> DemoMessageView {
    DemoMessageView::NetTick {
        tick,
        frame_time: NET_TICK_FRAME_TIME,
        std_dev: NET_TICK_STD_DEV,
    }
}

/// A tick marker for server tick `tick`.
pub fn net_tick(tick: u32) -> (r: DemoMessage)
    ensures
        r@ == net_tick_view(tick),
{
    DemoMessage::NetTick { tick, frame_time: NET_TICK_FRAME_TIME, std_dev: NET_TICK_STD_DEV }
}

/// A message packet at packet tick zero that holds `messages`, with no meta
/// data of its own: it is written with the codec's default.
pub fn msg_packet(messages: Vec<DemoMessage>) -> (r: DemoPacket)
    ensures
        r@ == (DemoPacketView::Messages {
            tick: 0,
            messages: message_views(messages@),
            meta: None,
        }),
{
    DemoPacket::Messages { tick: 0, messages, meta: None }
}

/// `packet` is a synthesized packet for server tick `tick`: a message packet
/// at packet tick zero, without meta data of its own, that holds a tick
/// marker and one more message.
pub open spec fn announces(packet: DemoPacketView, tick: u32) -> bool {
    packet matches DemoPacketView::Messages { tick: at, messages, meta } && at == 0 && meta is None
        && messages.len() == 2 && messages[0] == net_tick_view(tick)
}

/// The message that a synthesized packet holds behind its tick marker.
pub open spec fn payload(packet: DemoPacketView) -> DemoMessageView {
    packet->Messages_messages[1]
}

/// The server tick of a synthesized packet.
pub open spec fn server_tick_of(packet: DemoPacketView) -> u32 {
    packet->Messages_messages[0]->NetTick_tick
}

/// The string-table updates that a run of synthesized packets holds.
pub open spec fn table_payloads(packets: Seq<DemoPacketView>) -> Seq<TableUpdateView> {
    packets.map_values(|p: DemoPacketView| payload(p)->TableUpdate_0)
}

/// The empty entity update of a filler packet: a difference against the
/// snapshot's tick.
pub open spec fn filler_update(basis: PivotBasis) -> EntityUpdateView {
    EntityUpdateView {
        entities: Seq::<EntityView>::empty(),
        removed_entities: Seq::<u32>::empty(),
        max_entries: basis.max_entries,
        delta: Some((basis.delta_tick - 1) as u32),
        base_line: basis.base_line,
        updated_base_line: false,
    }
}

/// Number of filler packets: one for each server tick after the pivot's
/// basis up to the last that the preroll saw.
pub open spec fn fill_count(basis: PivotBasis, server_tick: u32) -> int {
    if server_tick > basis.delta_tick {
        server_tick - basis.delta_tick
    } else {
        0
    }
}

/// `packets` is what a cut puts in front of the pivot packet:
/// the flattened string tables and the two baseline refreshes at tick
/// `delta_tick - 2`, the snapshot one tick later, the removal message at
/// `delta_tick`, and a filler for each later tick up to `server_tick`.
/// The removal message stands before the fillers, so that the ticks of the
/// packets never fall.
pub open spec fn is_synthesis(
    packets: Seq<DemoPacketView>,
    entities: TrackerView,
    tables: Map<(u8, u16), StringTableEntry<'static>>,
    baselines: BaselineSlotsView,
    basis: PivotBasis,
    server_tick: u32,
) -> bool {
    let fill = fill_count(basis, server_tick);
    let t = packets.len() - 4 - fill;
    let refresh_tick = (basis.delta_tick - 2) as u32;
    let snapshot_tick = (basis.delta_tick - 1) as u32;
    &&& t >= 0
    &&& forall|i: int|
        0 <= i < t ==> announces(#[trigger] packets[i], refresh_tick) && payload(
            packets[i],
        ) is TableUpdate
    &&& is_flattened(table_payloads(packets.take(t)), tables)
    &&& announces(packets[t], refresh_tick)
    &&& payload(packets[t]) matches DemoMessageView::Entities(m) && is_baseline_refresh(
        m,
        baselines.second,
        1,
        entities.max_entities,
    )
    &&& announces(packets[t + 1], refresh_tick)
    &&& payload(packets[t + 1]) matches DemoMessageView::Entities(m) && is_baseline_refresh(
        m,
        baselines.first,
        0,
        entities.max_entities,
    )
    &&& announces(packets[t + 2], snapshot_tick)
    &&& payload(packets[t + 2]) matches DemoMessageView::Entities(m) && is_snapshot(
        m,
        entities,
        baselines.first,
        refresh_tick,
    )
    &&& announces(packets[t + 3], basis.delta_tick)
    &&& payload(packets[t + 3]) matches DemoMessageView::Entities(m) && is_removal(
        m,
        entities,
        baselines,
        snapshot_tick,
    )
    &&& forall|j: int|
        0 <= j < fill ==> announces(
            #[trigger] packets[t + 4 + j],
            (basis.delta_tick + 1 + j) as u32,
        ) && payload(packets[t + 4 + j]) == DemoMessageView::Entities(filler_update(basis))
}

/// The values of a list of packets, in order.
pub open spec fn packet_views(s: Seq<DemoPacket>) -> Seq<DemoPacketView> {
    s.map_values(|p: DemoPacket| p@)
}

fn announce(tick: u32, message: DemoMessage) -> (r: DemoPacket)
    ensures
        announces(r@, tick),
        payload(r@) == message@,
{
    let mut messages: Vec<DemoMessage> = Vec::new();
    messages.push(net_tick(tick));
    messages.push(message);
    let r = msg_packet(messages);
    proof {
        assert(message_views(messages@).len() == 2);
        assert(message_views(messages@)[0] == net_tick_view(tick));
        assert(message_views(messages@)[1] == message@);
    }
    r
}

/// Builds the packets that bring a fresh decoder to the state of the
/// trackers, in the order in which they are written.
pub fn synthesize(
    entities: ActiveEntities,
    tables: StringTablesUpdates,
    baselines: &BaselineSlots,
    basis: PivotBasis,
    server_tick: u32,
) -> (r: Vec<DemoPacket>)
    requires
        entities.wf(),
        tables.wf(),
        slots_valid(baselines@),
        basis.delta_tick >= 2,
    ensures
        is_synthesis(packet_views(r@), entities@, tables@, baselines@, basis, server_tick),
{
    let refresh_tick = basis.delta_tick - 2;
    let mut out: Vec<DemoPacket> = Vec::new();

    let mut updates = tables.encode();
    let ghost flat = update_views(updates@);
    let t = updates.len();
    // the updates are taken from the back, so they are put in from the back
    let mut staged: Vec<DemoPacket> = Vec::new();
    while updates.len() > 0
        invariant
            updates.len() <= t,
            t == flat.len(),
            update_views(updates@) == flat.take(updates.len() as int),
            staged.len() == t - updates.len(),
            forall|i: int|
                0 <= i < staged.len() ==> announces(#[trigger] staged@[i]@, refresh_tick) && payload(
                    staged@[i]@,
                ) == DemoMessageView::TableUpdate(flat[t - 1 - i]),
        decreases updates.len(),
    {
        let ghost n = updates.len() as int;
        let ghost before = updates@;
        let update = updates.pop().unwrap();
        proof {
            assert(update@ == update_views(before)[n - 1]);
            assert(update_views(updates@) =~= flat.take(n - 1)) by {
                assert forall|i: int| 0 <= i < n - 1 implies update_views(updates@)[i] == flat.take(
                    n - 1,
                )[i] by {
                    assert(update_views(before)[i] == flat.take(n)[i]);
                }
            }
        }
        staged.push(announce(refresh_tick, DemoMessage::TableUpdate(update)));
    }
    while staged.len() > 0
        invariant
            staged.len() + out.len() == t,
            t == flat.len(),
            forall|i: int|
                0 <= i < staged.len() ==> announces(#[trigger] staged@[i]@, refresh_tick) && payload(
                    staged@[i]@,
                ) == DemoMessageView::TableUpdate(flat[t - 1 - i]),
            forall|i: int|
                0 <= i < out.len() ==> announces(#[trigger] out@[i]@, refresh_tick) && payload(
                    out@[i]@,
                ) == DemoMessageView::TableUpdate(flat[i]),
        decreases staged.len(),
    {
        let packet = staged.pop().unwrap();
        out.push(packet);
    }

    let ghost tracker = entities@;
    let (mut baseline_updates, entity_update, removed_update) = entities.encode(
        baselines,
        basis.delta_tick,
    );
    let first = baseline_updates.pop().unwrap();
    let second = baseline_updates.pop().unwrap();
    out.push(announce(second.tick, DemoMessage::Entities(second.update)));
    out.push(announce(first.tick, DemoMessage::Entities(first.update)));
    out.push(announce(entity_update.tick, DemoMessage::Entities(entity_update.update)));
    out.push(announce(removed_update.tick, DemoMessage::Entities(removed_update.update)));

    let ghost head = out@;
    let mut tick = basis.delta_tick;
    while tick < server_tick
        invariant
            basis.delta_tick <= tick,
            tick <= server_tick || tick == basis.delta_tick,
            basis.delta_tick >= 2,
            out.len() == t + 4 + (tick - basis.delta_tick),
            head.len() == t + 4,
            forall|i: int| 0 <= i < t + 4 ==> out@[i] == head[i],
            forall|j: int|
                0 <= j < tick - basis.delta_tick ==> announces(
                    #[trigger] out@[t + 4 + j]@,
                    (basis.delta_tick + 1 + j) as u32,
                ) && payload(out@[t + 4 + j]@) == DemoMessageView::Entities(filler_update(basis)),
        decreases server_tick - tick,
    {
        tick = tick + 1;
        let filler = EntityUpdate {
            entities: Vec::new(),
            removed_entities: Vec::new(),
            max_entries: basis.max_entries,
            delta: Some(basis.delta_tick - 1),
            base_line: basis.base_line,
            updated_base_line: false,
        };
        proof {
            assert(filler@.entities =~= Seq::<EntityView>::empty());
            assert(filler@ == filler_update(basis));
        }
        out.push(announce(tick, DemoMessage::Entities(filler)));
    }
    proof {
        let packets = packet_views(out@);
        assert(fill_count(basis, server_tick) == tick - basis.delta_tick);
        assert(table_payloads(packets.take(t as int)) =~= flat) by {
            assert forall|i: int| 0 <= i < t implies table_payloads(packets.take(t as int))[i]
                == flat[i] by {
                assert(out@[i] == head[i]);
            }
        }
        assert forall|i: int| 0 <= i < t implies announces(
            #[trigger] packets[i],
            refresh_tick,
        ) && payload(packets[i]) is TableUpdate by {
            assert(out@[i] == head[i]);
        }
        assert(out@[t as int] == head[t as int]);
        assert(out@[t + 1] == head[t + 1]);
        assert(out@[t + 2] == head[t + 2]);
        assert(out@[t + 3] == head[t + 3]);
    }
    out
}

/// The messages of a synthesized packet.
pub open spec fn messages_of(packet: DemoPacketView) -> Seq<DemoMessageView> {
    packet->Messages_messages
}

/// The trackers, the baseline slots, the pivot's basis and the last server
/// tick leave one run of synthesized packets only: the same state gives the
/// same packets.
pub proof fn lemma_synthesis_determined(
    a: Seq<DemoPacketView>,
    b: Seq<DemoPacketView>,
    entities: TrackerView,
    tables: Map<(u8, u16), StringTableEntry<'static>>,
    baselines: BaselineSlotsView,
    basis: PivotBasis,
    server_tick: u32,
)
    requires
        is_synthesis(a, entities, tables, baselines, basis, server_tick),
        is_synthesis(b, entities, tables, baselines, basis, server_tick),
    ensures
        a.len() == b.len(),
        forall|i: int| 0 <= i < a.len() ==> messages_of(#[trigger] a[i]) == messages_of(b[i]),
        a == b,
{
    let fill = fill_count(basis, server_tick);
    let ta = a.len() - 4 - fill;
    let tb = b.len() - 4 - fill;
    lemma_flattened_determined(
        table_payloads(a.take(ta)),
        table_payloads(b.take(tb)),
        tables,
    );
    assert(table_payloads(a.take(ta)).len() == ta);
    assert(table_payloads(b.take(tb)).len() == tb);
    let t = ta;
    lemma_refresh_determined(
        payload(a[t])->Entities_0,
        payload(b[t])->Entities_0,
        baselines.second,
        1,
        entities.max_entities,
    );
    lemma_refresh_determined(
        payload(a[t + 1])->Entities_0,
        payload(b[t + 1])->Entities_0,
        baselines.first,
        0,
        entities.max_entities,
    );
    lemma_snapshot_determined(
        payload(a[t + 2])->Entities_0,
        payload(b[t + 2])->Entities_0,
        entities,
        baselines.first,
        (basis.delta_tick - 2) as u32,
    );
    lemma_removal_determined(
        payload(a[t + 3])->Entities_0,
        payload(b[t + 3])->Entities_0,
        entities,
        baselines,
        (basis.delta_tick - 1) as u32,
    );
    assert forall|i: int| 0 <= i < a.len() implies messages_of(#[trigger] a[i]) == messages_of(
        b[i],
    ) by {
        if i < t {
            assert(announces(a[i], (basis.delta_tick - 2) as u32));
            assert(announces(b[i], (basis.delta_tick - 2) as u32));
            assert(table_payloads(a.take(t))[i] == table_payloads(b.take(t))[i]);
            assert(a.take(t)[i] == a[i] && b.take(t)[i] == b[i]);
            assert(payload(a[i]) == payload(b[i]));
        } else if i >= t + 4 {
            let j = i - t - 4;
            assert(announces(a[t + 4 + j], (basis.delta_tick + 1 + j) as u32));
            assert(announces(b[t + 4 + j], (basis.delta_tick + 1 + j) as u32));
        }
        assert(messages_of(a[i]) =~= messages_of(b[i]));
    }
    assert forall|i: int| 0 <= i < a.len() implies #[trigger] a[i] == b[i] by {
        assert(messages_of(a[i]) == messages_of(b[i]));
        if i < t {
            assert(announces(a[i], (basis.delta_tick - 2) as u32));
            assert(announces(b[i], (basis.delta_tick - 2) as u32));
        } else if i >= t + 4 {
            let j = i - t - 4;
            assert(announces(a[t + 4 + j], (basis.delta_tick + 1 + j) as u32));
            assert(announces(b[t + 4 + j], (basis.delta_tick + 1 + j) as u32));
        }
    }
    assert(a =~= b);
}

/// Whether some packet of `packets` is at server tick `tick`.
pub open spec fn has_tick(packets: Seq<DemoPacketView>, tick: int) -> bool {
    exists|i: int| 0 <= i < packets.len() && server_tick_of(#[trigger] packets[i]) == tick
}

/// The synthesized packets leave no server tick out: they begin two ticks
/// before the pivot's basis, each is at the tick of the one before it or at
/// the next, and they end at the later of the pivot's basis and the last
/// server tick of the preroll. So every tick in between has a packet.
pub proof fn lemma_chain_dense(
    packets: Seq<DemoPacketView>,
    entities: TrackerView,
    tables: Map<(u8, u16), StringTableEntry<'static>>,
    baselines: BaselineSlotsView,
    basis: PivotBasis,
    server_tick: u32,
)
    requires
        basis.delta_tick >= 2,
        is_synthesis(packets, entities, tables, baselines, basis, server_tick),
    ensures
        packets.len() >= 4,
        server_tick_of(packets[0]) == basis.delta_tick - 2,
        forall|i: int|
            0 <= i < packets.len() - 1 ==> server_tick_of(packets[i]) <= server_tick_of(
                #[trigger] packets[i + 1],
            ) <= server_tick_of(packets[i]) + 1,
        server_tick_of(packets.last()) == if server_tick > basis.delta_tick {
            server_tick
        } else {
            basis.delta_tick
        },
        forall|tick: int|
            basis.delta_tick - 2 <= tick <= server_tick_of(packets.last()) ==> #[trigger] has_tick(
                packets,
                tick,
            ),
{
    let fill = fill_count(basis, server_tick);
    let t = packets.len() - 4 - fill;
    let d = basis.delta_tick;
    assert forall|i: int| 0 <= i < packets.len() implies server_tick_of(#[trigger] packets[i])
        == (if i <= t + 1 {
        d - 2
    } else if i == t + 2 {
        d - 1
    } else {
        d + (i - t - 3)
    }) by {
        if i < t {
            assert(announces(packets[i], (d - 2) as u32));
        } else if i >= t + 4 {
            let j = i - t - 4;
            assert(announces(packets[t + 4 + j], (d + 1 + j) as u32));
        }
    }
    assert forall|tick: int|
        d - 2 <= tick <= server_tick_of(packets.last()) implies #[trigger] has_tick(
        packets,
        tick,
    ) by {
        let i = if tick == d - 2 {
            t
        } else if tick == d - 1 {
            t + 2
        } else {
            t + 3 + (tick - d)
        };
        assert(0 <= i < packets.len() && server_tick_of(packets[i]) == tick);
    }
}

} // verus!
