//! The shared state as mathematical values, and what holds of its exchange.
//!
//! Everything that `capture` and `apply` do to a context is defined here on
//! [`ContextState`], and the laws of the exchange are proved here: that only
//! what has changed is sent, that a full snapshot reconstructs the state, and
//! that a snapshot which is rejected changes nothing.

use crate::arc_cache::CachedObject;
use crate::cache_state::{
    adopted, lemma_others, lemma_spared_is_kept, names, others, remote_identity, without,
    CacheState,
};
use crate::codec::{encoded_u64, lemma_u64_round_trip, parsed_u64};
use crate::deltas::{advanced, ContextSnapshotDeltas, Partition};
use crate::error::SyncError;
use crate::frame::{
    decoded_frame, encoded_frame, lemma_frame_round_trip, position_of, FrameSpec, ViewportSpec,
};
use crate::snapshot::SnapshotSpec;
use vstd::prelude::*;

verus! {

/// The id of the viewport that every context has from the start.
pub const ROOT_VIEWPORT: u64 = 0xffff_ffff_ffff_ffff;

/// The bit pattern of the scale factor 1.
pub const DEFAULT_PIXELS_PER_POINT: u32 = 0x3f80_0000;

/// The texture limit of a viewport that has had no input yet.
pub const DEFAULT_MAX_TEXTURE_SIDE: u64 = 2048;

/// What one side knows of a viewport's repainting. It stays on its side.
#[derive(Clone, Copy, Debug, PartialEq, Eq, Structural)]
pub struct ViewportRepaintInfo {
    /// The frame counter with which the viewport's state last arrived.
    pub frame_nr: u64,
    /// The number of repaints that were asked for and are still due.
    pub outstanding: u8,
}

/// The fonts that were laid out for one scale factor. They are derived from
/// the font definitions and never cross the boundary.
#[derive(Clone, Copy, Debug, PartialEq, Eq, Structural)]
pub struct ScaledFonts {
    /// The bit pattern of the scale factor.
    pub pixels_per_point: u32,
    /// The texture limit that the atlas was made for.
    pub max_texture_side: u64,
    /// Whether the fonts are prepared for the frame that the state holds. A
    /// snapshot of another frame leaves them unprepared until they are used.
    pub prepared: bool,
    /// Whether the common glyphs were loaded when the fonts were made.
    pub preloaded: bool,
}

/// The position of the fonts for the scale factor `pixels_per_point`.
pub open spec fn fonts_position(fonts: Seq<ScaledFonts>, pixels_per_point: u32) -> Option<int>
    decreases fonts.len(),
{
    if fonts.len() == 0 {
        None
    } else {
        match fonts_position(fonts.drop_last(), pixels_per_point) {
            Some(position) => Some(position),
            None => if fonts.last().pixels_per_point == pixels_per_point {
                Some(fonts.len() - 1)
            } else {
                None
            },
        }
    }
}

/// Fonts that are found among the first entries are found among all.
pub proof fn lemma_fonts_position_stays(fonts: Seq<ScaledFonts>, first: int, pixels_per_point: u32)
    requires
        0 <= first <= fonts.len(),
        fonts_position(fonts.take(first), pixels_per_point) is Some,
    ensures
        fonts_position(fonts, pixels_per_point) == fonts_position(
            fonts.take(first),
            pixels_per_point,
        ),
        0 <= fonts_position(fonts, pixels_per_point).unwrap() < first,
    decreases fonts.len() - first,
{
    if first < fonts.len() {
        assert(fonts.take(first + 1).drop_last() =~= fonts.take(first));
        lemma_fonts_position_stays(fonts, first + 1, pixels_per_point);
        lemma_fonts_position_bound(fonts.take(first), pixels_per_point);
    } else {
        assert(fonts.take(first) =~= fonts);
        lemma_fonts_position_bound(fonts, pixels_per_point);
    }
}

/// What `fonts_position` finds is an entry of the list for the scale factor,
/// and where it finds nothing there is none.
pub proof fn lemma_fonts_position_bound(fonts: Seq<ScaledFonts>, pixels_per_point: u32)
    ensures
        match fonts_position(fonts, pixels_per_point) {
            Some(position) => 0 <= position < fonts.len() && fonts[position].pixels_per_point
                == pixels_per_point,
            None => forall|i: int|
                0 <= i < fonts.len() ==> (#[trigger] fonts[i]).pixels_per_point
                    != pixels_per_point,
        },
    decreases fonts.len(),
{
    if fonts.len() > 0 {
        lemma_fonts_position_bound(fonts.drop_last(), pixels_per_point);
        if fonts_position(fonts.drop_last(), pixels_per_point) is None {
            assert forall|i: int| 0 <= i < fonts.len() - 1 implies (
            #[trigger] fonts[i]).pixels_per_point != pixels_per_point by {
                assert(fonts[i] == fonts.drop_last()[i]);
            }
        }
    }
}

/// The fonts after a snapshot of another frame has arrived: the same fonts,
/// none of them prepared.
pub open spec fn unprepared(fonts: Seq<ScaledFonts>) -> Seq<ScaledFonts> {
    fonts.map_values(|laid_out: ScaledFonts| ScaledFonts { prepared: false, ..laid_out })
}

/// Whether no two of the fonts are for the same scale factor.
pub open spec fn distinct_scales(fonts: Seq<ScaledFonts>) -> bool {
    forall|i: int, j: int|
        0 <= i < j < fonts.len() ==> (#[trigger] fonts[i]).pixels_per_point != (
        #[trigger] fonts[j]).pixels_per_point
}

/// One side's copy of the shared state, as mathematical values.
pub struct ContextState {
    /// The style sheet in use.
    pub style: CachedObject<Vec<u8>>,
    /// The identity of the style when the state was last captured or
    /// overwritten.
    pub last_style: u128,
    /// The installed font definitions.
    pub font_definitions: Seq<u8>,
    /// Whether the font definitions have changed since then.
    pub font_definitions_changed: bool,
    /// The frame partition.
    pub frame: FrameSpec,
    /// Whether the frame partition has changed since then.
    pub frame_changed: bool,
    /// The repaint information of each viewport, in the viewports' order.
    pub repaint: Seq<ViewportRepaintInfo>,
    /// The counters when the state was last captured or overwritten.
    pub deltas: ContextSnapshotDeltas,
    /// The object cache.
    pub cache: CacheState<Vec<u8>>,
    /// The fonts that are laid out, one entry for each scale factor.
    pub fonts: Seq<ScaledFonts>,
}

impl ContextState {
    /// The invariant of a state.
    pub open spec fn wf(self) -> bool {
        &&& self.frame.wf()
        &&& self.repaint.len() == self.frame.viewports.len()
        &&& self.deltas.of_a_state()
        &&& self.cache.wf()
        &&& distinct_scales(self.fonts)
    }

    /// Whether `partition` has changed since the state was last captured or
    /// overwritten.
    pub open spec fn touched(self, partition: Partition) -> bool {
        match partition {
            Partition::Style => self.style.identity != self.last_style,
            Partition::FontDefinitions => self.font_definitions_changed,
            Partition::Frame => self.frame_changed,
        }
    }

    /// The counters of the state as it is now: a partition that has changed
    /// since the state was last captured or overwritten has moved on by one
    /// step, every other partition has the counter of that time.
    pub open spec fn current_deltas(self) -> ContextSnapshotDeltas {
        ContextSnapshotDeltas {
            frame_count: self.current_counter(Partition::Frame),
            style_count: self.current_counter(Partition::Style),
            font_definitions_count: self.current_counter(Partition::FontDefinitions),
        }
    }

    /// The counter of `partition` as the state is now.
    pub open spec fn current_counter(self, partition: Partition) -> u64 {
        if self.touched(partition) {
            advanced(self.deltas.counter(partition))
        } else {
            self.deltas.counter(partition)
        }
    }
}

impl ContextState {
    /// The state of a context that has just been made: the default style
    /// with the identity 0, nothing in memory, the root viewport alone,
    /// counters at 1, an empty cache.
    pub open spec fn fresh(style: CachedObject<Vec<u8>>) -> Self {
        ContextState {
            style,
            last_style: 0,
            font_definitions: Seq::empty(),
            font_definitions_changed: false,
            frame: FrameSpec {
                memory: Seq::empty(),
                new_font_definitions: None,
                options: Seq::empty(),
                preload_font_glyphs: true,
                new_zoom_factor: None,
                last_viewport: ROOT_VIEWPORT,
                viewports: seq![
                    ViewportSpec {
                        id: ROOT_VIEWPORT,
                        pixels_per_point: DEFAULT_PIXELS_PER_POINT,
                        max_texture_side: DEFAULT_MAX_TEXTURE_SIDE,
                        state: Seq::empty(),
                    },
                ],
            },
            frame_changed: false,
            repaint: seq![ViewportRepaintInfo { frame_nr: 0, outstanding: 0 }],
            deltas: ContextSnapshotDeltas {
                frame_count: 1,
                style_count: 1,
                font_definitions_count: 1,
            },
            cache: CacheState::empty(),
            fonts: Seq::empty(),
        }
    }
}

impl ContextState {
    /// The state after a viewport's state was put in place.
    pub open spec fn with_viewport(self, viewport: ViewportSpec) -> Self {
        match position_of(self.frame.viewports, viewport.id) {
            Some(position) => ContextState {
                frame: FrameSpec {
                    viewports: self.frame.viewports.update(position, viewport),
                    ..self.frame
                },
                frame_changed: true,
                ..self
            },
            None => ContextState {
                frame: FrameSpec { viewports: self.frame.viewports.push(viewport), ..self.frame },
                frame_changed: true,
                repaint: self.repaint.push(ViewportRepaintInfo { frame_nr: 0, outstanding: 0 }),
                ..self
            },
        }
    }
}

impl ContextState {
    /// Whether a consumer with the counters `consumer` has to be sent
    /// `partition`: its counter is not the state's.
    pub open spec fn sends(self, consumer: ContextSnapshotDeltas, partition: Partition) -> bool {
        consumer.changed(self.current_deltas(), partition)
    }

    /// Whether a snapshot for `consumer` can be taken: where the style has
    /// to be sent, the cache knows it already or has an id left for it.
    pub open spec fn can_capture(self, consumer: ContextSnapshotDeltas) -> bool {
        self.sends(consumer, Partition::Style) ==> self.cache.has_room_for(self.style)
    }

    /// The cache after the style was named for `consumer`, where it has to
    /// be sent.
    pub open spec fn cache_with_style(self, consumer: ContextSnapshotDeltas) -> CacheState<
        Vec<u8>,
    > {
        if self.sends(consumer, Partition::Style) {
            self.cache.inserted(self.style)
        } else {
            self.cache
        }
    }

    /// The payload of `partition`.
    pub open spec fn payload(self, partition: Partition) -> Seq<u8> {
        match partition {
            Partition::Style => encoded_u64(self.cache.id_of(self.style)),
            Partition::FontDefinitions => self.font_definitions,
            Partition::Frame => encoded_frame(self.frame),
        }
    }

    /// The payload of `partition` in a snapshot for `consumer`: present
    /// exactly if the partition has to be sent.
    pub open spec fn sent(self, consumer: ContextSnapshotDeltas, partition: Partition) -> Option<
        Seq<u8>,
    > {
        if self.sends(consumer, partition) {
            Some(self.payload(partition))
        } else {
            None
        }
    }

    /// The id under which the cache holds the style in use once the
    /// snapshot for `consumer` is taken, if it holds it.
    pub open spec fn held_style(self, consumer: ContextSnapshotDeltas) -> Option<u64> {
        let cache = self.cache_with_style(consumer);
        if cache.ids.contains_key(self.style.identity) {
            Some(cache.ids[self.style.identity])
        } else {
            None
        }
    }

    /// The ids that the cache lets go of while the snapshot for `consumer`
    /// is taken, given the holders that were counted for each id: what
    /// nothing else refers to, but never the style in use.
    pub open spec fn let_go(
        self,
        consumer: ContextSnapshotDeltas,
        counts: Seq<(u64, usize)>,
    ) -> Seq<u64> {
        match self.held_style(consumer) {
            Some(id) => self.cache_with_style(consumer).unreferenced(without(counts, id)),
            None => self.cache_with_style(consumer).unreferenced(counts),
        }
    }

    /// The additions that the snapshot for `consumer` carries, where
    /// `pending` waits in the cache. A consumer that has seen nothing
    /// cannot know the style by its id, so for it the style is carried with
    /// its id whether it waits in the cache or not, in place of what waits
    /// under that id. For every other consumer the additions are what
    /// waits.
    pub open spec fn announced(
        self,
        consumer: ContextSnapshotDeltas,
        pending: Seq<(u64, CachedObject<Vec<u8>>)>,
    ) -> Seq<(u64, CachedObject<Vec<u8>>)> {
        if consumer.style_count == 0 && self.sends(consumer, Partition::Style) {
            others(pending, self.cache.id_of(self.style)).push(
                (self.cache.id_of(self.style), self.style),
            )
        } else {
            pending
        }
    }

    /// The snapshot for `consumer`, where the cache lets go of the objects
    /// under `gone` while it is taken.
    pub open spec fn captured(
        self,
        consumer: ContextSnapshotDeltas,
        gone: Seq<u64>,
    ) -> SnapshotSpec {
        let cache = self.cache_with_style(consumer).evicted(gone);
        SnapshotSpec {
            deltas: self.current_deltas(),
            style: self.sent(consumer, Partition::Style),
            font_definitions: self.sent(consumer, Partition::FontDefinitions),
            frame: self.sent(consumer, Partition::Frame),
            id_counter: cache.next_id,
            to_add: self.announced(consumer, cache.to_add),
            to_remove: cache.to_remove,
        }
    }

    /// The state after that snapshot was taken: the same contents, with the
    /// counters of the snapshot and nothing changed since.
    pub open spec fn after_capture(self, consumer: ContextSnapshotDeltas, gone: Seq<u64>) -> Self {
        ContextState {
            last_style: self.style.identity,
            font_definitions_changed: false,
            frame_changed: false,
            deltas: self.current_deltas(),
            cache: self.cache_with_style(consumer).evicted(gone),
            ..self
        }
    }

    /// The ids that the cache let go of while `snapshot` was taken.
    pub open spec fn evictions(self, snapshot: SnapshotSpec) -> Seq<u64> {
        snapshot.to_remove.skip(self.cache.to_remove.len() as int)
    }
}

/// The id that the payload of a style partition names, if the payload is
/// well formed: eight bytes, no more.
pub open spec fn style_id(payload: Seq<u8>) -> Option<u64> {
    match parsed_u64(payload, 0) {
        Some((id, end)) => if end == payload.len() {
            Some(id)
        } else {
            None
        },
        None => None,
    }
}

/// The repaint information of a new list of viewports. A viewport that this
/// side knew keeps what this side had noted for it, a new one starts with
/// nothing noted. Where the list arrived with a snapshot, every viewport gets
/// the snapshot's frame counter.
pub open spec fn repaints_after(
    known: Seq<ViewportSpec>,
    repaint: Seq<ViewportRepaintInfo>,
    arrived: Seq<ViewportSpec>,
    frame_nr: Option<u64>,
) -> Seq<ViewportRepaintInfo> {
    Seq::new(
        arrived.len(),
        |j: int|
            {
                let noted = match position_of(known, arrived[j].id) {
                    Some(position) => repaint[position],
                    None => ViewportRepaintInfo { frame_nr: 0, outstanding: 0 },
                };
                ViewportRepaintInfo {
                    frame_nr: match frame_nr {
                        Some(arrived_with) => arrived_with,
                        None => noted.frame_nr,
                    },
                    outstanding: noted.outstanding,
                }
            },
    )
}

impl ContextState {
    /// Whether a style partition that names `id` can be resolved once the
    /// snapshot's additions are recorded.
    pub open spec fn resolves(self, snapshot: SnapshotSpec, id: u64) -> bool {
        self.cache.objects.contains_key(id) || names(snapshot.to_add, id)
    }

    /// Why `snapshot` cannot be applied to this state, if it cannot: its
    /// counters are not those of a state or its cache delta is not
    /// acceptable (a protocol violation), a partition is malformed (an
    /// encoding error), or its style names an id that nothing resolves (a
    /// protocol violation).
    pub open spec fn rejection(self, snapshot: SnapshotSpec) -> Option<SyncError> {
        if !snapshot.deltas.of_a_state() || !self.cache.accepts(
            snapshot.id_counter,
            snapshot.to_add,
        ) {
            Some(SyncError::ProtocolViolation)
        } else if (snapshot.style matches Some(payload) && style_id(payload) is None) || (
        snapshot.frame matches Some(payload) && decoded_frame(payload) is None) {
            Some(SyncError::EncodingError)
        } else if snapshot.style matches Some(payload) && !self.resolves(
            snapshot,
            style_id(payload).unwrap(),
        ) {
            Some(SyncError::ProtocolViolation)
        } else {
            None
        }
    }

    /// What applying `snapshot` to this state returns.
    pub open spec fn verdict(self, snapshot: SnapshotSpec) -> Result<(), SyncError> {
        match self.rejection(snapshot) {
            Some(error) => Err(error),
            None => Ok(()),
        }
    }

    /// The state after `snapshot` was applied: the cache has taken over the
    /// delta, every partition that the snapshot carries has its content,
    /// every other partition is as before, the counters are the snapshot's
    /// and nothing counts as changed. What is derived is not rebuilt: fonts
    /// that were laid out for other font definitions are dropped, and fonts
    /// that were prepared for another frame are left unprepared, until the
    /// fonts are next used.
    pub open spec fn applied(self, snapshot: SnapshotSpec) -> Self {
        let cache = self.cache.applied(snapshot.id_counter, snapshot.to_add);
        let style = match snapshot.style {
            Some(payload) => cache.objects[style_id(payload).unwrap()],
            None => self.style,
        };
        let frame = match snapshot.frame {
            Some(payload) => decoded_frame(payload).unwrap(),
            None => self.frame,
        };
        ContextState {
            style,
            last_style: style.identity,
            font_definitions: match snapshot.font_definitions {
                Some(payload) => payload,
                None => self.font_definitions,
            },
            font_definitions_changed: false,
            frame,
            frame_changed: false,
            repaint: if snapshot.frame is Some {
                repaints_after(
                    self.frame.viewports,
                    self.repaint,
                    frame.viewports,
                    Some(snapshot.deltas.frame_count),
                )
            } else {
                self.repaint
            },
            deltas: snapshot.deltas,
            cache,
            fonts: if snapshot.font_definitions is Some {
                Seq::empty()
            } else if snapshot.deltas.frame_count != self.deltas.frame_count {
                unprepared(self.fonts)
            } else {
                self.fonts
            },
        }
    }
}

impl ContextState {
    /// Whether two states hold the same in every partition that crosses the
    /// boundary: the same style sheet, font definitions and frame partition.
    /// Repaint information and fonts are each side's own.
    pub open spec fn same_content(self, other: Self) -> bool {
        &&& self.style.value@ == other.style.value@
        &&& self.font_definitions == other.font_definitions
        &&& self.frame == other.frame
    }
}

/// A snapshot carries the payload of a partition exactly if the consumer's
/// counter for it differs from the state's.
pub proof fn lemma_capture_sends_what_differs(
    state: ContextState,
    consumer: ContextSnapshotDeltas,
    gone: Seq<u64>,
    partition: Partition,
)
    ensures
        state.captured(consumer, gone).payload(partition) is Some <==> consumer.changed(
            state.current_deltas(),
            partition,
        ),
        state.captured(consumer, gone).deltas == state.current_deltas(),
{
}

/// Once a snapshot is taken or applied, nothing counts as changed, and the
/// state's counters are the snapshot's: the two sides agree on them.
pub proof fn lemma_exchange_settles(
    state: ContextState,
    consumer: ContextSnapshotDeltas,
    gone: Seq<u64>,
    snapshot: SnapshotSpec,
    partition: Partition,
)
    ensures
        !state.after_capture(consumer, gone).touched(partition),
        state.after_capture(consumer, gone).current_deltas() == state.captured(
            consumer,
            gone,
        ).deltas,
        !state.applied(snapshot).touched(partition),
        state.applied(snapshot).current_deltas() == snapshot.deltas,
{
}

/// Only what has changed is sent: a consumer that holds the counters of the
/// last exchange is sent the payload of exactly the partitions that have
/// changed since.
pub proof fn lemma_delta_minimality(state: ContextState, gone: Seq<u64>, partition: Partition)
    ensures
        state.captured(state.deltas, gone).payload(partition) is Some <==> state.touched(
            partition,
        ),
{
}

/// A side that has changed nothing sends nothing: the snapshot that a state
/// gives right after it was overwritten, to a consumer with the counters
/// that came with the overwriting snapshot, carries no partition at all.
pub proof fn lemma_unchanged_state_sends_nothing(
    state: ContextState,
    arrived: SnapshotSpec,
    gone: Seq<u64>,
    partition: Partition,
)
    ensures
        state.applied(arrived).captured(arrived.deltas, gone).payload(partition) is None,
{
    lemma_delta_minimality(state.applied(arrived), gone, partition);
}

/// Where one partition alone has changed since the last exchange, the
/// snapshot carries bytes for it and for no other partition.
pub proof fn lemma_single_change_is_sent_alone(
    state: ContextState,
    gone: Seq<u64>,
    partition: Partition,
    other: Partition,
)
    requires
        state.touched(partition),
        forall|any: Partition| #[trigger] state.touched(any) ==> any == partition,
    ensures
        state.captured(state.deltas, gone).payload(other) is Some <==> other == partition,
{
    lemma_delta_minimality(state, gone, other);
}

/// A consumer that has seen nothing is sent every partition.
pub proof fn lemma_first_snapshot_is_full(state: ContextState, gone: Seq<u64>, partition: Partition)
    requires
        state.wf(),
    ensures
        state.captured(ContextSnapshotDeltas::nothing_seen(), gone).payload(partition) is Some,
{
}

/// A snapshot with a partition that is malformed is rejected; so is one
/// whose style names an id that nothing resolves. `apply` leaves the state
/// untouched then.
pub proof fn lemma_corrupt_snapshot_is_rejected(state: ContextState, snapshot: SnapshotSpec)
    requires
        (snapshot.frame matches Some(payload) && decoded_frame(payload) is None) || (
        snapshot.style matches Some(payload) && (style_id(payload) is None || !state.resolves(
            snapshot,
            style_id(payload).unwrap(),
        ))),
    ensures
        state.rejection(snapshot) is Some,
{
}

/// What is derived is invalidated, not rebuilt: once a snapshot of another
/// frame is applied, none of the fonts is prepared.
pub proof fn lemma_other_frame_invalidates_fonts(
    state: ContextState,
    snapshot: SnapshotSpec,
    i: int,
)
    requires
        snapshot.deltas.frame_count != state.deltas.frame_count,
        0 <= i < state.applied(snapshot).fonts.len(),
    ensures
        !state.applied(snapshot).fonts[i].prepared,
{
}

/// The full snapshot of a state reconstructs the state: applied to a
/// receiver whose cache is empty, the snapshot for a consumer that has seen
/// nothing is accepted, and the receiver then holds what the sender holds in
/// every partition that crosses the boundary. That is so whether the
/// sender's cache has announced the style before or not.
pub proof fn lemma_round_trip(sender: ContextState, receiver: ContextState, gone: Seq<u64>)
    requires
        sender.wf(),
        sender.can_capture(ContextSnapshotDeltas::nothing_seen()),
        sender.cache_with_style(ContextSnapshotDeltas::nothing_seen()).may_evict(gone),
        receiver.cache == CacheState::<Vec<u8>>::empty(),
    ensures
        receiver.rejection(sender.captured(ContextSnapshotDeltas::nothing_seen(), gone)) is None,
        receiver.applied(
            sender.captured(ContextSnapshotDeltas::nothing_seen(), gone),
        ).same_content(sender),
        receiver.applied(
            sender.captured(ContextSnapshotDeltas::nothing_seen(), gone),
        ).current_deltas() == sender.current_deltas(),
{
    let consumer = ContextSnapshotDeltas::nothing_seen();
    let snapshot = sender.captured(consumer, gone);
    let named = sender.cache_with_style(consumer);
    let cache = named.evicted(gone);
    let id = sender.cache.id_of(sender.style);
    assert(sender.sends(consumer, Partition::Style));
    assert(sender.sends(consumer, Partition::FontDefinitions));
    assert(sender.sends(consumer, Partition::Frame));
    sender.cache.lemma_inserted_wf(sender.style);
    named.lemma_evicted_wf(gone);
    // The style travels as its id, and the id is announced with the style.
    let payload = encoded_u64(id);
    assert(payload.subrange(0, payload.len() as int) =~= payload);
    lemma_u64_round_trip(payload, 0, id);
    assert(style_id(payload) == Some(id));
    let kept = others(named.to_add, id);
    let last = kept.len() as int;
    assert(snapshot.to_add == kept.push((id, sender.style)));
    assert(snapshot.to_add[last] == (id, sender.style));
    assert(names(snapshot.to_add, id));
    assert(named.ids.contains_key(sender.style.identity));
    assert(named.objects.contains_key(id));
    // The receiver's empty cache accepts what is announced.
    lemma_others(named.to_add, id);
    assert(receiver.cache.accepts(snapshot.id_counter, snapshot.to_add)) by {
        assert forall|i: int| 0 <= i < snapshot.to_add.len() implies {
            &&& (#[trigger] snapshot.to_add[i]).0 < snapshot.id_counter
            &&& receiver.cache.admits(snapshot.to_add[i].0)
        } by {
            if i < last {
                assert(snapshot.to_add[i] == kept[i]);
                let a = choose|a: int|
                    0 <= a < named.to_add.len() && #[trigger] named.to_add[a] == kept[i];
                assert(named.objects.contains_key(named.to_add[a].0));
            }
        }
        assert forall|i: int, j: int| 0 <= i < j < snapshot.to_add.len() implies (
        #[trigger] snapshot.to_add[i]).0 != (#[trigger] snapshot.to_add[j]).0 by {
            assert(snapshot.to_add[i] == kept[i]);
            if j < last {
                assert(snapshot.to_add[j] == kept[j]);
            }
        }
    }
    receiver.cache.lemma_absorbed(snapshot.id_counter, snapshot.to_add);
    // The frame partition is read back as it was written.
    lemma_frame_round_trip(sender.frame);
    assert(receiver.rejection(snapshot) is None);
    let after = receiver.applied(snapshot);
    assert(after.style == adopted(snapshot.to_add[last]));
}

/// Taking a snapshot changes nothing that a second snapshot would carry:
/// taken again for the same consumer, with nothing changed in between, the
/// snapshot has the same counters and the same payload in every partition.
/// The style in use keeps its id, because it is never among what the cache
/// lets go of.
pub proof fn lemma_second_snapshot_is_the_same(
    state: ContextState,
    consumer: ContextSnapshotDeltas,
    gone: Seq<u64>,
    again: Seq<u64>,
    partition: Partition,
)
    requires
        state.wf(),
        state.can_capture(consumer),
        state.held_style(consumer) matches Some(id) ==> !gone.contains(id),
    ensures
        state.after_capture(consumer, gone).can_capture(consumer),
        state.after_capture(consumer, gone).captured(consumer, again).deltas == state.captured(
            consumer,
            gone,
        ).deltas,
        state.after_capture(consumer, gone).captured(consumer, again).payload(partition)
            == state.captured(consumer, gone).payload(partition),
{
    let named = state.cache_with_style(consumer);
    let after = state.after_capture(consumer, gone);
    assert(after.current_deltas() == state.current_deltas());
    if state.sends(consumer, Partition::Style) {
        assert(named.ids.contains_key(state.style.identity));
        let id = named.ids[state.style.identity];
        assert(!gone.contains(id));
        assert(after.cache.ids.contains_key(state.style.identity));
        assert(after.cache.id_of(state.style) == state.cache.id_of(state.style));
    }
}

/// The style in use is never let go of: whatever holders were counted, its
/// id is not among the ids that the cache lets go of while a snapshot is
/// taken.
pub proof fn lemma_style_in_use_is_kept(
    state: ContextState,
    consumer: ContextSnapshotDeltas,
    counts: Seq<(u64, usize)>,
)
    ensures
        state.cache_with_style(consumer).may_evict(state.let_go(consumer, counts)),
        state.held_style(consumer) matches Some(id) ==> !state.let_go(consumer, counts).contains(
            id,
        ),
{
    let named = state.cache_with_style(consumer);
    match state.held_style(consumer) {
        Some(id) => {
            named.lemma_unreferenced_may_evict(without(counts, id));
            lemma_spared_is_kept(named, counts, id);
        },
        None => {
            named.lemma_unreferenced_may_evict(counts);
        },
    }
}

impl ContextState {
    /// Whether the fonts have to be made ready: none is laid out or one is
    /// left unprepared, and no font definitions wait, which would be
    /// installed first by whoever set them.
    pub open spec fn fonts_are_due(self) -> bool {
        &&& self.frame.new_font_definitions is None
        &&& self.fonts.len() == 0 || exists|i: int|
            0 <= i < self.fonts.len() && !(#[trigger] self.fonts[i]).prepared
    }

    /// Whether every viewport of the state is one of `known`.
    pub open spec fn viewports_are_among(self, known: Seq<u64>) -> bool {
        forall|i: int|
            0 <= i < self.frame.viewports.len() ==> known.contains(
                (#[trigger] self.frame.viewports[i]).id,
            )
    }

    /// The state after the fonts were made ready for use.
    ///
    /// Nothing happens while the viewport that was drawn last is unknown.
    /// Else font definitions that wait are installed, which drops every font
    /// that was laid out for the old ones. Then the fonts for the viewport's
    /// scale factor are prepared for the frame, with the viewport's texture
    /// limit: the ones that are there, or new ones, whose common glyphs are
    /// loaded at once where the options ask for it.
    pub open spec fn with_fonts_updated(self) -> Self {
        match position_of(self.frame.viewports, self.frame.last_viewport) {
            None => self,
            Some(position) => {
                let viewport = self.frame.viewports[position];
                let installs = self.frame.new_font_definitions is Some;
                let kept = if installs {
                    Seq::empty()
                } else {
                    self.fonts
                };
                ContextState {
                    font_definitions: match self.frame.new_font_definitions {
                        Some(pending) => pending,
                        None => self.font_definitions,
                    },
                    font_definitions_changed: self.font_definitions_changed || installs,
                    frame: FrameSpec { new_font_definitions: None, ..self.frame },
                    frame_changed: self.frame_changed || installs,
                    fonts: match fonts_position(kept, viewport.pixels_per_point) {
                        Some(found) => kept.update(
                            found,
                            ScaledFonts {
                                max_texture_side: viewport.max_texture_side,
                                prepared: true,
                                ..kept[found]
                            },
                        ),
                        None => kept.push(
                            ScaledFonts {
                                pixels_per_point: viewport.pixels_per_point,
                                max_texture_side: viewport.max_texture_side,
                                prepared: true,
                                preloaded: self.frame.preload_font_glyphs,
                            },
                        ),
                    },
                    ..self
                }
            },
        }
    }
}

} // verus!
