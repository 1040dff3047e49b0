//! The frame partition: what changes with every frame that is drawn.
//!
//! Memory, options and the state of each viewport are carried as the bytes
//! that their owner produced; what the synchronisation itself reads (which
//! viewports there are, their scale and texture limits, the pending font
//! definitions) is carried in the open.

use crate::codec::{
    encoded_blob, encoded_bool, encoded_option_blob, encoded_option_u32, encoded_u32, encoded_u64,
    lemma_blob_round_trip, lemma_bool_round_trip, lemma_option_blob_round_trip,
    lemma_option_u32_round_trip, lemma_stands_at_split,
    lemma_u32_round_trip, lemma_u64_round_trip, option_blob_view, parsed_blob, parsed_bool,
    parsed_option_blob, parsed_option_u32, parsed_u32, parsed_u64, put_blob, put_bool,
    put_option_blob, put_option_u32, put_u32, put_u64, stands_at, take_blob, take_bool,
    take_option_blob, take_option_u32, take_u32, take_u64,
};
use vstd::prelude::*;

verus! {

/// The state of one viewport as it crosses the boundary.
pub struct ViewportStateSnapshot {
    /// The viewport's id.
    pub id: u64,
    /// The bit pattern of the viewport's scale factor.
    pub pixels_per_point: u32,
    /// The largest texture side that the viewport's renderer takes.
    pub max_texture_side: u64,
    /// Class, builder, input, frame state, hits, graphics, output and
    /// commands, as their owner encoded them.
    pub state: Vec<u8>,
}

/// A viewport's state as mathematical values.
pub struct ViewportSpec {
    /// The viewport's id.
    pub id: u64,
    /// The bit pattern of the viewport's scale factor.
    pub pixels_per_point: u32,
    /// The largest texture side that the viewport's renderer takes.
    pub max_texture_side: u64,
    /// The rest of the viewport's state, as its owner encoded it.
    pub state: Seq<u8>,
}

impl View for ViewportStateSnapshot {
    type V = ViewportSpec;

    open spec fn view(&self) -> ViewportSpec {
        ViewportSpec {
            id: self.id,
            pixels_per_point: self.pixels_per_point,
            max_texture_side: self.max_texture_side,
            state: self.state@,
        }
    }
}

/// The views of a list of viewports.
pub open spec fn viewport_views(viewports: Seq<ViewportStateSnapshot>) -> Seq<ViewportSpec> {
    viewports.map_values(|viewport: ViewportStateSnapshot| viewport@)
}

/// Whether no two of the viewports have the same id.
pub open spec fn distinct_ids(viewports: Seq<ViewportSpec>) -> bool {
    forall|i: int, j: int|
        0 <= i < j < viewports.len() ==> (#[trigger] viewports[i]).id != (
        #[trigger] viewports[j]).id
}

/// One viewport: id, scale, texture limit, state.
pub open spec fn encoded_viewport(viewport: ViewportSpec) -> Seq<u8> {
    encoded_u64(viewport.id) + encoded_u32(viewport.pixels_per_point) + encoded_u64(
        viewport.max_texture_side,
    ) + encoded_blob(viewport.state)
}

/// Reads one viewport at `at`.
pub open spec fn parsed_viewport(bytes: Seq<u8>, at: int) -> Option<(ViewportSpec, int)> {
    match parsed_u64(bytes, at) {
        Some((id, at_scale)) => match parsed_u32(bytes, at_scale) {
            Some((pixels_per_point, at_side)) => match parsed_u64(bytes, at_side) {
                Some((max_texture_side, at_state)) => match parsed_blob(bytes, at_state) {
                    Some((state, next)) => Some(
                        (ViewportSpec { id, pixels_per_point, max_texture_side, state }, next),
                    ),
                    None => None,
                },
                None => None,
            },
            None => None,
        },
        None => None,
    }
}

/// A viewport is read back as it was written.
pub proof fn lemma_viewport_round_trip(bytes: Seq<u8>, at: int, viewport: ViewportSpec)
    requires
        viewport.state.len() <= u64::MAX,
        stands_at(bytes, at, encoded_viewport(viewport)),
    ensures
        parsed_viewport(bytes, at) == Some((viewport, at + encoded_viewport(viewport).len())),
{
    let id = encoded_u64(viewport.id);
    let scale = encoded_u32(viewport.pixels_per_point);
    let side = encoded_u64(viewport.max_texture_side);
    let state = encoded_blob(viewport.state);
    lemma_stands_at_split(bytes, at, id + scale + side, state);
    lemma_stands_at_split(bytes, at, id + scale, side);
    lemma_stands_at_split(bytes, at, id, scale);
    lemma_u64_round_trip(bytes, at, viewport.id);
    lemma_u32_round_trip(bytes, at + 8, viewport.pixels_per_point);
    lemma_u64_round_trip(bytes, at + 12, viewport.max_texture_side);
    lemma_blob_round_trip(bytes, at + 20, viewport.state);
}

/// Appends one viewport.
pub fn put_viewport(out: &mut Vec<u8>, viewport: &ViewportStateSnapshot)
    ensures
        final(out)@ == old(out)@ + encoded_viewport(viewport@),
{
    put_u64(out, viewport.id);
    put_u32(out, viewport.pixels_per_point);
    put_u64(out, viewport.max_texture_side);
    put_blob(out, &viewport.state);
    assert(out@ =~= old(out)@ + encoded_viewport(viewport@));
}

/// Reads one viewport at `at`.
pub fn take_viewport(bytes: &Vec<u8>, at: usize) -> (read: Option<(ViewportStateSnapshot, usize)>)
    ensures
        match parsed_viewport(bytes@, at as int) {
            Some((viewport, next)) => {
                &&& read matches Some(found)
                &&& found.0@ == viewport
                &&& found.1 == next
                &&& next <= bytes.len()
            },
            None => read is None,
        },
{
    let (id, at_scale) = match take_u64(bytes, at) {
        Some(field) => field,
        None => {
            return None;
        },
    };
    let (pixels_per_point, at_side) = match take_u32(bytes, at_scale) {
        Some(field) => field,
        None => {
            return None;
        },
    };
    let (max_texture_side, at_state) = match take_u64(bytes, at_side) {
        Some(field) => field,
        None => {
            return None;
        },
    };
    let (state, next) = match take_blob(bytes, at_state) {
        Some(field) => field,
        None => {
            return None;
        },
    };
    Some((ViewportStateSnapshot { id, pixels_per_point, max_texture_side, state }, next))
}

/// Viewports one after the other.
pub open spec fn encoded_viewports(viewports: Seq<ViewportSpec>) -> Seq<u8>
    decreases viewports.len(),
{
    if viewports.len() == 0 {
        Seq::empty()
    } else {
        encoded_viewports(viewports.drop_last()) + encoded_viewport(viewports.last())
    }
}

/// Reads `count` viewports from `at` on.
pub open spec fn parsed_viewports(bytes: Seq<u8>, at: int, count: nat) -> Option<
    (Seq<ViewportSpec>, int),
>
    decreases count,
{
    if count == 0 {
        Some((Seq::empty(), at))
    } else {
        match parsed_viewports(bytes, at, (count - 1) as nat) {
            Some((earlier, middle)) => match parsed_viewport(bytes, middle) {
                Some((last, next)) => Some((earlier.push(last), next)),
                None => None,
            },
            None => None,
        }
    }
}

/// Where fewer viewports cannot be read, more cannot either.
pub proof fn lemma_parsed_viewports_fail(bytes: Seq<u8>, at: int, fewer: nat, more: nat)
    requires
        fewer <= more,
        parsed_viewports(bytes, at, fewer) is None,
    ensures
        parsed_viewports(bytes, at, more) is None,
    decreases more,
{
    if fewer < more {
        lemma_parsed_viewports_fail(bytes, at, fewer, (more - 1) as nat);
    }
}

/// Viewports are read back as they were written.
pub proof fn lemma_viewports_round_trip(bytes: Seq<u8>, at: int, viewports: Seq<ViewportSpec>)
    requires
        forall|i: int|
            0 <= i < viewports.len() ==> (#[trigger] viewports[i]).state.len() <= u64::MAX,
        stands_at(bytes, at, encoded_viewports(viewports)),
    ensures
        parsed_viewports(bytes, at, viewports.len()) == Some(
            (viewports, at + encoded_viewports(viewports).len()),
        ),
    decreases viewports.len(),
{
    if viewports.len() == 0 {
        assert(viewports =~= Seq::empty());
    } else {
        let earlier = viewports.drop_last();
        lemma_stands_at_split(
            bytes,
            at,
            encoded_viewports(earlier),
            encoded_viewport(viewports.last()),
        );
        assert forall|i: int| 0 <= i < earlier.len() implies (#[trigger] earlier[i]).state.len()
            <= u64::MAX by {
            assert(earlier[i] == viewports[i]);
        }
        lemma_viewports_round_trip(bytes, at, earlier);
        lemma_viewport_round_trip(
            bytes,
            at + encoded_viewports(earlier).len(),
            viewports.last(),
        );
        assert(earlier.push(viewports.last()) =~= viewports);
    }
}

/// The position of the first viewport with the id `id`.
pub open spec fn position_of(viewports: Seq<ViewportSpec>, id: u64) -> Option<int>
    decreases viewports.len(),
{
    if viewports.len() == 0 {
        None
    } else {
        match position_of(viewports.drop_last(), id) {
            Some(position) => Some(position),
            None => if viewports.last().id == id {
                Some(viewports.len() - 1)
            } else {
                None
            },
        }
    }
}

/// What `position_of` finds is a viewport with the id, and where it finds
/// nothing there is none.
pub proof fn lemma_position_of(viewports: Seq<ViewportSpec>, id: u64)
    ensures
        match position_of(viewports, id) {
            Some(position) => 0 <= position < viewports.len() && viewports[position].id == id,
            None => forall|i: int| 0 <= i < viewports.len() ==> (#[trigger] viewports[i]).id != id,
        },
    decreases viewports.len(),
{
    if viewports.len() > 0 {
        lemma_position_of(viewports.drop_last(), id);
        if position_of(viewports.drop_last(), id) is None {
            assert forall|i: int| 0 <= i < viewports.len() - 1 implies (#[trigger] viewports[i]).id
                != id by {
                assert(viewports[i] == viewports.drop_last()[i]);
            }
        }
    }
}

/// The position of the first viewport with the id `id`.
pub fn find_viewport(viewports: &Vec<ViewportStateSnapshot>, id: u64) -> (found: Option<usize>)
    ensures
        match position_of(viewport_views(viewports@), id) {
            Some(position) => found == Some(position as usize) && 0 <= position
                < viewports.len(),
            None => found is None,
        },
{
    let ghost all = viewport_views(viewports@);
    let mut i: usize = 0;
    while i < viewports.len()
        invariant
            i <= viewports.len(),
            all == viewport_views(viewports@),
            position_of(all.take(i as int), id) is None,
        decreases viewports.len() - i,
    {
        assert(all.take(i + 1).drop_last() =~= all.take(i as int));
        if viewports[i].id == id {
            proof {
                lemma_position_stays(all, i + 1, id);
                lemma_position_of(all, id);
            }
            return Some(i);
        }
        i += 1;
    }
    assert(all.take(viewports.len() as int) =~= all);
    None
}

/// What is found among the first viewports is found among all of them.
pub proof fn lemma_position_stays(viewports: Seq<ViewportSpec>, first: int, id: u64)
    requires
        0 <= first <= viewports.len(),
        position_of(viewports.take(first), id) is Some,
    ensures
        position_of(viewports, id) == position_of(viewports.take(first), id),
    decreases viewports.len() - first,
{
    if first < viewports.len() {
        assert(viewports.take(first + 1).drop_last() =~= viewports.take(first));
        lemma_position_stays(viewports, first + 1, id);
    } else {
        assert(viewports.take(first) =~= viewports);
    }
}

/// What the frame partition holds.
pub struct FrameSnapshot {
    /// The memory of the context, as its owner encoded it.
    pub memory: Vec<u8>,
    /// Font definitions that were set and wait for the next use of the fonts.
    pub new_font_definitions: Option<Vec<u8>>,
    /// The options of the context, as their owner encoded them.
    pub options: Vec<u8>,
    /// Whether new fonts have their common glyphs loaded at once.
    pub preload_font_glyphs: bool,
    /// The bit pattern of the zoom factor that was asked for, if one was.
    pub new_zoom_factor: Option<u32>,
    /// The viewport that was drawn last.
    pub last_viewport: u64,
    /// The viewports, no two with the same id.
    pub viewports: Vec<ViewportStateSnapshot>,
}

/// A frame partition as mathematical values.
pub struct FrameSpec {
    /// The memory of the context.
    pub memory: Seq<u8>,
    /// Font definitions that wait for the next use of the fonts.
    pub new_font_definitions: Option<Seq<u8>>,
    /// The options of the context.
    pub options: Seq<u8>,
    /// Whether new fonts have their common glyphs loaded at once.
    pub preload_font_glyphs: bool,
    /// The bit pattern of the zoom factor that was asked for, if one was.
    pub new_zoom_factor: Option<u32>,
    /// The viewport that was drawn last.
    pub last_viewport: u64,
    /// The viewports.
    pub viewports: Seq<ViewportSpec>,
}

impl View for FrameSnapshot {
    type V = FrameSpec;

    open spec fn view(&self) -> FrameSpec {
        FrameSpec {
            memory: self.memory@,
            new_font_definitions: option_blob_view(self.new_font_definitions),
            options: self.options@,
            preload_font_glyphs: self.preload_font_glyphs,
            new_zoom_factor: self.new_zoom_factor,
            last_viewport: self.last_viewport,
            viewports: viewport_views(self.viewports@),
        }
    }
}

impl FrameSpec {
    /// Whether the partition can be written: its viewports have distinct ids,
    /// and every length fits the 64 bits that carry it.
    pub open spec fn wf(self) -> bool {
        &&& distinct_ids(self.viewports)
        &&& self.memory.len() <= u64::MAX
        &&& self.options.len() <= u64::MAX
        &&& self.viewports.len() <= u64::MAX
        &&& self.new_font_definitions matches Some(pending) ==> pending.len() <= u64::MAX
        &&& forall|i: int|
            0 <= i < self.viewports.len() ==> (#[trigger] self.viewports[i]).state.len()
                <= u64::MAX
    }
}

/// The lengths of a frame partition that is held in memory fit the 64 bits
/// that carry them.
pub proof fn lemma_held_frame_fits(frame: FrameSnapshot)
    ensures
        frame@.memory.len() <= u64::MAX,
        frame@.options.len() <= u64::MAX,
        frame@.viewports.len() <= u64::MAX,
        frame@.new_font_definitions matches Some(pending) ==> pending.len() <= u64::MAX,
        forall|i: int|
            0 <= i < frame@.viewports.len() ==> (#[trigger] frame@.viewports[i]).state.len()
                <= u64::MAX,
{
    assert(frame.memory@.len() == frame.memory.len());
    assert(frame.options@.len() == frame.options.len());
    assert(frame.viewports@.len() == frame.viewports.len());
    match frame.new_font_definitions {
        Some(pending) => {
            assert(pending@.len() == pending.len());
        },
        None => {},
    }
    assert forall|i: int| 0 <= i < frame@.viewports.len() implies (
    #[trigger] frame@.viewports[i]).state.len() <= u64::MAX by {
        assert(frame.viewports@[i].state@.len() == frame.viewports@[i].state.len());
    }
}

/// The first fields of the frame partition, up to the number of viewports.
pub open spec fn encoded_frame_head(frame: FrameSpec) -> Seq<u8> {
    encoded_blob(frame.memory) + encoded_option_blob(frame.new_font_definitions) + encoded_blob(
        frame.options,
    ) + encoded_bool(frame.preload_font_glyphs) + encoded_option_u32(frame.new_zoom_factor)
        + encoded_u64(frame.last_viewport) + encoded_u64(frame.viewports.len() as u64)
}

/// The payload of the frame partition.
pub open spec fn encoded_frame(frame: FrameSpec) -> Seq<u8> {
    encoded_frame_head(frame) + encoded_viewports(frame.viewports)
}

/// What a payload of the frame partition holds, if it is well formed: every
/// field reads, nothing is left over, and no two viewports share an id.
pub open spec fn decoded_frame(bytes: Seq<u8>) -> Option<FrameSpec> {
    match parsed_blob(bytes, 0) {
        Some((memory, at_pending)) => match parsed_option_blob(bytes, at_pending) {
            Some((new_font_definitions, at_options)) => match parsed_blob(bytes, at_options) {
                Some((options, at_preload)) => match parsed_bool(bytes, at_preload) {
                    Some((preload_font_glyphs, at_zoom)) => match parsed_option_u32(
                        bytes,
                        at_zoom,
                    ) {
                        Some((new_zoom_factor, at_last)) => match parsed_u64(bytes, at_last) {
                            Some((last_viewport, at_count)) => match parsed_u64(bytes, at_count) {
                                Some((count, at_viewports)) => match parsed_viewports(
                                    bytes,
                                    at_viewports,
                                    count as nat,
                                ) {
                                    Some((viewports, end)) => if end == bytes.len()
                                        && distinct_ids(viewports) {
                                        Some(
                                            FrameSpec {
                                                memory,
                                                new_font_definitions,
                                                options,
                                                preload_font_glyphs,
                                                new_zoom_factor,
                                                last_viewport,
                                                viewports,
                                            },
                                        )
                                    } else {
                                        None
                                    },
                                    None => None,
                                },
                                None => None,
                            },
                            None => None,
                        },
                        None => None,
                    },
                    None => None,
                },
                None => None,
            },
            None => None,
        },
        None => None,
    }
}

/// A frame partition that can be written is read back as it was written.
pub proof fn lemma_frame_round_trip(frame: FrameSpec)
    requires
        frame.wf(),
    ensures
        decoded_frame(encoded_frame(frame)) == Some(frame),
{
    let bytes = encoded_frame(frame);
    let memory = encoded_blob(frame.memory);
    let pending = encoded_option_blob(frame.new_font_definitions);
    let options = encoded_blob(frame.options);
    let preload = encoded_bool(frame.preload_font_glyphs);
    let zoom = encoded_option_u32(frame.new_zoom_factor);
    let last = encoded_u64(frame.last_viewport);
    let count = encoded_u64(frame.viewports.len() as u64);
    let viewports = encoded_viewports(frame.viewports);
    assert(bytes.subrange(0, bytes.len() as int) =~= bytes);
    assert(stands_at(bytes, 0, encoded_frame_head(frame) + viewports));
    lemma_stands_at_split(bytes, 0, encoded_frame_head(frame), viewports);
    lemma_stands_at_split(bytes, 0, memory + pending + options + preload + zoom + last, count);
    lemma_stands_at_split(bytes, 0, memory + pending + options + preload + zoom, last);
    lemma_stands_at_split(bytes, 0, memory + pending + options + preload, zoom);
    lemma_stands_at_split(bytes, 0, memory + pending + options, preload);
    lemma_stands_at_split(bytes, 0, memory + pending, options);
    lemma_stands_at_split(bytes, 0, memory, pending);
    lemma_blob_round_trip(bytes, 0, frame.memory);
    let at_pending = memory.len() as int;
    lemma_option_blob_round_trip(bytes, at_pending, frame.new_font_definitions);
    let at_options = at_pending + pending.len();
    lemma_blob_round_trip(bytes, at_options, frame.options);
    let at_preload = at_options + options.len();
    lemma_bool_round_trip(bytes, at_preload, frame.preload_font_glyphs);
    let at_zoom = at_preload + 1;
    lemma_option_u32_round_trip(bytes, at_zoom, frame.new_zoom_factor);
    let at_last = at_zoom + zoom.len();
    lemma_u64_round_trip(bytes, at_last, frame.last_viewport);
    let at_count = at_last + 8;
    lemma_u64_round_trip(bytes, at_count, frame.viewports.len() as u64);
    lemma_viewports_round_trip(bytes, at_count + 8, frame.viewports);
}

/// Writes the payload of the frame partition.
pub fn encode_frame(frame: &FrameSnapshot) -> (bytes: Vec<u8>)
    ensures
        bytes@ == encoded_frame(frame@),
{
    let mut out: Vec<u8> = Vec::new();
    put_blob(&mut out, &frame.memory);
    put_option_blob(&mut out, &frame.new_font_definitions);
    put_blob(&mut out, &frame.options);
    put_bool(&mut out, frame.preload_font_glyphs);
    put_option_u32(&mut out, frame.new_zoom_factor);
    put_u64(&mut out, frame.last_viewport);
    put_u64(&mut out, frame.viewports.len() as u64);
    assert(out@ =~= encoded_frame_head(frame@));
    let ghost all = viewport_views(frame.viewports@);
    let mut i: usize = 0;
    while i < frame.viewports.len()
        invariant
            i <= frame.viewports.len(),
            all == viewport_views(frame.viewports@),
            out@ == encoded_frame_head(frame@) + encoded_viewports(all.take(i as int)),
        decreases frame.viewports.len() - i,
    {
        put_viewport(&mut out, &frame.viewports[i]);
        proof {
            assert(all.take(i + 1).drop_last() =~= all.take(i as int));
            assert(all.take(i + 1).last() == frame.viewports@[i as int]@);
            assert(out@ =~= encoded_frame_head(frame@) + encoded_viewports(all.take(i + 1)));
        }
        i += 1;
    }
    assert(all.take(frame.viewports.len() as int) =~= all);
    out
}

/// Reads `count` viewports from `at` on.
pub fn take_viewports(bytes: &Vec<u8>, at: usize, count: u64) -> (read: Option<
    (Vec<ViewportStateSnapshot>, usize),
>)
    ensures
        match parsed_viewports(bytes@, at as int, count as nat) {
            Some((viewports, next)) => {
                &&& read matches Some(found)
                &&& viewport_views(found.0@) == viewports
                &&& found.1 == next
                &&& next <= bytes.len() || count == 0
            },
            None => read is None,
        },
{
    let mut viewports: Vec<ViewportStateSnapshot> = Vec::new();
    let mut position = at;
    let mut i: u64 = 0;
    assert(viewport_views(viewports@) =~= Seq::<ViewportSpec>::empty());
    while i < count
        invariant
            i <= count,
            parsed_viewports(bytes@, at as int, i as nat) == Some(
                (viewport_views(viewports@), position as int),
            ),
            i > 0 ==> position <= bytes.len(),
        decreases count - i,
    {
        match take_viewport(bytes, position) {
            Some((viewport, next)) => {
                let ghost earlier = viewport_views(viewports@);
                viewports.push(viewport);
                assert(viewport_views(viewports@) =~= earlier.push(viewport@));
                position = next;
            },
            None => {
                proof {
                    lemma_parsed_viewports_fail(bytes@, at as int, (i + 1) as nat, count as nat);
                }
                return None;
            },
        }
        i += 1;
    }
    Some((viewports, position))
}

/// Whether no two of the viewports have the same id.
pub fn check_distinct_ids(viewports: &Vec<ViewportStateSnapshot>) -> (distinct: bool)
    ensures
        distinct == distinct_ids(viewport_views(viewports@)),
{
    let ghost all = viewport_views(viewports@);
    let mut j: usize = 0;
    while j < viewports.len()
        invariant
            j <= viewports.len(),
            all == viewport_views(viewports@),
            forall|a: int, b: int|
                0 <= a < b < j ==> (#[trigger] all[a]).id != (#[trigger] all[b]).id,
        decreases viewports.len() - j,
    {
        let mut i: usize = 0;
        while i < j
            invariant
                i <= j < viewports.len(),
                all == viewport_views(viewports@),
                forall|a: int| 0 <= a < i ==> (#[trigger] all[a]).id != all[j as int].id,
            decreases j - i,
        {
            if viewports[i].id == viewports[j].id {
                assert(all[i as int].id == all[j as int].id);
                return false;
            }
            i += 1;
        }
        j += 1;
    }
    true
}

/// Reads the payload of the frame partition. Nothing is handed out unless
/// the whole payload is well formed.
pub fn decode_frame(bytes: &Vec<u8>) -> (frame: Option<FrameSnapshot>)
    ensures
        match decoded_frame(bytes@) {
            Some(decoded) => frame matches Some(found) && found@ == decoded,
            None => frame is None,
        },
{
    let (memory, at_pending) = match take_blob(bytes, 0) {
        Some(field) => field,
        None => {
            return None;
        },
    };
    let (new_font_definitions, at_options) = match take_option_blob(bytes, at_pending) {
        Some(field) => field,
        None => {
            return None;
        },
    };
    let (options, at_preload) = match take_blob(bytes, at_options) {
        Some(field) => field,
        None => {
            return None;
        },
    };
    let (preload_font_glyphs, at_zoom) = match take_bool(bytes, at_preload) {
        Some(field) => field,
        None => {
            return None;
        },
    };
    let (new_zoom_factor, at_last) = match take_option_u32(bytes, at_zoom) {
        Some(field) => field,
        None => {
            return None;
        },
    };
    let (last_viewport, at_count) = match take_u64(bytes, at_last) {
        Some(field) => field,
        None => {
            return None;
        },
    };
    let (count, at_viewports) = match take_u64(bytes, at_count) {
        Some(field) => field,
        None => {
            return None;
        },
    };
    let (viewports, end) = match take_viewports(bytes, at_viewports, count) {
        Some(field) => field,
        None => {
            return None;
        },
    };
    if end != bytes.len() || !check_distinct_ids(&viewports) {
        return None;
    }
    Some(
        FrameSnapshot {
            memory,
            new_font_definitions,
            options,
            preload_font_glyphs,
            new_zoom_factor,
            last_viewport,
            viewports,
        },
    )
}

} // verus!
