//! One side's copy of the shared state.
//!
//! The owner of a [`Context`] changes it through the setters, which note
//! which partition was touched. `capture` writes a snapshot of the partitions
//! that a consumer lacks; `apply` overwrites the state with a snapshot,
//! entirely or not at all. What these do is defined on the state as
//! mathematical values, in [`crate::state`].

use crate::arc_cache::{without_counts_of, ArcCache, CachedObject};
use crate::codec::{copy_bytes, encoded_u64, put_u64, take_u64};
use crate::deltas::{advance, ContextSnapshotDeltas};
use crate::error::SyncError;
use crate::frame::{
    check_distinct_ids, decode_frame, distinct_ids, encode_frame, find_viewport,
    lemma_held_frame_fits, lemma_position_of, position_of, viewport_views, FrameSnapshot,
    FrameSpec, ViewportStateSnapshot,
};
use crate::snapshot::ContextSnapshot;
use crate::state::{
    fonts_position, lemma_fonts_position_bound, lemma_fonts_position_stays,
    lemma_style_in_use_is_kept, repaints_after, unprepared, ContextState, ScaledFonts, ViewportRepaintInfo, DEFAULT_MAX_TEXTURE_SIDE,
    DEFAULT_PIXELS_PER_POINT, ROOT_VIEWPORT,
};
use vstd::prelude::*;

verus! {

/// One side's copy of the shared state.
pub struct Context {
    style: CachedObject<Vec<u8>>,
    last_style: u128,
    font_definitions: Vec<u8>,
    font_definitions_changed: bool,
    frame: FrameSnapshot,
    frame_changed: bool,
    repaint: Vec<ViewportRepaintInfo>,
    deltas: ContextSnapshotDeltas,
    cache: ArcCache<Vec<u8>>,
    fonts: Vec<ScaledFonts>,
}

impl View for Context {
    type V = ContextState;

    closed spec fn view(&self) -> ContextState {
        ContextState {
            style: self.style,
            last_style: self.last_style,
            font_definitions: self.font_definitions@,
            font_definitions_changed: self.font_definitions_changed,
            frame: self.frame@,
            frame_changed: self.frame_changed,
            repaint: self.repaint@,
            deltas: self.deltas,
            cache: self.cache@,
            fonts: self.fonts@,
        }
    }
}

impl Default for Context {
    /// A context that has just been made.
    fn default() -> (context: Self)
        ensures
            context.wf(),
            context@.style.identity == 0,
            context@.style.value@ == Seq::<u8>::empty(),
            context@ == ContextState::fresh(context@.style),
    {
        let mut viewports: Vec<ViewportStateSnapshot> = Vec::new();
        viewports.push(
            ViewportStateSnapshot {
                id: ROOT_VIEWPORT,
                pixels_per_point: DEFAULT_PIXELS_PER_POINT,
                max_texture_side: DEFAULT_MAX_TEXTURE_SIDE,
                state: Vec::new(),
            },
        );
        let mut repaint: Vec<ViewportRepaintInfo> = Vec::new();
        repaint.push(ViewportRepaintInfo { frame_nr: 0, outstanding: 0 });
        let context = Context {
            style: CachedObject::new(0, Vec::new()),
            last_style: 0,
            font_definitions: Vec::new(),
            font_definitions_changed: false,
            frame: FrameSnapshot {
                memory: Vec::new(),
                new_font_definitions: None,
                options: Vec::new(),
                preload_font_glyphs: true,
                new_zoom_factor: None,
                last_viewport: ROOT_VIEWPORT,
                viewports,
            },
            frame_changed: false,
            repaint,
            deltas: ContextSnapshotDeltas {
                frame_count: 1,
                style_count: 1,
                font_definitions_count: 1,
            },
            cache: ArcCache::new(),
            fonts: Vec::new(),
        };
        proof {
            let fresh = ContextState::fresh(context@.style);
            assert(context@.frame.viewports =~= fresh.frame.viewports);
            assert(context@.frame == fresh.frame);
            assert(context@.repaint =~= fresh.repaint);
            assert(context@.fonts =~= fresh.fonts);
            assert(context@.font_definitions =~= fresh.font_definitions);
        }
        context
    }
}

impl Context {
    /// Whether the context's invariant holds.
    pub open spec fn wf(&self) -> bool {
        self@.wf()
    }

    /// The style sheet in use.
    pub fn style(&self) -> (style: &CachedObject<Vec<u8>>)
        ensures
            *style == self@.style,
    {
        &self.style
    }

    /// The installed font definitions.
    pub fn font_definitions(&self) -> (definitions: &Vec<u8>)
        ensures
            definitions@ == self@.font_definitions,
    {
        &self.font_definitions
    }

    /// The frame partition.
    pub fn frame(&self) -> (frame: &FrameSnapshot)
        ensures
            frame@ == self@.frame,
    {
        &self.frame
    }

    /// The object cache.
    pub fn cache(&self) -> (cache: &ArcCache<Vec<u8>>)
        ensures
            cache@ == self@.cache,
    {
        &self.cache
    }

    /// The fonts that are laid out.
    pub fn fonts(&self) -> (fonts: &Vec<ScaledFonts>)
        ensures
            fonts@ == self@.fonts,
    {
        &self.fonts
    }

    /// What this side knows of the repainting of the viewport `id`.
    pub fn repaint_info(&self, id: u64) -> (info: Option<ViewportRepaintInfo>)
        requires
            self.wf(),
        ensures
            info == match position_of(self@.frame.viewports, id) {
                Some(position) => Some(self@.repaint[position]),
                None => None,
            },
    {
        match find_viewport(&self.frame.viewports, id) {
            Some(position) => Some(self.repaint[position]),
            None => None,
        }
    }

    /// Puts another style sheet in use. The style counts as changed while
    /// its identity is not the one that was last captured or received.
    pub fn set_style(&mut self, style: CachedObject<Vec<u8>>)
        ensures
            final(self)@ == (ContextState { style, ..old(self)@ }),
    {
        self.style = style;
    }

    /// Sets font definitions. They wait until the fonts are next used, and
    /// are installed then.
    pub fn set_fonts(&mut self, definitions: Vec<u8>)
        ensures
            final(self)@ == (ContextState {
                frame: FrameSpec {
                    new_font_definitions: Some(definitions@),
                    ..old(self)@.frame
                },
                frame_changed: true,
                ..old(self)@
            }),
    {
        self.frame.new_font_definitions = Some(definitions);
        self.frame_changed = true;
    }

    /// Replaces the memory.
    pub fn set_memory(&mut self, memory: Vec<u8>)
        ensures
            final(self)@ == (ContextState {
                frame: FrameSpec { memory: memory@, ..old(self)@.frame },
                frame_changed: true,
                ..old(self)@
            }),
    {
        self.frame.memory = memory;
        self.frame_changed = true;
    }

    /// Replaces the options.
    pub fn set_options(&mut self, options: Vec<u8>, preload_font_glyphs: bool)
        ensures
            final(self)@ == (ContextState {
                frame: FrameSpec { options: options@, preload_font_glyphs, ..old(self)@.frame },
                frame_changed: true,
                ..old(self)@
            }),
    {
        self.frame.options = options;
        self.frame.preload_font_glyphs = preload_font_glyphs;
        self.frame_changed = true;
    }

    /// Asks for a zoom factor, or withdraws the request.
    pub fn set_new_zoom_factor(&mut self, new_zoom_factor: Option<u32>)
        ensures
            final(self)@ == (ContextState {
                frame: FrameSpec { new_zoom_factor, ..old(self)@.frame },
                frame_changed: true,
                ..old(self)@
            }),
    {
        self.frame.new_zoom_factor = new_zoom_factor;
        self.frame_changed = true;
    }

    /// Names the viewport that was drawn last.
    pub fn set_last_viewport(&mut self, last_viewport: u64)
        ensures
            final(self)@ == (ContextState {
                frame: FrameSpec { last_viewport, ..old(self)@.frame },
                frame_changed: true,
                ..old(self)@
            }),
    {
        self.frame.last_viewport = last_viewport;
        self.frame_changed = true;
    }

    /// Puts a viewport's state in place: over the viewport with the same id
    /// if there is one, else behind the others as a new viewport.
    pub fn set_viewport(&mut self, viewport: ViewportStateSnapshot)
        requires
            old(self).wf(),
            old(self)@.frame.viewports.len() < usize::MAX,
        ensures
            final(self).wf(),
            final(self)@ == old(self)@.with_viewport(viewport@),
    {
        let ghost before = self@;
        let ghost all = before.frame.viewports;
        proof {
            lemma_position_of(all, viewport.id);
        }
        match find_viewport(&self.frame.viewports, viewport.id) {
            Some(position) => {
                self.frame.viewports[position] = viewport;
                proof {
                    let after = viewport_views(self.frame.viewports@);
                    assert(after =~= all.update(position as int, viewport@));
                    assert forall|i: int, j: int| 0 <= i < j < after.len() implies (
                    #[trigger] after[i]).id != (#[trigger] after[j]).id by {
                        assert(all[i].id != all[j].id);
                    }
                    assert forall|i: int| 0 <= i < after.len() implies (
                    #[trigger] after[i]).state.len() <= u64::MAX by {
                        if i != position {
                            assert(after[i] == all[i]);
                        } else {
                            assert(viewport.state@.len() == viewport.state.len());
                        }
                    }
                }
            },
            None => {
                self.frame.viewports.push(viewport);
                self.repaint.push(ViewportRepaintInfo { frame_nr: 0, outstanding: 0 });
                proof {
                    let after = viewport_views(self.frame.viewports@);
                    assert(after =~= all.push(viewport@));
                    assert forall|i: int, j: int| 0 <= i < j < after.len() implies (
                    #[trigger] after[i]).id != (#[trigger] after[j]).id by {
                        if j < all.len() {
                            assert(all[i].id != all[j].id);
                        } else {
                            assert(all[i].id != viewport.id);
                        }
                    }
                    assert forall|i: int| 0 <= i < after.len() implies (
                    #[trigger] after[i]).state.len() <= u64::MAX by {
                        if i < all.len() {
                            assert(after[i] == all[i]);
                        } else {
                            assert(viewport.state@.len() == viewport.state.len());
                        }
                    }
                }
            },
        }
        self.frame_changed = true;
    }

    /// Notes that the viewport `id` is to be repainted. Says whether there
    /// is such a viewport.
    pub fn request_repaint(&mut self, id: u64) -> (known: bool)
        requires
            old(self).wf(),
        ensures
            final(self).wf(),
            known == position_of(old(self)@.frame.viewports, id) is Some,
            final(self)@ == (ContextState {
                repaint: match position_of(old(self)@.frame.viewports, id) {
                    Some(position) => old(self)@.repaint.update(
                        position,
                        ViewportRepaintInfo {
                            frame_nr: old(self)@.repaint[position].frame_nr,
                            outstanding: 1,
                        },
                    ),
                    None => old(self)@.repaint,
                },
                ..old(self)@
            }),
    {
        match find_viewport(&self.frame.viewports, id) {
            Some(position) => {
                let frame_nr = self.repaint[position].frame_nr;
                self.repaint[position] = ViewportRepaintInfo { frame_nr, outstanding: 1 };
                true
            },
            None => false,
        }
    }

    /// Takes a snapshot for a consumer whose counters are `consumer`, given
    /// the holders that were counted for each cached object.
    ///
    /// The snapshot carries the payload of exactly the partitions whose
    /// counter differs from the consumer's, the state's counters, and what
    /// has changed in the cache. A style that has to be sent is named in the
    /// cache first; then the cache lets go of the objects that, by `counts`,
    /// nothing else refers to, but never of the style in use. A consumer
    /// that has seen nothing is sent the style itself beside its id, also
    /// where the cache has announced it before. Afterwards the state counts
    /// as unchanged.
    ///
    /// Where the style has to be sent, the cache does not know it yet and has
    /// no id left for it, nothing is taken and nothing changes.
    pub fn capture_for(
        &mut self,
        consumer: &ContextSnapshotDeltas,
        counts: &Vec<(u64, usize)>,
    ) -> (result: Result<ContextSnapshot, SyncError>)
        requires
            old(self).wf(),
        ensures
            final(self).wf(),
            result is Ok <==> old(self)@.can_capture(*consumer),
            result matches Ok(snapshot) ==> {
                &&& snapshot@ == old(self)@.captured(
                    *consumer,
                    old(self)@.let_go(*consumer, counts@),
                )
                &&& final(self)@ == old(self)@.after_capture(
                    *consumer,
                    old(self)@.let_go(*consumer, counts@),
                )
            },
            result matches Err(error) ==> error == SyncError::ProtocolViolation && final(self)@
                == old(self)@,
    {
        let current = ContextSnapshotDeltas::from_context(self);
        let send_style = consumer.style_count != current.style_count;
        if send_style && self.cache.id_counter() == u64::MAX && !self.cache.knows(&self.style) {
            return Err(SyncError::ProtocolViolation);
        }
        let style = if send_style {
            let id = self.cache.insert(self.style.share());
            let mut payload: Vec<u8> = Vec::new();
            put_u64(&mut payload, id);
            assert(payload@ =~= encoded_u64(id));
            Some(payload)
        } else {
            None
        };
        let font_definitions = if consumer.font_definitions_count
            != current.font_definitions_count {
            Some(copy_bytes(&self.font_definitions))
        } else {
            None
        };
        let frame = if consumer.frame_count != current.frame_count {
            Some(encode_frame(&self.frame))
        } else {
            None
        };
        let held = self.cache.lookup(&self.style);
        let mut cache_delta = match held {
            Some(id) => {
                let others = without_counts_of(counts, id);
                self.cache.load_delta_for(&others).share()
            },
            None => self.cache.load_delta_for(counts).share(),
        };
        if send_style && consumer.style_count == 0 {
            match held {
                Some(id) => {
                    cache_delta.announce(id, self.style.share());
                },
                None => {},
            }
        }
        self.deltas = current;
        self.last_style = self.style.identity();
        self.font_definitions_changed = false;
        self.frame_changed = false;
        Ok(ContextSnapshot { deltas: current, style, font_definitions, frame, cache_delta })
    }

    /// Takes a snapshot for a consumer whose counters are `consumer`.
    ///
    /// The holders of the cached objects are counted, and the snapshot is
    /// taken for these counts. Which objects the cache lets go of depends on
    /// the references that are alive in the process; the snapshot names them
    /// at the end of `to_remove`. Whatever they are, the style in use is not
    /// among them, and the snapshot carries the payload of exactly the
    /// partitions whose counter differs from the consumer's.
    pub fn capture(&mut self, consumer: &ContextSnapshotDeltas) -> (result: Result<
        ContextSnapshot,
        SyncError,
    >)
        requires
            old(self).wf(),
        ensures
            final(self).wf(),
            result is Ok <==> old(self)@.can_capture(*consumer),
            result matches Ok(snapshot) ==> {
                &&& old(self)@.cache.to_remove.len() <= snapshot@.to_remove.len()
                &&& old(self)@.cache_with_style(*consumer).may_evict(
                    old(self)@.evictions(snapshot@),
                )
                &&& old(self)@.held_style(*consumer) matches Some(id)
                    ==> !old(self)@.evictions(snapshot@).contains(id)
                &&& snapshot@ == old(self)@.captured(*consumer, old(self)@.evictions(snapshot@))
                &&& final(self)@ == old(self)@.after_capture(
                    *consumer,
                    old(self)@.evictions(snapshot@),
                )
            },
            result matches Err(error) ==> error == SyncError::ProtocolViolation && final(self)@
                == old(self)@,
    {
        let counts = self.cache.holder_counts();
        let ghost gone = self@.let_go(*consumer, counts@);
        proof {
            lemma_style_in_use_is_kept(self@, *consumer, counts@);
            assert((self@.cache.to_remove + gone).skip(self@.cache.to_remove.len() as int)
                =~= gone);
        }
        self.capture_for(consumer, &counts)
    }

    /// The repaint information for a new list of viewports.
    fn repaints_for(&self, arrived: &Vec<ViewportStateSnapshot>, frame_nr: Option<u64>) -> (repaint:
        Vec<ViewportRepaintInfo>)
        requires
            self.wf(),
        ensures
            repaint@ == repaints_after(
                self@.frame.viewports,
                self@.repaint,
                viewport_views(arrived@),
                frame_nr,
            ),
    {
        let ghost target = repaints_after(
            self@.frame.viewports,
            self@.repaint,
            viewport_views(arrived@),
            frame_nr,
        );
        let mut repaint: Vec<ViewportRepaintInfo> = Vec::new();
        let mut j: usize = 0;
        while j < arrived.len()
            invariant
                j <= arrived.len(),
                self.wf(),
                target == repaints_after(
                    self@.frame.viewports,
                    self@.repaint,
                    viewport_views(arrived@),
                    frame_nr,
                ),
                repaint@ == target.take(j as int),
            decreases arrived.len() - j,
        {
            let noted = match find_viewport(&self.frame.viewports, arrived[j].id) {
                Some(position) => self.repaint[position],
                None => ViewportRepaintInfo { frame_nr: 0, outstanding: 0 },
            };
            let frame_nr = match frame_nr {
                Some(arrived_with) => arrived_with,
                None => noted.frame_nr,
            };
            repaint.push(ViewportRepaintInfo { frame_nr, outstanding: noted.outstanding });
            assert(viewport_views(arrived@)[j as int].id == arrived[j as int].id);
            assert(repaint@ =~= target.take(j + 1));
            j += 1;
        }
        assert(target.take(arrived.len() as int) =~= target);
        repaint
    }

    /// Replaces the viewports. A viewport that was there keeps the repaint
    /// information that was noted for it. A list in which two viewports have
    /// the same id is refused, and nothing changes.
    pub fn set_viewports(&mut self, viewports: Vec<ViewportStateSnapshot>) -> (accepted: bool)
        requires
            old(self).wf(),
        ensures
            final(self).wf(),
            accepted == distinct_ids(viewport_views(viewports@)),
            accepted ==> final(self)@ == (ContextState {
                frame: FrameSpec { viewports: viewport_views(viewports@), ..old(self)@.frame },
                frame_changed: true,
                repaint: repaints_after(
                    old(self)@.frame.viewports,
                    old(self)@.repaint,
                    viewport_views(viewports@),
                    None,
                ),
                ..old(self)@
            }),
            !accepted ==> final(self)@ == old(self)@,
    {
        if !check_distinct_ids(&viewports) {
            return false;
        }
        let repaint = self.repaints_for(&viewports, None);
        self.frame.viewports = viewports;
        self.repaint = repaint;
        self.frame_changed = true;
        proof {
            lemma_held_frame_fits(self.frame);
            assert(self@.repaint.len() == self@.frame.viewports.len());
        }
        true
    }

    /// Overwrites the state with `snapshot`, entirely or not at all.
    ///
    /// The cache delta is taken over first, so that the id that the style
    /// partition names can be resolved. Then each partition that the snapshot
    /// carries is put in place, and the state takes the snapshot's counters.
    ///
    /// A snapshot that is rejected changes nothing.
    pub fn apply(&mut self, snapshot: ContextSnapshot) -> (result: Result<(), SyncError>)
        requires
            old(self).wf(),
        ensures
            final(self).wf(),
            result == old(self)@.verdict(snapshot@),
            result is Ok ==> final(self)@ == old(self)@.applied(snapshot@),
            result is Err ==> final(self)@ == old(self)@,
    {
        let ghost before = self@;
        let ghost message = snapshot@;
        let ContextSnapshot { deltas, style, font_definitions, frame, cache_delta } = snapshot;
        if !deltas.is_of_a_state() || !self.cache.check_delta(&cache_delta) {
            return Err(SyncError::ProtocolViolation);
        }
        let style_id = match &style {
            Some(payload) => match take_u64(payload, 0) {
                Some((id, end)) => if end == payload.len() {
                    Some(id)
                } else {
                    return Err(SyncError::EncodingError);
                },
                None => {
                    return Err(SyncError::EncodingError);
                },
            },
            None => None,
        };
        let decoded = match &frame {
            Some(payload) => match decode_frame(payload) {
                Some(decoded) => Some(decoded),
                None => {
                    return Err(SyncError::EncodingError);
                },
            },
            None => None,
        };
        match style_id {
            Some(id) => {
                if self.cache.get_by_id(id).is_none() && !cache_delta.names(id) {
                    return Err(SyncError::ProtocolViolation);
                }
            },
            None => {},
        }
        assert(before.rejection(message) is None);
        proof {
            before.cache.lemma_absorbed(message.id_counter, message.to_add);
        }
        let applied = self.cache.apply_delta(cache_delta);
        assert(applied is Ok);
        match style_id {
            Some(id) => {
                match self.cache.get_by_id(id) {
                    Some(object) => {
                        self.style = object.share();
                    },
                    None => {},
                }
            },
            None => {},
        }
        match font_definitions {
            Some(payload) => {
                self.font_definitions = payload;
                self.fonts = Vec::new();
            },
            None => {
                if deltas.frame_count != self.deltas.frame_count {
                    self.leave_fonts_unprepared();
                }
            },
        }
        match decoded {
            Some(arrived) => {
                proof {
                    lemma_held_frame_fits(arrived);
                }
                let repaint = self.repaints_for(&arrived.viewports, Some(deltas.frame_count));
                self.frame = arrived;
                self.repaint = repaint;
            },
            None => {},
        }
        self.deltas = deltas;
        self.last_style = self.style.identity();
        self.font_definitions_changed = false;
        self.frame_changed = false;
        proof {
            let after = before.applied(message);
            assert(self@.fonts =~= after.fonts);
            assert(self@.style == after.style);
            assert(self@.frame == after.frame);
            assert(self@.repaint =~= after.repaint);
            assert(self@.font_definitions =~= after.font_definitions);
            assert(self@ == after);
        }
        Ok(())
    }

    /// Whether the fonts have to be made ready: none is laid out or one is
    /// left unprepared, as after a snapshot with new font definitions or of
    /// another frame, and no font definitions wait.
    pub fn fonts_are_due(&self) -> (due: bool)
        ensures
            due == self@.fonts_are_due(),
    {
        if self.frame.new_font_definitions.is_some() {
            return false;
        }
        let mut i: usize = 0;
        while i < self.fonts.len()
            invariant
                i <= self.fonts.len(),
                self@.frame.new_font_definitions is None,
                forall|k: int| 0 <= k < i ==> (#[trigger] self@.fonts[k]).prepared,
            decreases self.fonts.len() - i,
        {
            if !self.fonts[i].prepared {
                assert(!self@.fonts[i as int].prepared);
                return true;
            }
            i += 1;
        }
        self.fonts.len() == 0
    }

    /// Whether every viewport of the state is one of `known`. A state with
    /// a viewport that its user does not have cannot be put in place there.
    pub fn viewports_are_among(&self, known: &Vec<u64>) -> (all: bool)
        ensures
            all == self@.viewports_are_among(known@),
    {
        let ghost viewports = self@.frame.viewports;
        assert(viewports.len() == self.frame.viewports.len());
        let mut i: usize = 0;
        while i < self.frame.viewports.len()
            invariant
                i <= self.frame.viewports.len(),
                viewports == self@.frame.viewports,
                viewports.len() == self.frame.viewports.len(),
                forall|k: int| 0 <= k < i ==> known@.contains((#[trigger] viewports[k]).id),
            decreases self.frame.viewports.len() - i,
        {
            let id = self.frame.viewports[i].id;
            assert(viewports[i as int].id == id);
            let mut j: usize = 0;
            let mut found = false;
            while j < known.len() && !found
                invariant
                    j <= known.len(),
                    found ==> known@.contains(id),
                    !found ==> forall|k: int| 0 <= k < j ==> known@[k] != id,
                decreases known.len() - j + (if found { 0int } else { 1int }),
            {
                if known[j] == id {
                    found = true;
                } else {
                    j += 1;
                }
            }
            if !found {
                return false;
            }
            i += 1;
        }
        true
    }

    /// Leaves every font unprepared.
    fn leave_fonts_unprepared(&mut self)
        ensures
            final(self)@ == (ContextState { fonts: unprepared(old(self)@.fonts), ..old(self)@ }),
    {
        let ghost before = self@.fonts;
        let mut i: usize = 0;
        while i < self.fonts.len()
            invariant
                i <= self.fonts.len(),
                self.fonts@.len() == before.len(),
                self@ == (ContextState { fonts: self.fonts@, ..old(self)@ }),
                forall|k: int| 0 <= k < i ==> #[trigger] self.fonts@[k] == unprepared(before)[k],
                forall|k: int| i <= k < before.len() ==> #[trigger] self.fonts@[k] == before[k],
            decreases self.fonts.len() - i,
        {
            let laid_out = self.fonts[i];
            self.fonts[i] = ScaledFonts { prepared: false, ..laid_out };
            i += 1;
        }
        assert(self.fonts@ =~= unprepared(before));
    }

    /// The position of the fonts for the scale factor `pixels_per_point`.
    fn find_fonts(&self, pixels_per_point: u32) -> (found: Option<usize>)
        ensures
            match fonts_position(self@.fonts, pixels_per_point) {
                Some(position) => found == Some(position as usize) && 0 <= position
                    < self@.fonts.len(),
                None => found is None,
            },
    {
        let ghost all = self@.fonts;
        let mut i: usize = 0;
        while i < self.fonts.len()
            invariant
                i <= self.fonts.len(),
                all == self@.fonts,
                fonts_position(all.take(i as int), pixels_per_point) is None,
            decreases self.fonts.len() - i,
        {
            assert(all.take(i + 1).drop_last() =~= all.take(i as int));
            if self.fonts[i].pixels_per_point == pixels_per_point {
                proof {
                    lemma_fonts_position_stays(all, i + 1, pixels_per_point);
                }
                return Some(i);
            }
            i += 1;
        }
        assert(all.take(self.fonts.len() as int) =~= all);
        None
    }

    /// Makes the fonts ready for use. This is where font definitions that
    /// were set are installed, and where the fonts of a scale factor that
    /// was not used before are made.
    pub fn update_fonts_mut(&mut self)
        requires
            old(self).wf(),
            old(self)@.fonts.len() < usize::MAX,
        ensures
            final(self).wf(),
            final(self)@ == old(self)@.with_fonts_updated(),
    {
        let position = match find_viewport(&self.frame.viewports, self.frame.last_viewport) {
            Some(position) => position,
            None => {
                return ;
            },
        };
        let pixels_per_point = self.frame.viewports[position].pixels_per_point;
        let max_texture_side = self.frame.viewports[position].max_texture_side;
        assert(self@.frame.viewports[position as int] == self.frame.viewports@[position as int]@);
        let ghost before = self@;
        match self.frame.new_font_definitions.take() {
            Some(pending) => {
                self.fonts = Vec::new();
                self.font_definitions = pending;
                self.font_definitions_changed = true;
                self.frame_changed = true;
            },
            None => {},
        }
        let ghost kept = self@.fonts;
        proof {
            lemma_fonts_position_bound(kept, pixels_per_point);
            if before.frame.new_font_definitions is Some {
                assert(kept =~= Seq::<ScaledFonts>::empty());
            }
        }
        match self.find_fonts(pixels_per_point) {
            Some(found) => {
                let preloaded = self.fonts[found].preloaded;
                self.fonts[found] =
                    ScaledFonts { pixels_per_point, max_texture_side, prepared: true, preloaded };
            },
            None => {
                self.fonts.push(
                    ScaledFonts {
                        pixels_per_point,
                        max_texture_side,
                        prepared: true,
                        preloaded: self.frame.preload_font_glyphs,
                    },
                );
            },
        }
        proof {
            let after = before.with_fonts_updated();
            assert(self@.frame == after.frame);
            assert(self@.fonts =~= after.fonts);
            assert(self@.font_definitions =~= after.font_definitions);
            assert forall|i: int, j: int| 0 <= i < j < self@.fonts.len() implies (
            #[trigger] self@.fonts[i]).pixels_per_point != (
            #[trigger] self@.fonts[j]).pixels_per_point by {
                if i < kept.len() && j < kept.len() {
                    assert(kept[i].pixels_per_point != kept[j].pixels_per_point);
                } else {
                    assert(kept[i].pixels_per_point != pixels_per_point);
                }
            }
        }
    }
}

impl ContextSnapshotDeltas {
    /// The counters of `context` as it is now.
    pub fn from_context(context: &Context) -> (deltas: Self)
        ensures
            deltas == context@.current_deltas(),
            context.wf() ==> deltas.of_a_state(),
    {
        ContextSnapshotDeltas {
            frame_count: if context.frame_changed {
                advance(context.deltas.frame_count)
            } else {
                context.deltas.frame_count
            },
            style_count: if context.style.identity() != context.last_style {
                advance(context.deltas.style_count)
            } else {
                context.deltas.style_count
            },
            font_definitions_count: if context.font_definitions_changed {
                advance(context.deltas.font_definitions_count)
            } else {
                context.deltas.font_definitions_count
            },
        }
    }
}

} // verus!
