use egui_wings::arc_cache::{ArcCacheDelta, CachedObject};
use egui_wings::context::Context;
use egui_wings::deltas::{ContextSnapshotDeltas, Partition};
use egui_wings::error::SyncError;
use egui_wings::frame::{encode_frame, find_viewport, ViewportStateSnapshot};
use egui_wings::snapshot::{ContextSnapshot, CreateContextSnapshot};
use egui_wings::state::{
    ScaledFonts, ViewportRepaintInfo, DEFAULT_MAX_TEXTURE_SIDE, DEFAULT_PIXELS_PER_POINT,
    ROOT_VIEWPORT,
};

fn counters(frame: u64, style: u64, fonts: u64) -> ContextSnapshotDeltas {
    ContextSnapshotDeltas { frame_count: frame, style_count: style, font_definitions_count: fonts }
}

fn viewport(id: u64, scale: u32, state: &[u8]) -> ViewportStateSnapshot {
    ViewportStateSnapshot {
        id,
        pixels_per_point: scale,
        max_texture_side: 4096,
        state: state.to_vec(),
    }
}

fn empty_snapshot(deltas: ContextSnapshotDeltas, id_counter: u64) -> ContextSnapshot {
    ContextSnapshot {
        deltas,
        style: None,
        font_definitions: None,
        frame: None,
        cache_delta: ArcCacheDelta::empty(id_counter),
    }
}

/// Everything of a context that a caller can see.
fn observe(context: &Context) -> (Vec<u8>, u128, Vec<u8>, Vec<u8>, ContextSnapshotDeltas, u64, Vec<ScaledFonts>) {
    (
        context.style().get().clone(),
        context.style().identity(),
        context.font_definitions().clone(),
        encode_frame(context.frame()),
        ContextSnapshotDeltas::from_context(context),
        context.cache().id_counter(),
        context.fonts().clone(),
    )
}

#[test]
fn new_context_counts_from_one() {
    let context = Context::default();
    assert_eq!(ContextSnapshotDeltas::from_context(&context), counters(1, 1, 1));
    assert_eq!(context.style().get(), &Vec::<u8>::new());
    assert!(context.font_definitions().is_empty());
    assert!(context.frame().memory.is_empty());
    assert!(context.frame().options.is_empty());
    assert!(context.frame().preload_font_glyphs);
    assert_eq!(context.frame().new_zoom_factor, None);
    assert_eq!(context.frame().new_font_definitions, None);
    assert_eq!(context.frame().last_viewport, ROOT_VIEWPORT);
    assert_eq!(context.frame().viewports[0].pixels_per_point, DEFAULT_PIXELS_PER_POINT);
    assert_eq!(context.frame().viewports[0].pixels_per_point, 1.0f32.to_bits());
    assert_eq!(context.frame().viewports[0].max_texture_side, DEFAULT_MAX_TEXTURE_SIDE);
    assert_eq!(context.cache().id_counter(), 1);
    assert!(context.fonts().is_empty());
    assert_eq!(
        context.repaint_info(ROOT_VIEWPORT),
        Some(ViewportRepaintInfo { frame_nr: 0, outstanding: 0 })
    );
    assert_eq!(context.repaint_info(5), None);
}

#[test]
fn a_change_moves_the_counter_of_its_partition_alone() {
    let mut context = Context::default();
    context.set_memory(vec![1]);
    assert_eq!(ContextSnapshotDeltas::from_context(&context), counters(2, 1, 1));
    context.set_memory(vec![2]);
    context.set_options(vec![3], false);
    context.set_new_zoom_factor(Some(7));
    context.set_last_viewport(4);
    assert_eq!(ContextSnapshotDeltas::from_context(&context), counters(2, 1, 1));

    let mut context = Context::default();
    context.set_style(CachedObject::new(9, vec![1]));
    assert_eq!(ContextSnapshotDeltas::from_context(&context), counters(1, 2, 1));
    // The style that was there at the last exchange is no change.
    context.set_style(CachedObject::new(0, vec![]));
    assert_eq!(ContextSnapshotDeltas::from_context(&context), counters(1, 1, 1));

    let mut context = Context::default();
    context.set_fonts(vec![5]);
    assert_eq!(ContextSnapshotDeltas::from_context(&context), counters(2, 1, 1));
    context.update_fonts_mut();
    assert_eq!(ContextSnapshotDeltas::from_context(&context), counters(2, 1, 2));
}

#[test]
fn only_the_changed_partition_is_captured() {
    let mut context = Context::default();
    let seen = context.capture(&ContextSnapshotDeltas::default()).unwrap().deltas;
    assert_eq!(seen, counters(1, 1, 1));

    context.set_memory(vec![1, 2]);
    let snapshot = context.capture(&seen).unwrap();
    assert!(snapshot.has(Partition::Frame));
    assert!(!snapshot.has(Partition::Style));
    assert!(!snapshot.has(Partition::FontDefinitions));
    assert_eq!(snapshot.frame, Some(encode_frame(context.frame())));
    assert_eq!(snapshot.deltas, counters(2, 1, 1));
    let seen = snapshot.deltas;

    context.set_style(CachedObject::new(8, vec![0xee]));
    let snapshot = context.capture(&seen).unwrap();
    assert!(!snapshot.has(Partition::Frame));
    assert!(snapshot.has(Partition::Style));
    assert!(!snapshot.has(Partition::FontDefinitions));
    assert_eq!(snapshot.deltas, counters(2, 2, 1));
    let seen = snapshot.deltas;

    // Nothing has changed: nothing is sent, and the counters stay.
    let snapshot = context.capture(&seen).unwrap();
    assert!(snapshot.partitions().is_empty());
    assert_eq!(snapshot.deltas, seen);
}

#[test]
fn capture_settles_the_state() {
    let mut context = Context::default();
    context.set_memory(vec![1]);
    context.set_style(CachedObject::new(8, vec![2]));
    let first = context.capture(&counters(1, 1, 1)).unwrap();
    assert_eq!(first.deltas, counters(2, 2, 1));
    assert_eq!(ContextSnapshotDeltas::from_context(&context), counters(2, 2, 1));
    context.set_memory(vec![3]);
    assert_eq!(ContextSnapshotDeltas::from_context(&context), counters(3, 2, 1));
}

#[test]
fn style_is_captured_as_its_id() {
    let mut context = Context::default();
    let style = CachedObject::new(77, b"sheet".to_vec());
    context.set_style(style.share());
    let snapshot = context.capture(&ContextSnapshotDeltas::default()).unwrap();
    assert_eq!(snapshot.style, Some(vec![1, 0, 0, 0, 0, 0, 0, 0]));
    assert_eq!(snapshot.font_definitions, Some(vec![]));
    assert_eq!(snapshot.cache_delta.to_add.len(), 1);
    assert_eq!(snapshot.cache_delta.to_add[0].0, 1);
    assert_eq!(snapshot.cache_delta.to_add[0].1.get(), &b"sheet".to_vec());
    assert_eq!(snapshot.cache_delta.id_counter, 2);
    assert_eq!(
        snapshot.partitions(),
        vec![
            (1, vec![1, 0, 0, 0, 0, 0, 0, 0]),
            (2, vec![]),
            (3, encode_frame(context.frame()))
        ]
    );
    assert_eq!(context.cache().get_by_id(1).unwrap().identity(), 77);
}

#[test]
fn capture_without_an_id_left_is_refused() {
    let mut context = Context::default();
    let mut full = empty_snapshot(counters(1, 1, 1), u64::MAX);
    full.cache_delta.id_counter = u64::MAX;
    assert_eq!(context.apply(full), Ok(()));
    context.set_style(CachedObject::new(5, vec![1]));
    let before = observe(&context);
    assert!(matches!(
        context.capture(&ContextSnapshotDeltas::default()),
        Err(SyncError::ProtocolViolation)
    ));
    assert_eq!(observe(&context), before);
    // What needs no id can still be sent.
    let snapshot = context.capture(&counters(1, 2, 1)).unwrap();
    assert!(snapshot.has(Partition::Frame) == false);
    assert!(!snapshot.has(Partition::Style));
}

#[test]
fn snapshot_overwrites_what_it_carries() {
    let mut context = Context::default();
    context.set_memory(vec![9, 9]);
    let mut frame = Context::default();
    frame.set_memory(vec![1]);
    frame.set_options(vec![2], false);
    frame.set_new_zoom_factor(Some(3));
    let snapshot = ContextSnapshot {
        deltas: counters(10, 20, 30),
        style: Some(4u64.to_le_bytes().to_vec()),
        font_definitions: Some(vec![7, 7]),
        frame: Some(encode_frame(frame.frame())),
        cache_delta: ArcCacheDelta {
            id_counter: 5,
            to_add: vec![(4, CachedObject::new(1, b"style".to_vec()))],
            to_remove: vec![],
        },
    };
    assert_eq!(context.apply(snapshot), Ok(()));
    assert_eq!(context.style().get(), &b"style".to_vec());
    assert_eq!(context.style().identity(), (1u128 << 64) + 4);
    assert_eq!(context.font_definitions(), &vec![7, 7]);
    assert_eq!(context.frame().memory, vec![1]);
    assert_eq!(context.frame().options, vec![2]);
    assert!(!context.frame().preload_font_glyphs);
    assert_eq!(context.frame().new_zoom_factor, Some(3));
    assert_eq!(context.cache().id_counter(), 5);
    assert_eq!(ContextSnapshotDeltas::from_context(&context), counters(10, 20, 30));
    assert_eq!(
        context.repaint_info(ROOT_VIEWPORT),
        Some(ViewportRepaintInfo { frame_nr: 10, outstanding: 0 })
    );
}

#[test]
fn snapshot_leaves_what_it_does_not_carry() {
    let mut context = Context::default();
    context.set_memory(vec![9, 9]);
    context.set_style(CachedObject::new(3, vec![1]));
    assert_eq!(context.apply(empty_snapshot(counters(4, 5, 6), 1)), Ok(()));
    assert_eq!(context.frame().memory, vec![9, 9]);
    assert_eq!(context.style().identity(), 3);
    assert_eq!(ContextSnapshotDeltas::from_context(&context), counters(4, 5, 6));
    assert_eq!(
        context.repaint_info(ROOT_VIEWPORT),
        Some(ViewportRepaintInfo { frame_nr: 0, outstanding: 0 })
    );
}

#[test]
fn snapshot_with_counters_of_no_state_is_a_protocol_violation() {
    let mut context = Context::default();
    context.set_memory(vec![1]);
    let before = observe(&context);
    for deltas in [counters(0, 1, 1), counters(1, 0, 1), counters(1, 1, 0)] {
        let mut snapshot = empty_snapshot(deltas, 1);
        snapshot.font_definitions = Some(vec![1]);
        assert_eq!(context.apply(snapshot), Err(SyncError::ProtocolViolation));
        assert_eq!(observe(&context), before);
    }
}

#[test]
fn snapshot_with_an_unacceptable_cache_delta_is_a_protocol_violation() {
    let mut context = Context::default();
    context.capture(&ContextSnapshotDeltas::default()).unwrap();
    let before = observe(&context);
    let mut snapshot = empty_snapshot(counters(2, 2, 2), 1);
    snapshot.font_definitions = Some(vec![1]);
    assert_eq!(context.apply(snapshot), Err(SyncError::ProtocolViolation));
    assert_eq!(observe(&context), before);
}

#[test]
fn snapshot_with_a_malformed_style_is_an_encoding_error() {
    let mut context = Context::default();
    let before = observe(&context);
    for payload in [vec![], vec![1, 0, 0, 0, 0, 0, 0], vec![1, 0, 0, 0, 0, 0, 0, 0, 0]] {
        let mut snapshot = empty_snapshot(counters(2, 2, 2), 2);
        snapshot.style = Some(payload);
        snapshot.font_definitions = Some(vec![1]);
        snapshot.cache_delta.to_add.push((1, CachedObject::new(1, vec![1])));
        assert_eq!(context.apply(snapshot), Err(SyncError::EncodingError));
        assert_eq!(observe(&context), before);
    }
}

#[test]
fn snapshot_with_a_corrupt_frame_changes_nothing() {
    let mut context = Context::default();
    context.set_memory(vec![4, 4]);
    context.set_style(CachedObject::new(3, vec![1]));
    context.set_fonts(vec![8]);
    context.update_fonts_mut();
    let before = observe(&context);
    let mut payload = encode_frame(Context::default().frame());
    payload.pop();
    let snapshot = ContextSnapshot {
        deltas: counters(9, 9, 9),
        style: Some(1u64.to_le_bytes().to_vec()),
        font_definitions: Some(vec![5]),
        frame: Some(payload),
        cache_delta: ArcCacheDelta {
            id_counter: 2,
            to_add: vec![(1, CachedObject::new(1, b"new style".to_vec()))],
            to_remove: vec![],
        },
    };
    assert_eq!(context.apply(snapshot), Err(SyncError::EncodingError));
    assert_eq!(observe(&context), before);
    assert!(context.cache().get_by_id(1).is_none());
}

#[test]
fn snapshot_whose_style_names_nothing_is_a_protocol_violation() {
    let mut context = Context::default();
    let before = observe(&context);
    let mut snapshot = empty_snapshot(counters(2, 2, 2), 9);
    snapshot.style = Some(3u64.to_le_bytes().to_vec());
    snapshot.font_definitions = Some(vec![1]);
    snapshot.cache_delta.to_add.push((2, CachedObject::new(1, vec![1])));
    assert_eq!(context.apply(snapshot), Err(SyncError::ProtocolViolation));
    assert_eq!(observe(&context), before);
    assert!(context.cache().get_by_id(2).is_none());
}

#[test]
fn style_that_is_cached_already_is_resolved() {
    let mut context = Context::default();
    let mut first = empty_snapshot(counters(2, 2, 2), 3);
    first.cache_delta.to_add.push((1, CachedObject::new(0, b"one".to_vec())));
    first.cache_delta.to_add.push((2, CachedObject::new(0, b"two".to_vec())));
    first.style = Some(2u64.to_le_bytes().to_vec());
    assert_eq!(context.apply(first), Ok(()));
    assert_eq!(context.style().get(), &b"two".to_vec());
    let mut second = empty_snapshot(counters(2, 3, 2), 3);
    second.style = Some(1u64.to_le_bytes().to_vec());
    assert_eq!(context.apply(second), Ok(()));
    assert_eq!(context.style().get(), &b"one".to_vec());
}

#[test]
fn created_snapshot_cannot_be_built_again() {
    let mut context = Context::default();
    let before = observe(&context);
    let arrived = CreateContextSnapshot::Created(empty_snapshot(counters(2, 2, 2), 1));
    assert!(matches!(arrived.build(&mut context), Err(SyncError::ProtocolViolation)));
    assert_eq!(observe(&context), before);
    let request = CreateContextSnapshot::FromContext(ContextSnapshotDeltas::default());
    assert_eq!(request.build(&mut context).unwrap().partitions().len(), 3);
    let arrived = CreateContextSnapshot::Created(empty_snapshot(counters(2, 2, 2), 2));
    assert_eq!(arrived.apply(&mut context), Ok(()));
}

#[test]
fn viewports_are_replaced_and_known_ones_keep_their_repaint_requests() {
    let mut context = Context::default();
    context.set_viewport(viewport(5, 1, b"five"));
    assert!(context.request_repaint(5));
    assert!(context.request_repaint(ROOT_VIEWPORT));
    assert!(!context.request_repaint(6));
    let mut sender = Context::default();
    sender.set_viewport(viewport(6, 2, b"six"));
    sender.set_viewport(viewport(5, 3, b"FIVE"));
    let mut snapshot = empty_snapshot(counters(8, 1, 1), 1);
    snapshot.frame = Some(encode_frame(sender.frame()));
    assert_eq!(context.apply(snapshot), Ok(()));
    let ids: Vec<u64> = context.frame().viewports.iter().map(|viewport| viewport.id).collect();
    assert_eq!(ids, vec![ROOT_VIEWPORT, 6, 5]);
    assert_eq!(context.frame().viewports[2].state, b"FIVE".to_vec());
    assert_eq!(
        context.repaint_info(ROOT_VIEWPORT),
        Some(ViewportRepaintInfo { frame_nr: 8, outstanding: 1 })
    );
    assert_eq!(context.repaint_info(6), Some(ViewportRepaintInfo { frame_nr: 8, outstanding: 0 }));
    assert_eq!(context.repaint_info(5), Some(ViewportRepaintInfo { frame_nr: 8, outstanding: 1 }));
}

#[test]
fn viewport_is_put_over_the_one_with_its_id() {
    let mut context = Context::default();
    context.set_viewport(viewport(5, 1, b"a"));
    context.set_viewport(viewport(ROOT_VIEWPORT, 2, b"root"));
    context.set_viewport(viewport(5, 3, b"b"));
    assert_eq!(context.frame().viewports.len(), 2);
    assert_eq!(context.frame().viewports[0].state, b"root".to_vec());
    assert_eq!(context.frame().viewports[0].pixels_per_point, 2);
    assert_eq!(context.frame().viewports[1].state, b"b".to_vec());
    assert_eq!(find_viewport(&context.frame().viewports, 5), Some(1));
    assert_eq!(find_viewport(&context.frame().viewports, ROOT_VIEWPORT), Some(0));
    assert_eq!(find_viewport(&context.frame().viewports, 1), None);
    assert_eq!(ContextSnapshotDeltas::from_context(&context), counters(2, 1, 1));
}

#[test]
fn fonts_are_made_for_the_scale_of_the_last_viewport() {
    let mut context = Context::default();
    context.update_fonts_mut();
    assert_eq!(
        context.fonts(),
        &vec![ScaledFonts {
            pixels_per_point: DEFAULT_PIXELS_PER_POINT,
            max_texture_side: 2048,
            prepared: true,
            preloaded: true
        }]
    );
    // Another scale factor gets fonts of its own; the options decide on preloading.
    context.set_options(vec![], false);
    context.set_viewport(viewport(ROOT_VIEWPORT, 2.0f32.to_bits(), b""));
    context.update_fonts_mut();
    assert_eq!(context.fonts().len(), 2);
    assert_eq!(
        context.fonts()[1],
        ScaledFonts {
            pixels_per_point: 2.0f32.to_bits(),
            max_texture_side: 4096,
            prepared: true,
            preloaded: false
        }
    );
    // The fonts of a scale that is in use again are prepared, not made anew.
    context.capture(&counters(1, 1, 1)).unwrap();
    let mut root = viewport(ROOT_VIEWPORT, DEFAULT_PIXELS_PER_POINT, b"");
    root.max_texture_side = 512;
    context.set_viewport(root);
    context.update_fonts_mut();
    assert_eq!(context.fonts().len(), 2);
    assert_eq!(
        context.fonts()[0],
        ScaledFonts {
            pixels_per_point: DEFAULT_PIXELS_PER_POINT,
            max_texture_side: 512,
            prepared: true,
            preloaded: true
        }
    );
}

#[test]
fn pending_font_definitions_are_installed_when_fonts_are_used() {
    let mut context = Context::default();
    context.update_fonts_mut();
    context.set_fonts(vec![1, 2, 3]);
    assert_eq!(context.frame().new_font_definitions, Some(vec![1, 2, 3]));
    assert!(context.font_definitions().is_empty());
    assert_eq!(context.fonts().len(), 1);
    context.set_viewport(viewport(ROOT_VIEWPORT, 5, b""));
    context.update_fonts_mut();
    assert_eq!(context.frame().new_font_definitions, None);
    assert_eq!(context.font_definitions(), &vec![1, 2, 3]);
    assert_eq!(
        context.fonts(),
        &vec![ScaledFonts { pixels_per_point: 5, max_texture_side: 4096, prepared: true, preloaded: true }]
    );
    assert_eq!(ContextSnapshotDeltas::from_context(&context), counters(2, 1, 2));
}

#[test]
fn fonts_wait_while_the_last_viewport_is_unknown() {
    let mut context = Context::default();
    context.set_last_viewport(3);
    context.set_fonts(vec![1]);
    context.update_fonts_mut();
    assert!(context.fonts().is_empty());
    assert_eq!(context.frame().new_font_definitions, Some(vec![1]));
    assert!(context.font_definitions().is_empty());
}

#[test]
fn arriving_font_definitions_drop_the_fonts() {
    let mut context = Context::default();
    context.update_fonts_mut();
    assert_eq!(context.fonts().len(), 1);
    // The same frame: the fonts stay prepared.
    assert_eq!(context.apply(empty_snapshot(counters(1, 2, 1), 1)), Ok(()));
    assert!(context.fonts()[0].prepared);
    // Another frame: the fonts are kept, but have to be prepared again.
    assert_eq!(context.apply(empty_snapshot(counters(2, 2, 1), 1)), Ok(()));
    assert_eq!(
        context.fonts(),
        &vec![ScaledFonts {
            pixels_per_point: DEFAULT_PIXELS_PER_POINT,
            max_texture_side: 2048,
            prepared: false,
            preloaded: true
        }]
    );
    context.update_fonts_mut();
    assert!(context.fonts()[0].prepared);
    assert_eq!(context.fonts().len(), 1);
    let mut snapshot = empty_snapshot(counters(2, 1, 2), 1);
    snapshot.font_definitions = Some(vec![3]);
    assert_eq!(context.apply(snapshot), Ok(()));
    assert!(context.fonts().is_empty());
    assert_eq!(context.font_definitions(), &vec![3]);
}

#[test]
fn partitions_are_assembled_into_a_snapshot() {
    let list = vec![(3, vec![3, 3]), (1, vec![1])];
    let snapshot =
        ContextSnapshot::from_partitions(counters(1, 2, 3), &list, ArcCacheDelta::empty(4)).unwrap();
    assert_eq!(snapshot.deltas, counters(1, 2, 3));
    assert_eq!(snapshot.style, Some(vec![1]));
    assert_eq!(snapshot.font_definitions, None);
    assert_eq!(snapshot.frame, Some(vec![3, 3]));
    assert_eq!(snapshot.cache_delta.id_counter, 4);
    assert_eq!(snapshot.partitions(), vec![(1, vec![1]), (3, vec![3, 3])]);
    let empty =
        ContextSnapshot::from_partitions(counters(1, 2, 3), &vec![], ArcCacheDelta::empty(4)).unwrap();
    assert!(empty.partitions().is_empty());
}

#[test]
fn malformed_partition_lists_are_encoding_errors() {
    for list in [
        vec![(0, vec![])],
        vec![(4, vec![1])],
        vec![(1, vec![1]), (1, vec![1])],
        vec![(2, vec![]), (3, vec![]), (2, vec![9])],
        vec![(3, vec![]), (255, vec![])],
    ] {
        assert!(matches!(
            ContextSnapshot::from_partitions(counters(1, 1, 1), &list, ArcCacheDelta::empty(1)),
            Err(SyncError::EncodingError)
        ));
    }
}

#[test]
fn capture_lets_go_of_what_the_counts_say() {
    let mut context = Context::default();
    context.set_style(CachedObject::new(1, b"a".to_vec()));
    let first = context.capture_for(&ContextSnapshotDeltas::default(), &Vec::new()).unwrap();
    assert_eq!(first.cache_delta.to_add.len(), 1);
    assert_eq!(context.apply(empty_snapshot(counters(1, 2, 1), 2)), Ok(()));
    context.set_style(CachedObject::new(2, b"b".to_vec()));
    let second = context.capture_for(&counters(1, 2, 1), &vec![(1, 1), (2, 1)]).unwrap();
    assert_eq!(second.style, Some(2u64.to_le_bytes().to_vec()));
    assert_eq!(second.cache_delta.to_remove, vec![1]);
    assert_eq!(second.cache_delta.to_add.len(), 1);
    assert_eq!(second.cache_delta.to_add[0].0, 2);
    assert_eq!(second.cache_delta.id_counter, 3);
    assert!(!second.has(Partition::Frame));
    assert!(context.cache().get_by_id(1).is_none());
}

#[test]
fn viewport_list_is_replaced_unless_an_id_comes_twice() {
    let mut context = Context::default();
    context.capture(&ContextSnapshotDeltas::default()).unwrap();
    assert!(context.request_repaint(ROOT_VIEWPORT));
    assert!(!context.set_viewports(vec![viewport(1, 1, b"a"), viewport(1, 2, b"b")]));
    assert_eq!(context.frame().viewports.len(), 1);
    assert_eq!(ContextSnapshotDeltas::from_context(&context), counters(1, 1, 1));
    assert!(context.set_viewports(vec![viewport(4, 1, b"a"), viewport(ROOT_VIEWPORT, 2, b"b")]));
    let ids: Vec<u64> = context.frame().viewports.iter().map(|viewport| viewport.id).collect();
    assert_eq!(ids, vec![4, ROOT_VIEWPORT]);
    assert_eq!(context.repaint_info(4), Some(ViewportRepaintInfo { frame_nr: 0, outstanding: 0 }));
    assert_eq!(
        context.repaint_info(ROOT_VIEWPORT),
        Some(ViewportRepaintInfo { frame_nr: 0, outstanding: 1 })
    );
    assert_eq!(ContextSnapshotDeltas::from_context(&context), counters(2, 1, 1));
    assert!(context.set_viewports(Vec::new()));
    assert!(context.frame().viewports.is_empty());
    assert_eq!(context.repaint_info(ROOT_VIEWPORT), None);
}

#[test]
fn known_style_is_captured_when_no_id_is_left() {
    let mut context = Context::default();
    context.set_style(CachedObject::new(5, vec![1]));
    let first = context.capture_for(&ContextSnapshotDeltas::default(), &Vec::new()).unwrap();
    assert_eq!(first.style, Some(1u64.to_le_bytes().to_vec()));
    assert_eq!(context.apply(empty_snapshot(counters(1, 2, 1), u64::MAX)), Ok(()));
    assert_eq!(context.cache().id_counter(), u64::MAX);
    let again = context.capture_for(&ContextSnapshotDeltas::default(), &Vec::new()).unwrap();
    assert_eq!(again.style, Some(1u64.to_le_bytes().to_vec()));
    // A consumer that has seen nothing is sent the style itself once more.
    assert_eq!(again.cache_delta.to_add.len(), 1);
    assert_eq!(again.cache_delta.to_add[0].0, 1);
    assert_eq!(again.cache_delta.to_add[0].1.get(), &vec![1]);
    assert_eq!(again.cache_delta.id_counter, u64::MAX);
    // One that has seen the style before is sent its id alone.
    let known = context.capture_for(&counters(1, 1, 1), &Vec::new()).unwrap();
    assert_eq!(known.style, Some(1u64.to_le_bytes().to_vec()));
    assert!(known.cache_delta.to_add.is_empty());
}

#[test]
fn style_in_use_is_not_let_go_whatever_is_counted() {
    let mut context = Context::default();
    context.set_style(CachedObject::new(5, vec![1]));
    context.capture_for(&ContextSnapshotDeltas::default(), &Vec::new()).unwrap();
    assert_eq!(context.apply(empty_snapshot(counters(1, 2, 1), 2)), Ok(()));
    // By the counts nothing but the cache holds the style; it is in use all the same.
    let snapshot = context.capture_for(&counters(1, 2, 1), &vec![(1, 1)]).unwrap();
    assert!(snapshot.cache_delta.to_remove.is_empty());
    assert!(context.cache().get_by_id(1).is_some());
    let snapshot = context.capture_for(&counters(1, 1, 1), &vec![(1, 1), (1, 1)]).unwrap();
    assert_eq!(snapshot.style, Some(1u64.to_le_bytes().to_vec()));
    assert!(snapshot.cache_delta.to_remove.is_empty());
    // Once another style is in use, the first goes.
    context.set_style(CachedObject::new(6, vec![2]));
    let snapshot = context.capture_for(&counters(1, 2, 1), &vec![(1, 1), (2, 1)]).unwrap();
    assert_eq!(snapshot.style, Some(2u64.to_le_bytes().to_vec()));
    assert_eq!(snapshot.cache_delta.to_remove, vec![1]);
}

#[test]
fn second_snapshot_carries_the_same() {
    let mut context = Context::default();
    context.set_style(CachedObject::new(5, vec![1]));
    context.set_memory(vec![7]);
    context.set_fonts(vec![3]);
    context.update_fonts_mut();
    let consumer = counters(1, 1, 1);
    let first = context.capture(&consumer).unwrap();
    let second = context.capture(&consumer).unwrap();
    assert_eq!(first.partitions().len(), 3);
    assert_eq!(second.partitions(), first.partitions());
    assert_eq!(second.deltas, first.deltas);
}

#[test]
fn fonts_are_due_when_dropped_or_left_unprepared() {
    let mut context = Context::default();
    assert!(context.fonts_are_due());
    context.update_fonts_mut();
    assert!(!context.fonts_are_due());
    assert_eq!(context.apply(empty_snapshot(counters(2, 1, 1), 1)), Ok(()));
    assert!(context.fonts_are_due());
    context.update_fonts_mut();
    assert!(!context.fonts_are_due());
    let mut snapshot = empty_snapshot(counters(2, 1, 2), 1);
    snapshot.font_definitions = Some(vec![3]);
    assert_eq!(context.apply(snapshot), Ok(()));
    assert!(context.fonts_are_due());
    // What waits is installed by whoever set it, not made ready here.
    context.set_fonts(vec![4]);
    assert!(!context.fonts_are_due());
}

#[test]
fn viewports_are_checked_against_those_at_hand() {
    let mut context = Context::default();
    assert!(context.viewports_are_among(&vec![ROOT_VIEWPORT]));
    assert!(context.viewports_are_among(&vec![3, ROOT_VIEWPORT, 4]));
    assert!(!context.viewports_are_among(&vec![3, 4]));
    assert!(!context.viewports_are_among(&Vec::new()));
    context.set_viewport(viewport(4, 1, b""));
    assert!(context.viewports_are_among(&vec![4, ROOT_VIEWPORT]));
    assert!(!context.viewports_are_among(&vec![ROOT_VIEWPORT]));
    assert!(context.set_viewports(Vec::new()));
    assert!(context.viewports_are_among(&Vec::new()));
}
