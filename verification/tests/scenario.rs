use egui_wings::arc_cache::{ArcCacheDelta, CachedObject};
use egui_wings::context::Context;
use egui_wings::deltas::{ContextSnapshotDeltas, Partition};
use egui_wings::host::EguiHost;
use egui_wings::snapshot::{ContextSnapshot, CreateContextSnapshot};
use egui_wings::transaction::{EguiHandle, TransactionState};

/// What the wire does to a snapshot: every value arrives as a copy.
fn transport(snapshot: &ContextSnapshot) -> CreateContextSnapshot {
    let mut to_add = Vec::new();
    for (id, object) in &snapshot.cache_delta.to_add {
        to_add.push((*id, CachedObject::received(*id, object.get().clone())));
    }
    CreateContextSnapshot::Created(ContextSnapshot {
        deltas: snapshot.deltas,
        style: snapshot.style.clone(),
        font_definitions: snapshot.font_definitions.clone(),
        frame: snapshot.frame.clone(),
        cache_delta: ArcCacheDelta {
            id_counter: snapshot.cache_delta.id_counter,
            to_add,
            to_remove: snapshot.cache_delta.to_remove.clone(),
        },
    })
}

fn added(snapshot: &ContextSnapshot) -> Vec<(u64, Vec<u8>)> {
    snapshot.cache_delta.to_add.iter().map(|(id, object)| (*id, object.get().clone())).collect()
}

#[test]
fn style_travels_once_and_is_replaced_by_id() {
    let mut host = EguiHost::new();
    host.context_mut().set_style(CachedObject::new(100, b"style A".to_vec()));
    let mut guest = EguiHandle::new();

    // Transaction 1: a full snapshot, with style A as id 1.
    let deltas = guest.begin().unwrap();
    assert_eq!(deltas, ContextSnapshotDeltas::default());
    let first = host.begin_context_edit(deltas).unwrap();
    assert!(first.has(Partition::Style));
    assert!(first.has(Partition::FontDefinitions));
    assert!(first.has(Partition::Frame));
    assert_eq!(first.style, Some(1u64.to_le_bytes().to_vec()));
    assert_eq!(added(&first), vec![(1, b"style A".to_vec())]);
    assert_eq!(first.cache_delta.to_remove, Vec::<u64>::new());
    assert_eq!(first.cache_delta.id_counter, 2);
    guest.open(transport(&first)).unwrap();
    drop(first);
    assert_eq!(guest.state(), TransactionState::Open);
    assert_eq!(guest.context().style().get(), &b"style A".to_vec());
    let back = guest.commit().unwrap();
    assert!(!back.has(Partition::Style));
    assert!(!back.has(Partition::Frame));
    host.end_context_edit(transport(&back)).unwrap();

    // Transaction 2: the input has changed, the style has not.
    host.context_mut().set_memory(b"input of frame 2".to_vec());
    let deltas = guest.begin().unwrap();
    let second = host.begin_context_edit(deltas).unwrap();
    assert!(!second.has(Partition::Style));
    assert!(!second.has(Partition::FontDefinitions));
    assert!(second.frame.as_ref().is_some_and(|payload| !payload.is_empty()));
    assert!(second.cache_delta.to_add.is_empty());
    assert!(second.cache_delta.to_remove.is_empty());
    guest.open(transport(&second)).unwrap();
    drop(second);
    assert_eq!(guest.context().frame().memory, b"input of frame 2".to_vec());
    let back = guest.commit().unwrap();
    host.end_context_edit(transport(&back)).unwrap();

    // Transaction 3: the host has swapped to style B; nothing holds A any more.
    host.context_mut().set_style(CachedObject::new(101, b"style B".to_vec()));
    let deltas = guest.begin().unwrap();
    let third = host.begin_context_edit(deltas).unwrap();
    assert_eq!(added(&third), vec![(2, b"style B".to_vec())]);
    assert_eq!(third.cache_delta.to_remove, vec![1]);
    assert_eq!(third.style, Some(2u64.to_le_bytes().to_vec()));
    assert!(!third.has(Partition::Frame));
    guest.open(transport(&third)).unwrap();
    assert_eq!(guest.context().style().get(), &b"style B".to_vec());
}

#[test]
fn fresh_context_has_root_viewport() {
    let context = Context::default();
    assert_eq!(context.frame().viewports.len(), 1);
    assert_eq!(context.frame().viewports[0].id, u64::MAX);
    assert_eq!(context.style().identity(), 0);
}

#[test]
fn full_snapshot_reconstructs_the_state_on_a_fresh_receiver() {
    let mut sender = Context::default();
    sender.set_style(CachedObject::new(9, b"style sheet".to_vec()));
    sender.set_fonts(b"font definitions".to_vec());
    sender.update_fonts_mut();
    sender.set_fonts(b"pending definitions".to_vec());
    sender.set_memory(b"memory".to_vec());
    sender.set_options(b"options".to_vec(), false);
    sender.set_new_zoom_factor(Some(1.5f32.to_bits()));
    sender.set_viewport(egui_wings::frame::ViewportStateSnapshot {
        id: 12,
        pixels_per_point: 2.0f32.to_bits(),
        max_texture_side: 8192,
        state: b"second viewport".to_vec(),
    });
    sender.set_last_viewport(12);

    let snapshot = sender.capture(&ContextSnapshotDeltas::default()).unwrap();
    let mut receiver = Context::default();
    assert_eq!(transport(&snapshot).apply(&mut receiver), Ok(()));

    assert_eq!(receiver.style().get(), sender.style().get());
    assert_eq!(receiver.font_definitions(), sender.font_definitions());
    assert_eq!(receiver.font_definitions(), &b"font definitions".to_vec());
    assert_eq!(
        egui_wings::frame::encode_frame(receiver.frame()),
        egui_wings::frame::encode_frame(sender.frame())
    );
    assert_eq!(receiver.frame().new_font_definitions, Some(b"pending definitions".to_vec()));
    assert_eq!(receiver.frame().viewports.len(), 2);
    assert_eq!(receiver.frame().viewports[1].state, b"second viewport".to_vec());
    assert_eq!(
        ContextSnapshotDeltas::from_context(&receiver),
        ContextSnapshotDeltas::from_context(&sender)
    );
    // What is derived stays behind.
    assert_eq!(sender.fonts().len(), 1);
    assert!(receiver.fonts().is_empty());
}

#[test]
fn second_guest_gets_the_full_state_after_the_first() {
    let mut host = EguiHost::new();
    host.context_mut().set_style(CachedObject::new(100, b"style A".to_vec()));
    host.context_mut().set_memory(b"memory".to_vec());

    // The first guest takes the state and commits: the host's pending lists are cleared.
    let mut first = EguiHandle::new();
    let deltas = first.begin().unwrap();
    let snapshot = host.begin_context_edit(deltas).unwrap();
    first.open(transport(&snapshot)).unwrap();
    drop(snapshot);
    let back = first.commit().unwrap();
    host.end_context_edit(transport(&back)).unwrap();
    assert!(host.begin_context_edit(ContextSnapshotDeltas::from_context(first.context()))
        .unwrap()
        .cache_delta
        .to_add
        .is_empty());

    // A second guest has seen nothing: it is sent the style itself again.
    let mut second = EguiHandle::new();
    let deltas = second.begin().unwrap();
    assert_eq!(deltas, ContextSnapshotDeltas::default());
    let snapshot = host.begin_context_edit(deltas).unwrap();
    assert_eq!(snapshot.style, Some(1u64.to_le_bytes().to_vec()));
    assert_eq!(snapshot.cache_delta.to_add.len(), 1);
    assert_eq!(snapshot.cache_delta.to_add[0].0, 1);
    assert_eq!(snapshot.cache_delta.to_add[0].1.get(), &b"style A".to_vec());
    assert_eq!(second.open(transport(&snapshot)), Ok(()));
    assert_eq!(second.context().style().get(), &b"style A".to_vec());
    assert_eq!(second.context().frame().memory, b"memory".to_vec());
    // The host's own pending list is as it was.
    assert!(host.context().cache().get_by_id(1).is_some());
    assert!(host.begin_context_edit(ContextSnapshotDeltas::from_context(second.context()))
        .unwrap()
        .cache_delta
        .to_add
        .is_empty());
}
