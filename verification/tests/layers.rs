use egui::epaint::text::FontDefinitions;
use egui::epaint::{Color32, FontId, Fonts, Galley, Shape, TextShape};
use egui::{Pos2, Rect};
use egui_wings::layers::{
    reinitialize_galleys_for_shape, ClippedShape, GraphicLayers, GraphicLayersInner, PaintList,
    ShapeTree, Text, LAYER_ORDERS,
};
use std::sync::Arc;

fn fonts(pixels_per_point: f32) -> Fonts {
    Fonts::new(pixels_per_point, 1024, FontDefinitions::default())
}

fn text(fonts: &Fonts, content: &str) -> ShapeTree {
    let galley = fonts.layout_no_wrap(content.to_string(), FontId::default(), Color32::WHITE);
    let shape = TextShape::new(Pos2::new(1.0, 2.0), galley.clone(), Color32::WHITE);
    ShapeTree::Text(Text { galley, shape })
}

/// Lays a text out again from the job of its old layout.
fn with(fonts: &Fonts) -> impl Fn(Arc<Galley>) -> Arc<Galley> + '_ {
    move |galley: Arc<Galley>| fonts.layout_job((*galley.job).clone())
}

fn scale(tree: &ShapeTree) -> f32 {
    match tree {
        ShapeTree::Text(text) => text.galley.pixels_per_point,
        _ => panic!("no text"),
    }
}

fn content(tree: &ShapeTree) -> String {
    match tree {
        ShapeTree::Text(text) => text.galley.job.text.clone(),
        _ => panic!("no text"),
    }
}

fn clipped(side: f32, shape: ShapeTree) -> ClippedShape {
    ClippedShape { clip_rect: Rect::from_min_max(Pos2::ZERO, Pos2::new(side, side)), shape }
}

fn empty_layers() -> GraphicLayersInner {
    [Vec::new(), Vec::new(), Vec::new(), Vec::new(), Vec::new(), Vec::new()]
}

#[test]
fn paint_list_holds_its_shapes_in_order() {
    let mut list = PaintList::from_inner(vec![
        clipped(1.0, ShapeTree::Other(Shape::Noop)),
        clipped(2.0, ShapeTree::Vec(vec![])),
    ]);
    assert_eq!(list.as_inner().len(), 2);
    assert_eq!(list.as_inner()[0].clip_rect.max.x, 1.0);
    assert_eq!(list.as_inner()[1].clip_rect.max.x, 2.0);
    list.as_inner_mut().push(clipped(3.0, ShapeTree::Other(Shape::Noop)));
    list.as_inner_mut().remove(0);
    assert_eq!(list.as_inner().len(), 2);
    assert_eq!(list.as_inner()[0].clip_rect.max.x, 2.0);
    assert_eq!(list.as_inner()[1].clip_rect.max.x, 3.0);
    assert!(PaintList::from_inner(Vec::new()).as_inner().is_empty());
}

#[test]
fn text_is_laid_out_with_the_fonts_given() {
    let old = fonts(1.0);
    let new = fonts(2.0);
    let before = text(&old, "hello");
    assert_eq!(scale(&before), 1.0);
    let after = reinitialize_galleys_for_shape(before, &with(&new));
    assert_eq!(scale(&after), 2.0);
    assert_eq!(content(&after), "hello");
    match after {
        ShapeTree::Text(text) => {
            // All but the layout is as it was, the old layout within it too.
            assert_eq!(text.shape.pos, Pos2::new(1.0, 2.0));
            assert_eq!(text.shape.galley.pixels_per_point, 1.0);
        },
        _ => panic!("no text"),
    }
}

#[test]
fn tree_keeps_its_form_and_its_other_shapes() {
    let old = fonts(1.0);
    let new = fonts(3.0);
    let tree = ShapeTree::Vec(vec![
        text(&old, "a"),
        ShapeTree::Other(Shape::circle_filled(Pos2::new(5.0, 6.0), 7.0, Color32::RED)),
        ShapeTree::Vec(vec![text(&old, "b"), ShapeTree::Vec(vec![]), text(&old, "c")]),
        ShapeTree::Other(Shape::Noop),
    ]);
    let ShapeTree::Vec(children) = reinitialize_galleys_for_shape(tree, &with(&new)) else {
        panic!("no vector");
    };
    assert_eq!(children.len(), 4);
    assert_eq!(scale(&children[0]), 3.0);
    assert_eq!(content(&children[0]), "a");
    match &children[1] {
        ShapeTree::Other(Shape::Circle(circle)) => {
            assert_eq!(circle.center, Pos2::new(5.0, 6.0));
            assert_eq!(circle.radius, 7.0);
        },
        _ => panic!("no circle"),
    }
    let ShapeTree::Vec(inner) = &children[2] else {
        panic!("no vector");
    };
    assert_eq!(inner.len(), 3);
    assert_eq!(content(&inner[0]), "b");
    assert_eq!(scale(&inner[0]), 3.0);
    assert!(matches!(&inner[1], ShapeTree::Vec(empty) if empty.is_empty()));
    assert_eq!(content(&inner[2]), "c");
    assert_eq!(scale(&inner[2]), 3.0);
    assert!(matches!(&children[3], ShapeTree::Other(Shape::Noop)));
}

#[test]
fn paint_list_lays_out_every_text_and_keeps_the_clip_rectangles() {
    let old = fonts(1.0);
    let new = fonts(2.0);
    let mut list = PaintList::from_inner(vec![
        clipped(1.0, text(&old, "first")),
        clipped(2.0, ShapeTree::Other(Shape::Noop)),
        clipped(3.0, ShapeTree::Vec(vec![text(&old, "second")])),
    ]);
    list.reinitialize_galleys(&with(&new));
    let shapes = list.as_inner();
    assert_eq!(shapes.len(), 3);
    assert_eq!(shapes[0].clip_rect.max.x, 1.0);
    assert_eq!(content(&shapes[0].shape), "first");
    assert_eq!(scale(&shapes[0].shape), 2.0);
    assert_eq!(shapes[1].clip_rect.max.x, 2.0);
    assert!(matches!(shapes[1].shape, ShapeTree::Other(Shape::Noop)));
    assert_eq!(shapes[2].clip_rect.max.x, 3.0);
    match &shapes[2].shape {
        ShapeTree::Vec(children) => {
            assert_eq!(children.len(), 1);
            assert_eq!(content(&children[0]), "second");
            assert_eq!(scale(&children[0]), 2.0);
        },
        _ => panic!("no vector"),
    }
    let mut empty = PaintList::from_inner(Vec::new());
    empty.reinitialize_galleys(&with(&new));
    assert!(empty.as_inner().is_empty());
}

#[test]
fn layers_lay_out_every_list_and_keep_the_areas() {
    let old = fonts(1.0);
    let new = fonts(2.0);
    let mut inner = empty_layers();
    inner[0].push((10, PaintList::from_inner(vec![clipped(1.0, text(&old, "background"))])));
    inner[2].push((20, PaintList::from_inner(vec![])));
    inner[2].push((21, PaintList::from_inner(vec![
        clipped(2.0, ShapeTree::Other(Shape::Noop)),
        clipped(3.0, text(&old, "middle")),
    ])));
    inner[5].push((30, PaintList::from_inner(vec![clipped(4.0, text(&old, "debug"))])));
    let mut layers = GraphicLayers::from_inner(inner);
    layers.reinitialize_galleys(&with(&new));
    let inner = layers.as_inner();
    assert_eq!(inner.len(), LAYER_ORDERS);
    assert_eq!(inner.iter().map(|lists| lists.len()).collect::<Vec<_>>(), vec![1, 0, 2, 0, 0, 1]);
    assert_eq!(inner[0][0].0, 10);
    assert_eq!(scale(&inner[0][0].1.as_inner()[0].shape), 2.0);
    assert_eq!(content(&inner[0][0].1.as_inner()[0].shape), "background");
    assert_eq!(inner[2][0].0, 20);
    assert!(inner[2][0].1.as_inner().is_empty());
    assert_eq!(inner[2][1].0, 21);
    assert_eq!(inner[2][1].1.as_inner().len(), 2);
    assert_eq!(inner[2][1].1.as_inner()[1].clip_rect.max.x, 3.0);
    assert_eq!(content(&inner[2][1].1.as_inner()[1].shape), "middle");
    assert_eq!(scale(&inner[2][1].1.as_inner()[1].shape), 2.0);
    assert_eq!(inner[5][0].0, 30);
    assert_eq!(scale(&inner[5][0].1.as_inner()[0].shape), 2.0);
}

#[test]
fn layers_hand_out_what_they_were_made_from() {
    let mut inner = empty_layers();
    inner[1].push((7, PaintList::from_inner(vec![clipped(1.0, ShapeTree::Other(Shape::Noop))])));
    let mut layers = GraphicLayers::from_inner(inner);
    assert_eq!(layers.as_inner()[1][0].0, 7);
    layers.as_inner_mut()[3].push((8, PaintList::from_inner(Vec::new())));
    layers.as_inner_mut()[1].clear();
    assert!(layers.as_inner()[1].is_empty());
    assert_eq!(layers.as_inner()[3][0].0, 8);
}

#[test]
fn every_text_gets_what_the_layout_made_of_its_own() {
    let old = fonts(1.0);
    let tree = ShapeTree::Vec(vec![text(&old, "one"), text(&old, "two")]);
    let seen = std::cell::RefCell::new(Vec::new());
    let layout = |galley: Arc<Galley>| {
        seen.borrow_mut().push(galley.job.text.clone());
        old.layout_no_wrap(format!("<{}>", galley.job.text), FontId::default(), Color32::RED)
    };
    let ShapeTree::Vec(children) = reinitialize_galleys_for_shape(tree, &layout) else {
        panic!("no vector");
    };
    assert_eq!(content(&children[0]), "<one>");
    assert_eq!(content(&children[1]), "<two>");
    assert_eq!(seen.into_inner(), vec!["one".to_string(), "two".to_string()]);
}

#[test]
fn new_lists_and_layers_are_empty() {
    assert!(PaintList::default().as_inner().is_empty());
    let layers = GraphicLayers::default();
    assert_eq!(layers.as_inner().len(), LAYER_ORDERS);
    assert!(layers.as_inner().iter().all(|lists| lists.is_empty()));
    assert!(layers.has_distinct_areas());
}

#[test]
fn an_area_with_two_lists_in_one_order_is_found() {
    let mut inner = empty_layers();
    inner[0].push((7, PaintList::default()));
    inner[1].push((7, PaintList::default()));
    inner[1].push((8, PaintList::default()));
    let mut layers = GraphicLayers::from_inner(inner);
    assert!(layers.has_distinct_areas());
    layers.as_inner_mut()[1].push((7, PaintList::default()));
    assert!(!layers.has_distinct_areas());
}

#[test]
fn copies_hold_the_same_shapes() {
    let old = fonts(1.0);
    let tree = ShapeTree::Vec(vec![
        text(&old, "a"),
        ShapeTree::Other(Shape::circle_filled(Pos2::new(5.0, 6.0), 7.0, Color32::RED)),
        ShapeTree::Vec(vec![text(&old, "b")]),
    ]);
    let ShapeTree::Vec(children) = tree.clone() else {
        panic!("no vector");
    };
    assert_eq!(children.len(), 3);
    assert_eq!(content(&children[0]), "a");
    assert!(matches!(&children[1], ShapeTree::Other(Shape::Circle(circle)) if circle.radius == 7.0));
    match (&children[2], &tree) {
        (ShapeTree::Vec(inner), ShapeTree::Vec(before)) => {
            assert_eq!(inner.len(), 1);
            assert_eq!(content(&inner[0]), "b");
            // A copy of a text shares the layout.
            match (&inner[0], &before[2]) {
                (ShapeTree::Text(copy), ShapeTree::Vec(nested)) => match &nested[0] {
                    ShapeTree::Text(source) => {
                        assert!(Arc::ptr_eq(&copy.galley, &source.galley));
                        assert_eq!(copy.shape.pos, source.shape.pos);
                    },
                    _ => panic!("no text"),
                },
                _ => panic!("no text"),
            }
        },
        _ => panic!("no vector"),
    }

    let list = PaintList::from_inner(vec![clipped(1.0, text(&old, "x")), clipped(2.0, tree)]);
    let copy = list.clone();
    assert_eq!(copy.as_inner().len(), 2);
    assert_eq!(copy.as_inner()[0].clip_rect.max.x, 1.0);
    assert_eq!(content(&copy.as_inner()[0].shape), "x");
    assert_eq!(copy.as_inner()[1].clip_rect.max.x, 2.0);

    let mut inner = empty_layers();
    inner[3].push((5, list));
    inner[3].push((6, PaintList::default()));
    let layers = GraphicLayers::from_inner(inner);
    let copy = layers.clone();
    assert_eq!(copy.as_inner()[3].len(), 2);
    assert_eq!(copy.as_inner()[3][0].0, 5);
    assert_eq!(copy.as_inner()[3][0].1.as_inner().len(), 2);
    assert_eq!(copy.as_inner()[3][1].0, 6);
    assert!(copy.as_inner()[0].is_empty());
    assert_eq!(layers.as_inner()[3][0].1.as_inner().len(), 2);
}
