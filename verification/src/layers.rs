//! Paint lists and graphic layers: the shapes that the areas of a viewport
//! have painted in one frame.
//!
//! The shapes are the UI library's own and opaque here. What the
//! synchronisation does with them is to have their texts laid out again
//! after a snapshot has arrived, because the layout of a text is derived
//! data and does not travel. For that a shape is a tree here whose text
//! leaves can be told from the rest, and a text is its layout beside
//! everything else that it holds.
//!
//! To lay a text out is the font library's work, and it is done by the
//! function that the caller hands in: the walk over the shapes decides which
//! layouts are replaced, and states of each new layout that it is what that
//! function made of the old one.

use crate::arc_cache::arc_clone;
use egui::epaint::{Galley, Shape, TextShape};
use egui::Rect;
use std::sync::Arc;
use vstd::prelude::*;

verus! {

/// A rectangle of the UI library. It is carried along unread.
#[verifier::external_type_specification]
#[verifier::external_body]
pub struct ExRect(egui::Rect);

/// A shape of the UI library. It is carried along unread.
#[verifier::external_type_specification]
#[verifier::external_body]
pub struct ExShape(egui::epaint::Shape);

/// A text shape of the UI library. It is carried along unread.
#[verifier::external_type_specification]
#[verifier::external_body]
pub struct ExTextShape(egui::epaint::TextShape);

/// The layout of a text, with the job that it was laid out from. Only the
/// font library looks into it.
#[verifier::external_type_specification]
#[verifier::external_body]
pub struct ExGalley(egui::epaint::Galley);

/// The derived `Clone` of `egui::Rect`: a copy of the rectangle.
pub assume_specification[ <egui::Rect as std::clone::Clone>::clone ](rect: &egui::Rect) -> (copy:
    egui::Rect)
    ensures
        copy == *rect,
;

/// The derived `Clone` of `egui::epaint::Shape`: a copy of the shape.
pub assume_specification[ <egui::epaint::Shape as std::clone::Clone>::clone ](
    shape: &egui::epaint::Shape,
) -> (copy: egui::epaint::Shape)
    ensures
        copy == *shape,
;

/// The derived `Clone` of `egui::epaint::TextShape`: a copy of the text
/// shape.
pub assume_specification[ <egui::epaint::TextShape as std::clone::Clone>::clone ](
    shape: &egui::epaint::TextShape,
) -> (copy: egui::epaint::TextShape)
    ensures
        copy == *shape,
;

/// The number of layer orders: background, panel resize, middle, foreground,
/// tooltip, debug.
pub const LAYER_ORDERS: usize = 6;

/// A text: its layout, and beside it everything else that the text shape
/// holds (position, colours, angle). The layout that the text shape carries
/// within is not looked at; `galley` is the layout that counts.
pub struct Text {
    /// The layout of the text.
    pub galley: Arc<Galley>,
    /// Everything else.
    pub shape: TextShape,
}

impl Clone for Text {
    /// The same text: it shares the layout and has a copy of the rest.
    fn clone(&self) -> (copy: Self)
        ensures
            copy == *self,
    {
        Text { galley: arc_clone(&self.galley), shape: self.shape.clone() }
    }
}

/// A shape, as far as the synchronisation looks into it: far enough to find
/// its texts.
pub enum ShapeTree {
    /// Several shapes that are painted as one.
    Vec(Vec<ShapeTree>),
    /// A text, with its layout.
    Text(Text),
    /// Any other shape.
    Other(Shape),
}

impl ShapeTree {
    /// Whether `self` is a copy of `other`: the same tree with the same
    /// texts and shapes.
    pub open spec fn same_as(self, other: ShapeTree) -> bool
        decreases self,
    {
        match self {
            ShapeTree::Vec(children) => other matches ShapeTree::Vec(others) && children.len()
                == others.len() && forall|i: int|
                0 <= i < children.len() ==> (#[trigger] children[i]).same_as(others[i]),
            ShapeTree::Text(text) => other == ShapeTree::Text(text),
            ShapeTree::Other(shape) => other == ShapeTree::Other(shape),
        }
    }

    /// A copy of the tree.
    pub fn duplicate(&self) -> (copy: Self)
        ensures
            copy.same_as(*self),
        decreases *self,
    {
        match self {
            ShapeTree::Vec(children) => {
                let mut copies: Vec<ShapeTree> = Vec::new();
                let mut i: usize = 0;
                while i < children.len()
                    invariant
                        i <= children.len(),
                        copies.len() == i,
                        forall|k: int| 0 <= k < i ==> (#[trigger] copies@[k]).same_as(children@[k]),
                        forall|k: int|
                            0 <= k < children.len() ==> decreases_to!(*self => children@[k]),
                    decreases children.len() - i,
                {
                    copies.push(children[i].duplicate());
                    i += 1;
                }
                ShapeTree::Vec(copies)
            },
            ShapeTree::Text(text) => ShapeTree::Text(text.clone()),
            ShapeTree::Other(shape) => ShapeTree::Other(shape.clone()),
        }
    }

    /// Whether `self` is `before` with every text laid out again by
    /// `layout`: the same tree, in which every text keeps all but its layout
    /// and has the layout that `layout` made of the old one, and every
    /// other shape is untouched.
    pub open spec fn laid_out_from<F: Fn(Arc<Galley>) -> Arc<Galley>>(
        self,
        before: ShapeTree,
        layout: F,
    ) -> bool
        decreases self,
    {
        match self {
            ShapeTree::Vec(children) => before matches ShapeTree::Vec(others) && children.len()
                == others.len() && forall|i: int|
                0 <= i < children.len() ==> (#[trigger] children[i]).laid_out_from(
                    others[i],
                    layout,
                ),
            ShapeTree::Text(text) => before matches ShapeTree::Text(old) && text.shape == old.shape
                && layout.ensures((old.galley,), text.galley),
            ShapeTree::Other(shape) => before == ShapeTree::Other(shape),
        }
    }
}

impl Clone for ShapeTree {
    /// A copy of the tree.
    fn clone(&self) -> (copy: Self)
        ensures
            copy.same_as(*self),
    {
        self.duplicate()
    }
}

/// A shape within the rectangle that clips it.
pub struct ClippedShape {
    /// Only the part of the shape that falls within this is shown.
    pub clip_rect: Rect,
    /// The shape.
    pub shape: ShapeTree,
}

impl Clone for ClippedShape {
    /// A copy of the shape within a copy of its clip rectangle.
    fn clone(&self) -> (copy: Self)
        ensures
            copy.same_as(*self),
    {
        ClippedShape { clip_rect: self.clip_rect.clone(), shape: self.shape.duplicate() }
    }
}

impl ClippedShape {
    /// Whether `self` is a copy of `other`.
    pub open spec fn same_as(self, other: ClippedShape) -> bool {
        self.clip_rect == other.clip_rect && self.shape.same_as(other.shape)
    }

    /// Whether `self` is `before` with every text laid out again by
    /// `layout`, within the same clip rectangle.
    pub open spec fn laid_out_from<F: Fn(Arc<Galley>) -> Arc<Galley>>(
        self,
        before: ClippedShape,
        layout: F,
    ) -> bool {
        self.clip_rect == before.clip_rect && self.shape.laid_out_from(before.shape, layout)
    }
}

/// Whether `list` is `before` with every text laid out again by `layout`,
/// shape for shape.
pub open spec fn list_laid_out_from<F: Fn(Arc<Galley>) -> Arc<Galley>>(
    list: Seq<ClippedShape>,
    before: Seq<ClippedShape>,
    layout: F,
) -> bool {
    list.len() == before.len() && forall|i: int|
        0 <= i < list.len() ==> (#[trigger] list[i]).laid_out_from(before[i], layout)
}

/// Whether `list` is a copy of `other`, shape for shape.
pub open spec fn list_same_as(list: Seq<ClippedShape>, other: Seq<ClippedShape>) -> bool {
    list.len() == other.len() && forall|i: int|
        0 <= i < list.len() ==> (#[trigger] list[i]).same_as(other[i])
}

/// The shapes of one area, in the order in which they were painted.
pub struct PaintList(Vec<ClippedShape>);

impl Clone for PaintList {
    /// A list with a copy of every shape.
    fn clone(&self) -> (copy: Self)
        ensures
            list_same_as(copy@, self@),
    {
        let mut shapes: Vec<ClippedShape> = Vec::new();
        let mut i: usize = 0;
        while i < self.0.len()
            invariant
                i <= self.0.len(),
                shapes.len() == i,
                forall|k: int| 0 <= k < i ==> (#[trigger] shapes@[k]).same_as(self.0@[k]),
            decreases self.0.len() - i,
        {
            shapes.push(self.0[i].clone());
            i += 1;
        }
        PaintList(shapes)
    }
}

impl View for PaintList {
    type V = Seq<ClippedShape>;

    closed spec fn view(&self) -> Seq<ClippedShape> {
        self.0@
    }
}

impl Default for PaintList {
    /// A list without shapes.
    fn default() -> (list: Self)
        ensures
            list@.len() == 0,
    {
        PaintList(Vec::new())
    }
}

impl PaintList {
    /// The shapes of the list.
    pub fn as_inner(&self) -> (list: &Vec<ClippedShape>)
        ensures
            list@ == self@,
    {
        &self.0
    }

    /// The shapes of the list, to change them: what the caller leaves in the
    /// vector is what the list holds afterwards.
    pub fn as_inner_mut(&mut self) -> (list: &mut Vec<ClippedShape>)
        ensures
            list@ == old(self)@,
            final(self)@ == final(list)@,
    {
        &mut self.0
    }

    /// The list that holds the shapes of `list`.
    pub fn from_inner(list: Vec<ClippedShape>) -> (paint_list: Self)
        ensures
            paint_list@ == list@,
    {
        Self(list)
    }

    /// Has every text of every shape of the list laid out again by `layout`.
    /// The shapes keep their clip rectangles and their form, every text keeps
    /// all but its layout, and every shape that is no text stays as it is.
    pub fn reinitialize_galleys<F: Fn(Arc<Galley>) -> Arc<Galley>>(&mut self, layout: &F)
        requires
            forall|galley: Arc<Galley>| #[trigger] layout.requires((galley,)),
        ensures
            list_laid_out_from(final(self)@, old(self)@, *layout),
    {
        let ghost before = self@;
        let mut taken: Vec<ClippedShape> = Vec::new();
        std::mem::swap(&mut self.0, &mut taken);
        let mut rest = reversed(taken);
        let mut laid_out: Vec<ClippedShape> = Vec::new();
        while rest.len() > 0
            invariant
                rest@ == before.reverse().take(rest.len() as int),
                laid_out.len() + rest.len() == before.len(),
                forall|galley: Arc<Galley>| #[trigger] layout.requires((galley,)),
                forall|i: int|
                    0 <= i < laid_out.len() ==> (#[trigger] laid_out@[i]).laid_out_from(
                        before[i],
                        *layout,
                    ),
            decreases rest.len(),
        {
            match rest.pop() {
                Some(clipped) => {
                    let ClippedShape { clip_rect, shape } = clipped;
                    let shape = reinitialize_galleys_for_shape(shape, layout);
                    laid_out.push(ClippedShape { clip_rect, shape });
                },
                None => {},
            }
        }
        self.0 = laid_out;
    }
}

/// The paint lists of a viewport: for each layer order the lists of its
/// areas, each with the id of its area.
pub type GraphicLayersInner = [Vec<(u64, PaintList)>; 6];

/// The paint lists of one layer order as mathematical values.
pub open spec fn order_view(lists: Seq<(u64, PaintList)>) -> Seq<(u64, Seq<ClippedShape>)> {
    lists.map_values(|entry: (u64, PaintList)| (entry.0, entry.1@))
}

/// The paint lists of every layer order as mathematical values.
pub open spec fn layers_view(layers: GraphicLayersInner) -> Seq<Seq<(u64, Seq<ClippedShape>)>> {
    layers@.map_values(|lists: Vec<(u64, PaintList)>| order_view(lists@))
}

/// Whether the paint lists of one layer order are those of `before` with
/// every text laid out again by `layout`: list for list, each with its area.
pub open spec fn order_laid_out_from<F: Fn(Arc<Galley>) -> Arc<Galley>>(
    lists: Seq<(u64, Seq<ClippedShape>)>,
    before: Seq<(u64, Seq<ClippedShape>)>,
    layout: F,
) -> bool {
    lists.len() == before.len() && forall|index: int|
        0 <= index < lists.len() ==> (#[trigger] lists[index]).0 == before[index].0
            && list_laid_out_from(lists[index].1, before[index].1, layout)
}

/// Whether the paint lists of one layer order are copies of those of
/// `other`: list for list, each with its area.
pub open spec fn order_same_as(
    lists: Seq<(u64, Seq<ClippedShape>)>,
    other: Seq<(u64, Seq<ClippedShape>)>,
) -> bool {
    lists.len() == other.len() && forall|index: int|
        0 <= index < lists.len() ==> (#[trigger] lists[index]).0 == other[index].0
            && list_same_as(lists[index].1, other[index].1)
}

/// A copy of the paint lists of one layer order.
fn duplicate_order(lists: &Vec<(u64, PaintList)>) -> (copies: Vec<(u64, PaintList)>)
    ensures
        order_same_as(order_view(copies@), order_view(lists@)),
{
    let mut copies: Vec<(u64, PaintList)> = Vec::new();
    let mut i: usize = 0;
    while i < lists.len()
        invariant
            i <= lists.len(),
            copies.len() == i,
            forall|k: int|
                0 <= k < i ==> (#[trigger] copies@[k]).0 == lists@[k].0 && list_same_as(
                    copies@[k].1@,
                    lists@[k].1@,
                ),
        decreases lists.len() - i,
    {
        copies.push((lists[i].0, lists[i].1.clone()));
        i += 1;
    }
    assert forall|index: int| 0 <= index < copies@.len() implies (#[trigger] order_view(
        copies@,
    )[index]).0 == order_view(lists@)[index].0 && list_same_as(
        order_view(copies@)[index].1,
        order_view(lists@)[index].1,
    ) by {
        assert(copies@[index].0 == lists@[index].0);
    }
    copies
}

/// Whether every area has one paint list at most in each layer order.
pub open spec fn distinct_areas(layers: Seq<Seq<(u64, Seq<ClippedShape>)>>) -> bool {
    forall|order: int, i: int, j: int|
        0 <= order < layers.len() && 0 <= i < j < layers[order].len() ==> (
        #[trigger] layers[order][i]).0 != (#[trigger] layers[order][j]).0
}

/// Where the lists of every order have kept their areas, every area still
/// has one list at most.
pub proof fn lemma_areas_stay_distinct<F: Fn(Arc<Galley>) -> Arc<Galley>>(
    layers: Seq<Seq<(u64, Seq<ClippedShape>)>>,
    before: Seq<Seq<(u64, Seq<ClippedShape>)>>,
    layout: F,
)
    requires
        distinct_areas(before),
        layers.len() == before.len(),
        forall|order: int|
            0 <= order < before.len() ==> order_laid_out_from(
                #[trigger] layers[order],
                before[order],
                layout,
            ),
    ensures
        distinct_areas(layers),
{
    assert forall|order: int, i: int, j: int|
        0 <= order < layers.len() && 0 <= i < j < layers[order].len() implies (
    #[trigger] layers[order][i]).0 != (#[trigger] layers[order][j]).0 by {
        assert(order_laid_out_from(layers[order], before[order], layout));
        assert(layers[order][i].0 == before[order][i].0);
        assert(layers[order][j].0 == before[order][j].0);
    }
}

/// The paint lists of a viewport. In each layer order an area has one paint
/// list at most: that is the invariant `wf`, which the lists are made with
/// and which laying out keeps. Whoever changes the lists through
/// `as_inner_mut` answers for it.
pub struct GraphicLayers(GraphicLayersInner);

impl View for GraphicLayers {
    type V = Seq<Seq<(u64, Seq<ClippedShape>)>>;

    closed spec fn view(&self) -> Seq<Seq<(u64, Seq<ClippedShape>)>> {
        layers_view(self.0)
    }
}

impl Clone for GraphicLayers {
    /// Layers with a copy of every paint list, each with its area.
    fn clone(&self) -> (copy: Self)
        ensures
            copy@.len() == self@.len(),
            forall|order: int|
                0 <= order < self@.len() ==> order_same_as(#[trigger] copy@[order], self@[order]),
    {
        let copy = GraphicLayers(
            [
                duplicate_order(&self.0[0]),
                duplicate_order(&self.0[1]),
                duplicate_order(&self.0[2]),
                duplicate_order(&self.0[3]),
                duplicate_order(&self.0[4]),
                duplicate_order(&self.0[5]),
            ],
        );
        assert(copy@.len() == self@.len());
        assert forall|order: int| 0 <= order < self@.len() implies order_same_as(
            #[trigger] copy@[order],
            self@[order],
        ) by {
            assert(copy@[order] == order_view(copy.0@[order]@));
            assert(self@[order] == order_view(self.0@[order]@));
        }
        copy
    }
}

impl Default for GraphicLayers {
    /// Layers without paint lists.
    fn default() -> (layers: Self)
        ensures
            layers.wf(),
            layers@.len() == LAYER_ORDERS,
            forall|order: int|
                0 <= order < LAYER_ORDERS ==> (#[trigger] layers@[order]).len() == 0,
    {
        let layers = GraphicLayers(
            [Vec::new(), Vec::new(), Vec::new(), Vec::new(), Vec::new(), Vec::new()],
        );
        assert(layers@.len() == LAYER_ORDERS);
        assert forall|order: int| 0 <= order < LAYER_ORDERS implies (
        #[trigger] layers@[order]).len() == 0 by {
            assert(layers.0@[order]@.len() == 0);
        }
        layers
    }
}

impl GraphicLayers {
    /// Whether every area has one paint list at most in each layer order.
    pub open spec fn wf(&self) -> bool {
        distinct_areas(self@)
    }

    /// The paint lists, by layer order.
    pub fn as_inner(&self) -> (layers: &GraphicLayersInner)
        ensures
            layers_view(*layers) == self@,
    {
        &self.0
    }

    /// The paint lists, to change them: what the caller leaves in the array
    /// is what the layers hold afterwards.
    pub fn as_inner_mut(&mut self) -> (layers: &mut GraphicLayersInner)
        ensures
            layers_view(*layers) == old(self)@,
            final(self)@ == layers_view(*final(layers)),
    {
        &mut self.0
    }

    /// The layers that hold the paint lists of `maps`.
    pub fn from_inner(maps: GraphicLayersInner) -> (layers: Self)
        ensures
            layers@ == layers_view(maps),
    {
        Self(maps)
    }

    /// Whether every area has one paint list at most in each layer order.
    pub fn has_distinct_areas(&self) -> (distinct: bool)
        ensures
            distinct == self.wf(),
    {
        let mut order: usize = 0;
        while order < LAYER_ORDERS
            invariant
                order <= LAYER_ORDERS,
                self@.len() == LAYER_ORDERS,
                forall|o: int, i: int, j: int|
                    0 <= o < order && 0 <= i < j < self@[o].len() ==> (#[trigger] self@[o][i]).0
                        != (#[trigger] self@[o][j]).0,
            decreases LAYER_ORDERS - order,
        {
            let lists = &self.0[order];
            assert(self@[order as int] == order_view(lists@));
            let mut j: usize = 0;
            while j < lists.len()
                invariant
                    order < LAYER_ORDERS,
                    j <= lists.len(),
                    self@[order as int] == order_view(lists@),
                    forall|a: int, b: int|
                        0 <= a < b < j ==> (#[trigger] lists@[a]).0 != (#[trigger] lists@[b]).0,
                decreases lists.len() - j,
            {
                let mut i: usize = 0;
                while i < j
                    invariant
                        order < LAYER_ORDERS,
                        i <= j < lists.len(),
                        self@[order as int] == order_view(lists@),
                        forall|a: int|
                            0 <= a < i ==> (#[trigger] lists@[a]).0 != lists@[j as int].0,
                    decreases j - i,
                {
                    if lists[i].0 == lists[j].0 {
                        assert(self@[order as int][i as int].0 == self@[order as int][j as int].0);
                        return false;
                    }
                    i += 1;
                }
                j += 1;
            }
            assert forall|i: int, j: int| 0 <= i < j < self@[order as int].len() implies (
            #[trigger] self@[order as int][i]).0 != (#[trigger] self@[order as int][j]).0 by {
                assert(lists@[i].0 != lists@[j].0);
            }
            order += 1;
        }
        true
    }

    /// Has every text of every paint list laid out again by `layout`. Every
    /// list stays with its area, its shapes keep their clip rectangles and
    /// their form, and every text keeps all but its layout.
    pub fn reinitialize_galleys<F: Fn(Arc<Galley>) -> Arc<Galley>>(&mut self, layout: &F)
        requires
            forall|galley: Arc<Galley>| #[trigger] layout.requires((galley,)),
        ensures
            final(self)@.len() == old(self)@.len(),
            forall|order: int|
                0 <= order < old(self)@.len() ==> order_laid_out_from(
                    #[trigger] final(self)@[order],
                    old(self)@[order],
                    *layout,
                ),
            old(self).wf() ==> final(self).wf(),
    {
        let ghost before = self@;
        let mut order: usize = 0;
        while order < LAYER_ORDERS
            invariant
                order <= LAYER_ORDERS,
                self@.len() == before.len() == LAYER_ORDERS,
                forall|galley: Arc<Galley>| #[trigger] layout.requires((galley,)),
                forall|done: int|
                    0 <= done < order ==> order_laid_out_from(
                        #[trigger] self@[done],
                        before[done],
                        *layout,
                    ),
                forall|open: int|
                    order <= open < LAYER_ORDERS ==> #[trigger] self@[open] == before[open],
            decreases LAYER_ORDERS - order,
        {
            let mut index: usize = 0;
            while index < self.0[order].len()
                invariant
                    order < LAYER_ORDERS,
                    self@.len() == before.len() == LAYER_ORDERS,
                    index <= self.0@[order as int]@.len(),
                    self@[order as int].len() == before[order as int].len(),
                    forall|galley: Arc<Galley>| #[trigger] layout.requires((galley,)),
                    forall|done: int|
                        0 <= done < order ==> order_laid_out_from(
                            #[trigger] self@[done],
                            before[done],
                            *layout,
                        ),
                    forall|open: int|
                        order < open < LAYER_ORDERS ==> #[trigger] self@[open] == before[open],
                    forall|done: int|
                        0 <= done < index ==> (#[trigger] self@[order as int][done]).0
                            == before[order as int][done].0 && list_laid_out_from(
                            self@[order as int][done].1,
                            before[order as int][done].1,
                            *layout,
                        ),
                    forall|open: int|
                        index <= open < self@[order as int].len()
                            ==> #[trigger] self@[order as int][open] == before[order as int][open],
                decreases self.0@[order as int]@.len() - index,
            {
                let ghost prior = self.0;
                assert(self@ == layers_view(prior));
                self.0[order][index].1.reinitialize_galleys(layout);
                proof {
                    let o = order as int;
                    let k = index as int;
                    assert(self.0@.len() == prior@.len());
                    assert(forall|other: int|
                        0 <= other < LAYER_ORDERS && other != o ==> self.0@[other]
                            == prior@[other]);
                    assert(self.0@[o]@.len() == prior@[o]@.len());
                    assert(forall|other: int|
                        0 <= other < prior@[o]@.len() && other != k ==> self.0@[o]@[other]
                            == prior@[o]@[other]);
                    assert(self.0@[o]@[k].0 == prior@[o]@[k].0);
                    assert(list_laid_out_from(self.0@[o]@[k].1@, prior@[o]@[k].1@, *layout));
                    let earlier = layers_view(prior);
                    assert forall|other: int|
                        0 <= other < LAYER_ORDERS && other != o implies #[trigger] self@[other]
                        == earlier[other] by {
                        assert(self.0@[other] == prior@[other]);
                    }
                    assert(self@[o].len() == earlier[o].len());
                    assert forall|other: int|
                        0 <= other < earlier[o].len() && other != k implies
                        #[trigger] self@[o][other] == earlier[o][other] by {
                        assert(self.0@[o]@[other] == prior@[o]@[other]);
                    }
                    assert(self@[o][k].0 == earlier[o][k].0);
                    assert(self@[o][k].1 == self.0@[o]@[k].1@);
                    assert(earlier[o][k].1 == prior@[o]@[k].1@);
                }
                index += 1;
            }
            order += 1;
        }
        proof {
            if old(self).wf() {
                lemma_areas_stay_distinct(self@, before, *layout);
            }
        }
    }
}

/// The same items in the opposite order.
fn reversed<T>(list: Vec<T>) -> (turned: Vec<T>)
    ensures
        turned@ == list@.reverse(),
{
    let ghost all = list@;
    let mut rest = list;
    let mut turned: Vec<T> = Vec::new();
    while rest.len() > 0
        invariant
            rest@ == all.take(rest.len() as int),
            turned.len() + rest.len() == all.len(),
            forall|i: int| 0 <= i < turned.len() ==> turned@[i] == all[all.len() - 1 - i],
        decreases rest.len(),
    {
        match rest.pop() {
            Some(item) => {
                turned.push(item);
            },
            None => {},
        }
    }
    assert(turned@ =~= all.reverse());
    turned
}

/// Has every text of the tree laid out again by `layout`, which is handed
/// the old layout of a text and hands back the new one. The tree keeps its
/// form, every text keeps all but its layout, and every shape that is no
/// text stays as it is.
pub fn reinitialize_galleys_for_shape<F: Fn(Arc<Galley>) -> Arc<Galley>>(
    tree: ShapeTree,
    layout: &F,
) -> (laid_out: ShapeTree)
    requires
        forall|galley: Arc<Galley>| #[trigger] layout.requires((galley,)),
    ensures
        laid_out.laid_out_from(tree, *layout),
    decreases tree,
{
    match tree {
        ShapeTree::Vec(children) => {
            let ghost before = children@;
            let mut laid_out: Vec<ShapeTree> = Vec::new();
            let mut rest = reversed(children);
            let ghost reversed = rest@;
            while rest.len() > 0
                invariant
                    reversed == before.reverse(),
                    rest@ == reversed.take(rest.len() as int),
                    laid_out.len() + rest.len() == before.len(),
                    forall|galley: Arc<Galley>| #[trigger] layout.requires((galley,)),
                    forall|i: int|
                        0 <= i < laid_out.len() ==> (#[trigger] laid_out@[i]).laid_out_from(
                            before[i],
                            *layout,
                        ),
                    forall|i: int| 0 <= i < before.len() ==> decreases_to!(tree => before[i]),
                decreases rest.len(),
            {
                let ghost position = laid_out.len() as int;
                match rest.pop() {
                    Some(child) => {
                        assert(child == before[position]);
                        let done = reinitialize_galleys_for_shape(child, layout);
                        laid_out.push(done);
                    },
                    None => {},
                }
            }
            ShapeTree::Vec(laid_out)
        },
        ShapeTree::Text(text) => {
            let Text { galley, shape } = text;
            ShapeTree::Text(Text { galley: layout(galley), shape })
        },
        ShapeTree::Other(shape) => ShapeTree::Other(shape),
    }
}

} // verus!
