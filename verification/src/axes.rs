//! The logical axes of a file: positions (P), time points (T), channels
//! (C) and focal planes (Z) index the frames; rows (Y) and columns (X)
//! index the pixels of a frame.

use crate::error::{Fault, Nd2Error};
use crate::ravel::{
    in_shape, lemma_ravel_unravel, lemma_unravel_in_shape, lemma_unravel_ravel, product, ravel,
    ravel_index, unravel, unravel_index,
};
use crate::types::attributes::Attributes;
use crate::types::experiment::{loops_view, ExpLoop, LoopModel};
use vstd::prelude::*;

verus! {

/// An axis that indexes frames.
#[derive(Debug, Clone, Copy, PartialEq, Eq, Structural)]
pub enum Axis {
    P,
    T,
    C,
    Z,
}

/// The size of every axis.
#[derive(Debug, Clone, Copy, PartialEq, Eq, Structural)]
pub struct Sizes {
    pub p: usize,
    pub t: usize,
    pub c: usize,
    pub z: usize,
    pub y: usize,
    pub x: usize,
}

/// The coordinates of a frame.
#[derive(Debug, Clone, Copy, PartialEq, Eq, Structural)]
pub struct FrameIndex {
    pub p: usize,
    pub t: usize,
    pub c: usize,
    pub z: usize,
}

/// Whether a string slice holds exactly the given text.
fn key_is(key: &str, text: &str) -> (same: bool)
    ensures
        same == (key@ == text@),
{
    let a: String = key.to_owned();
    let b: String = text.to_owned();
    a == b
}

impl Sizes {
    /// The size of a frame axis.
    pub open spec fn of(self, axis: Axis) -> usize {
        match axis {
            Axis::P => self.p,
            Axis::T => self.t,
            Axis::C => self.c,
            Axis::Z => self.z,
        }
    }

    /// The size of a frame axis.
    pub fn size_of(&self, axis: Axis) -> (size: usize)
        ensures
            size == self.of(axis),
    {
        match axis {
            Axis::P => self.p,
            Axis::T => self.t,
            Axis::C => self.c,
            Axis::Z => self.z,
        }
    }

    /// The number of frames: P times T times C times Z.
    pub open spec fn frame_count(self) -> nat {
        (self.p * self.t * self.c * self.z) as nat
    }

    /// The size that bears the name `key`.
    pub open spec fn named(self, key: Seq<char>) -> Option<usize> {
        if key == "P"@ {
            Some(self.p)
        } else if key == "T"@ {
            Some(self.t)
        } else if key == "C"@ {
            Some(self.c)
        } else if key == "Z"@ {
            Some(self.z)
        } else if key == "Y"@ {
            Some(self.y)
        } else if key == "X"@ {
            Some(self.x)
        } else {
            None
        }
    }

    /// The size of the axis named `key`, one of `P`, `T`, `C`, `Z`, `Y`
    /// and `X`: every one of them has a size.
    pub fn get(&self, key: &str) -> (size: Option<usize>)
        ensures
            size == self.named(key@),
            key@ == "P"@ || key@ == "T"@ || key@ == "C"@ || key@ == "Z"@ || key@ == "Y"@ || key@
                == "X"@ ==> size is Some,
    {
        if key_is(key, "P") {
            Some(self.p)
        } else if key_is(key, "T") {
            Some(self.t)
        } else if key_is(key, "C") {
            Some(self.c)
        } else if key_is(key, "Z") {
            Some(self.z)
        } else if key_is(key, "Y") {
            Some(self.y)
        } else if key_is(key, "X") {
            Some(self.x)
        } else {
            None
        }
    }

    /// Whether `key` names an axis.
    pub fn contains_key(&self, key: &str) -> (known: bool)
        ensures
            known == self.named(key@).is_some(),
    {
        self.get(key).is_some()
    }
}

impl FrameIndex {
    /// The coordinate on an axis.
    pub open spec fn of(self, axis: Axis) -> usize {
        match axis {
            Axis::P => self.p,
            Axis::T => self.t,
            Axis::C => self.c,
            Axis::Z => self.z,
        }
    }

    /// The coordinate on an axis.
    pub fn coordinate(&self, axis: Axis) -> (value: usize)
        ensures
            value == self.of(axis),
    {
        match axis {
            Axis::P => self.p,
            Axis::T => self.t,
            Axis::C => self.c,
            Axis::Z => self.z,
        }
    }

    /// The coordinate that bears the name `key`.
    pub open spec fn named(self, key: Seq<char>) -> Option<usize> {
        if key == "P"@ {
            Some(self.p)
        } else if key == "T"@ {
            Some(self.t)
        } else if key == "C"@ {
            Some(self.c)
        } else if key == "Z"@ {
            Some(self.z)
        } else {
            None
        }
    }

    /// The coordinate on the axis named `key`, one of `P`, `T`, `C` and
    /// `Z`.
    pub fn get(&self, key: &str) -> (value: Option<usize>)
        ensures
            value == self.named(key@),
    {
        if key_is(key, "P") {
            Some(self.p)
        } else if key_is(key, "T") {
            Some(self.t)
        } else if key_is(key, "C") {
            Some(self.c)
        } else if key_is(key, "Z") {
            Some(self.z)
        } else {
            None
        }
    }
}

/// The axis that a loop runs along: T for both kinds of time loop, P for
/// a position loop, Z for a Z stack, and none for a custom loop.
pub open spec fn axis_of(l: LoopModel) -> Option<Axis> {
    match l {
        LoopModel::Time(_) => Some(Axis::T),
        LoopModel::NETime { .. } => Some(Axis::T),
        LoopModel::XYPos { .. } => Some(Axis::P),
        LoopModel::ZStack { .. } => Some(Axis::Z),
        LoopModel::Custom(_) => None,
    }
}

/// The count of the first loop that runs along `axis`.
pub open spec fn first_count(loops: Seq<LoopModel>, axis: Axis) -> Option<u32>
    decreases loops.len(),
{
    if loops.len() == 0 {
        None
    } else if axis_of(loops[0]) == Some(axis) {
        Some(loops[0].count())
    } else {
        first_count(loops.skip(1), axis)
    }
}

/// `order` with `axis` added at its end, unless it holds it already.
pub open spec fn with_axis(order: Seq<Axis>, axis: Axis) -> Seq<Axis> {
    if order.contains(axis) {
        order
    } else {
        order.push(axis)
    }
}

/// The axes of the first `n` loops, each once, in the order in which the
/// loops first run along them.
pub open spec fn loop_axes(loops: Seq<LoopModel>, n: nat) -> Seq<Axis>
    decreases n,
{
    if n == 0 {
        Seq::empty()
    } else {
        match axis_of(loops[n - 1]) {
            Some(axis) => with_axis(loop_axes(loops, (n - 1) as nat), axis),
            None => loop_axes(loops, (n - 1) as nat),
        }
    }
}

/// The order of the frame axes, outermost first: P, T, C, Z for an
/// experiment without loops; else the axes of the loops in their order,
/// then C, then those of P, T and Z that no loop runs along.
pub open spec fn axis_order_of(loops: Seq<LoopModel>) -> Seq<Axis> {
    if loops.len() == 0 {
        seq![Axis::P, Axis::T, Axis::C, Axis::Z]
    } else {
        with_axis(
            with_axis(with_axis(with_axis(loop_axes(loops, loops.len()), Axis::C), Axis::P), Axis::T),
            Axis::Z,
        )
    }
}

/// The number of channels: the channel count, or where the file has
/// none, the component count.
pub open spec fn channels_of(a: Attributes) -> u32 {
    match a.channel_count {
        Some(c) => c,
        None => a.component_count,
    }
}

/// The width of a frame in pixels: the stored width, or where the file
/// has none, the width in bytes divided by the bytes of a pixel, or zero
/// where neither can be had.
pub open spec fn width_of(a: Attributes) -> u32 {
    match a.width_px {
        Some(w) => w,
        None => match a.width_bytes {
            Some(bytes) => {
                let pixel = (a.bits_per_component_in_memory / 8) * a.component_count;
                if pixel > 0 {
                    (bytes as int / pixel) as u32
                } else {
                    0
                }
            },
            None => 0,
        },
    }
}

/// The count of the first loop along `axis`, or 1 where there is none.
pub open spec fn loop_size(loops: Seq<LoopModel>, axis: Axis) -> usize {
    match first_count(loops, axis) {
        Some(count) => count as usize,
        None => 1,
    }
}

/// The sizes of the axes.
///
/// With loops, P, T and Z are the counts of the first loop along each,
/// or 1. Without loops, P and Z are 1 and T is the sequence count
/// divided by the number of channels (by 1 where that is zero). C is the
/// number of channels, Y the height and X the width.
pub open spec fn sizes_of(a: Attributes, loops: Seq<LoopModel>) -> Sizes {
    let c = channels_of(a) as usize;
    if loops.len() == 0 {
        Sizes {
            p: 1,
            t: (a.sequence_count as int / (if c == 0 {
                1
            } else {
                c as int
            })) as usize,
            c,
            z: 1,
            y: a.height_px as usize,
            x: width_of(a) as usize,
        }
    } else {
        Sizes {
            p: loop_size(loops, Axis::P),
            t: loop_size(loops, Axis::T),
            c,
            z: loop_size(loops, Axis::Z),
            y: a.height_px as usize,
            x: width_of(a) as usize,
        }
    }
}

/// Whether `order` lists each of the four frame axes once.
pub open spec fn is_axis_order(order: Seq<Axis>) -> bool {
    &&& order.len() == 4
    &&& order[0] != order[1]
    &&& order[0] != order[2]
    &&& order[0] != order[3]
    &&& order[1] != order[2]
    &&& order[1] != order[3]
    &&& order[2] != order[3]
}

/// Where `axis` stands in an axis order.
pub open spec fn place_of(order: Seq<Axis>, axis: Axis) -> int {
    if order[0] == axis {
        0
    } else if order[1] == axis {
        1
    } else if order[2] == axis {
        2
    } else {
        3
    }
}

/// The sizes of the frame axes in the given order.
pub open spec fn shape_of(order: Seq<Axis>, sizes: Sizes) -> Seq<usize> {
    order.map_values(|a: Axis| sizes.of(a))
}

/// The coordinates of a frame in the given order.
pub open spec fn coords_in(order: Seq<Axis>, index: FrameIndex) -> Seq<nat> {
    order.map_values(|a: Axis| index.of(a) as nat)
}

/// The frame whose coordinates in the given order are `coords`.
pub open spec fn index_from(order: Seq<Axis>, coords: Seq<nat>) -> FrameIndex {
    FrameIndex {
        p: coords[place_of(order, Axis::P)] as usize,
        t: coords[place_of(order, Axis::T)] as usize,
        c: coords[place_of(order, Axis::C)] as usize,
        z: coords[place_of(order, Axis::Z)] as usize,
    }
}

/// The axes of a file: their sizes and the order in which they index the
/// frames.
#[derive(Debug, Clone, PartialEq, Eq)]
pub struct AxisLayout {
    pub sizes: Sizes,
    pub axis_order: Vec<Axis>,
    pub coord_shape: Vec<usize>,
}

/// In whatever order the four axes stand, their sizes multiply to P
/// times T times C times Z.
pub proof fn lemma_shape_product(order: Seq<Axis>, sizes: Sizes)
    requires
        is_axis_order(order),
    ensures
        product(shape_of(order, sizes)) == sizes.p * sizes.t * sizes.c * sizes.z,
{
    let shape = shape_of(order, sizes);
    let p = sizes.p as int;
    let t = sizes.t as int;
    let c = sizes.c as int;
    let z = sizes.z as int;
    assert(shape.drop_last().drop_last().drop_last().drop_last() =~= Seq::<usize>::empty());
    reveal_with_fuel(product, 5);
    assert(product(shape) == 1 * shape[0] * shape[1] * shape[2] * shape[3]);
    if order[0] == Axis::P && order[1] == Axis::T && order[2] == Axis::C {
        assert(1 * p * t * c * z == p * t * c * z) by (nonlinear_arith);
    }
    if order[0] == Axis::P && order[1] == Axis::T && order[2] == Axis::Z {
        assert(1 * p * t * z * c == p * t * c * z) by (nonlinear_arith);
    }
    if order[0] == Axis::P && order[1] == Axis::C && order[2] == Axis::T {
        assert(1 * p * c * t * z == p * t * c * z) by (nonlinear_arith);
    }
    if order[0] == Axis::P && order[1] == Axis::C && order[2] == Axis::Z {
        assert(1 * p * c * z * t == p * t * c * z) by (nonlinear_arith);
    }
    if order[0] == Axis::P && order[1] == Axis::Z && order[2] == Axis::T {
        assert(1 * p * z * t * c == p * t * c * z) by (nonlinear_arith);
    }
    if order[0] == Axis::P && order[1] == Axis::Z && order[2] == Axis::C {
        assert(1 * p * z * c * t == p * t * c * z) by (nonlinear_arith);
    }
    if order[0] == Axis::T && order[1] == Axis::P && order[2] == Axis::C {
        assert(1 * t * p * c * z == p * t * c * z) by (nonlinear_arith);
    }
    if order[0] == Axis::T && order[1] == Axis::P && order[2] == Axis::Z {
        assert(1 * t * p * z * c == p * t * c * z) by (nonlinear_arith);
    }
    if order[0] == Axis::T && order[1] == Axis::C && order[2] == Axis::P {
        assert(1 * t * c * p * z == p * t * c * z) by (nonlinear_arith);
    }
    if order[0] == Axis::T && order[1] == Axis::C && order[2] == Axis::Z {
        assert(1 * t * c * z * p == p * t * c * z) by (nonlinear_arith);
    }
    if order[0] == Axis::T && order[1] == Axis::Z && order[2] == Axis::P {
        assert(1 * t * z * p * c == p * t * c * z) by (nonlinear_arith);
    }
    if order[0] == Axis::T && order[1] == Axis::Z && order[2] == Axis::C {
        assert(1 * t * z * c * p == p * t * c * z) by (nonlinear_arith);
    }
    if order[0] == Axis::C && order[1] == Axis::P && order[2] == Axis::T {
        assert(1 * c * p * t * z == p * t * c * z) by (nonlinear_arith);
    }
    if order[0] == Axis::C && order[1] == Axis::P && order[2] == Axis::Z {
        assert(1 * c * p * z * t == p * t * c * z) by (nonlinear_arith);
    }
    if order[0] == Axis::C && order[1] == Axis::T && order[2] == Axis::P {
        assert(1 * c * t * p * z == p * t * c * z) by (nonlinear_arith);
    }
    if order[0] == Axis::C && order[1] == Axis::T && order[2] == Axis::Z {
        assert(1 * c * t * z * p == p * t * c * z) by (nonlinear_arith);
    }
    if order[0] == Axis::C && order[1] == Axis::Z && order[2] == Axis::P {
        assert(1 * c * z * p * t == p * t * c * z) by (nonlinear_arith);
    }
    if order[0] == Axis::C && order[1] == Axis::Z && order[2] == Axis::T {
        assert(1 * c * z * t * p == p * t * c * z) by (nonlinear_arith);
    }
    if order[0] == Axis::Z && order[1] == Axis::P && order[2] == Axis::T {
        assert(1 * z * p * t * c == p * t * c * z) by (nonlinear_arith);
    }
    if order[0] == Axis::Z && order[1] == Axis::P && order[2] == Axis::C {
        assert(1 * z * p * c * t == p * t * c * z) by (nonlinear_arith);
    }
    if order[0] == Axis::Z && order[1] == Axis::T && order[2] == Axis::P {
        assert(1 * z * t * p * c == p * t * c * z) by (nonlinear_arith);
    }
    if order[0] == Axis::Z && order[1] == Axis::T && order[2] == Axis::C {
        assert(1 * z * t * c * p == p * t * c * z) by (nonlinear_arith);
    }
    if order[0] == Axis::Z && order[1] == Axis::C && order[2] == Axis::P {
        assert(1 * z * c * p * t == p * t * c * z) by (nonlinear_arith);
    }
    if order[0] == Axis::Z && order[1] == Axis::C && order[2] == Axis::T {
        assert(1 * z * c * t * p == p * t * c * z) by (nonlinear_arith);
    }
}

impl AxisLayout {
    /// Whether the layout is sound: the order lists each frame axis
    /// once, the shape gives the sizes in that order, and the number of
    /// frames can be counted.
    pub open spec fn well_formed(&self) -> bool {
        &&& is_axis_order(self.axis_order@)
        &&& self.coord_shape@ == shape_of(self.axis_order@, self.sizes)
        &&& self.sizes.frame_count() <= usize::MAX
        &&& self.sizes.p * self.sizes.t * self.sizes.c * self.sizes.z >= 0
    }

    /// The coordinates of the frame with sequence index `seq`.
    pub open spec fn frame_at(&self, seq: nat) -> FrameIndex {
        index_from(self.axis_order@, unravel(self.coord_shape@, seq))
    }

    /// The sequence index of a frame.
    pub open spec fn sequence_of(&self, index: FrameIndex) -> nat {
        ravel(self.coord_shape@, coords_in(self.axis_order@, index))
    }

    /// Whether the coordinates name a frame: each lies below the size of
    /// its axis.
    pub open spec fn holds(&self, index: FrameIndex) -> bool {
        &&& index.p < self.sizes.p
        &&& index.t < self.sizes.t
        &&& index.c < self.sizes.c
        &&& index.z < self.sizes.z
    }

    /// The number of frames: P times T times C times Z.
    pub fn frame_count(&self) -> (count: usize)
        requires
            self.well_formed(),
        ensures
            count == self.sizes.frame_count(),
            count == product(self.coord_shape@),
    {
        proof {
            lemma_shape_product(self.axis_order@, self.sizes);
        }
        let ghost shape = self.coord_shape@;
        assert(shape.drop_last().drop_last().drop_last().drop_last() =~= Seq::<usize>::empty());
        proof {
            reveal_with_fuel(product, 5);
        }
        assert(product(shape) == 1 * shape[0] * shape[1] * shape[2] * shape[3]);
        let a = self.coord_shape[0];
        let b = self.coord_shape[1];
        let c = self.coord_shape[2];
        let d = self.coord_shape[3];
        if a == 0 || b == 0 || c == 0 || d == 0 {
            assert(1 * a * b * c * d == 0) by (nonlinear_arith)
                requires
                    a == 0 || b == 0 || c == 0 || d == 0,
            ;
            return 0;
        }
        assert(a * b <= 1 * a * b * c * d && a * b * c <= 1 * a * b * c * d && a * b * c * d == 1
            * a * b * c * d) by (nonlinear_arith)
            requires
                a >= 1,
                b >= 1,
                c >= 1,
                d >= 1,
        ;
        a * b * c * d
    }
}

/// Adding an axis keeps an order free of repetitions.
pub proof fn lemma_with_axis(order: Seq<Axis>, axis: Axis)
    requires
        order.no_duplicates(),
    ensures
        with_axis(order, axis).no_duplicates(),
        with_axis(order, axis).contains(axis),
        forall|a: Axis| order.contains(a) ==> with_axis(order, axis).contains(a),
        forall|a: Axis| with_axis(order, axis).contains(a) ==> a == axis || order.contains(a),
{
    let next = with_axis(order, axis);
    if !order.contains(axis) {
        assert(next[order.len() as int] == axis);
        assert forall|i: int, j: int| 0 <= i < next.len() && 0 <= j < next.len() && i != j implies next[i]
            != next[j] by {
            if i < order.len() {
                assert(order.contains(order[i]));
            }
            if j < order.len() {
                assert(order.contains(order[j]));
            }
        }
        assert forall|a: Axis| order.contains(a) implies next.contains(a) by {
            let i = choose|i: int| 0 <= i < order.len() && order[i] == a;
            assert(next[i] == a);
        }
        assert forall|a: Axis| next.contains(a) implies a == axis || order.contains(a) by {
            let i = choose|i: int| 0 <= i < next.len() && next[i] == a;
            if i < order.len() {
                assert(order[i] == a);
            }
        }
    }
}

/// The axes of the loops hold no axis twice, and never C.
pub proof fn lemma_loop_axes(loops: Seq<LoopModel>, n: nat)
    ensures
        loop_axes(loops, n).no_duplicates(),
        !loop_axes(loops, n).contains(Axis::C),
    decreases n,
{
    if n > 0 {
        lemma_loop_axes(loops, (n - 1) as nat);
        match axis_of(loops[n - 1]) {
            Some(axis) => {
                lemma_with_axis(loop_axes(loops, (n - 1) as nat), axis);
            },
            None => {},
        }
    }
}

/// An order without repetitions that holds all four axes lists each
/// once.
pub proof fn lemma_full_order(order: Seq<Axis>)
    requires
        order.no_duplicates(),
        order.contains(Axis::P),
        order.contains(Axis::T),
        order.contains(Axis::C),
        order.contains(Axis::Z),
    ensures
        is_axis_order(order),
{
    let ip = choose|i: int| 0 <= i < order.len() && order[i] == Axis::P;
    let it = choose|i: int| 0 <= i < order.len() && order[i] == Axis::T;
    let ic = choose|i: int| 0 <= i < order.len() && order[i] == Axis::C;
    let iz = choose|i: int| 0 <= i < order.len() && order[i] == Axis::Z;
    assert(order.len() >= 4);
    if order.len() > 4 {
        assert(order[0] != order[1] && order[0] != order[2] && order[0] != order[3] && order[0]
            != order[4]);
        assert(order[1] != order[2] && order[1] != order[3] && order[1] != order[4]);
        assert(order[2] != order[3] && order[2] != order[4]);
        assert(order[3] != order[4]);
        assert(false);
    }
}

/// The order of the frame axes lists each of them once, whatever the
/// loops.
pub proof fn lemma_axis_order(loops: Seq<LoopModel>)
    ensures
        is_axis_order(axis_order_of(loops)),
{
    if loops.len() > 0 {
        let a0 = loop_axes(loops, loops.len());
        lemma_loop_axes(loops, loops.len());
        let a1 = with_axis(a0, Axis::C);
        lemma_with_axis(a0, Axis::C);
        let a2 = with_axis(a1, Axis::P);
        lemma_with_axis(a1, Axis::P);
        let a3 = with_axis(a2, Axis::T);
        lemma_with_axis(a2, Axis::T);
        let a4 = with_axis(a3, Axis::Z);
        lemma_with_axis(a3, Axis::Z);
        lemma_full_order(a4);
    }
}

/// In an axis order every axis stands at its place.
pub proof fn lemma_place_of(order: Seq<Axis>, axis: Axis)
    requires
        is_axis_order(order),
    ensures
        0 <= place_of(order, axis) < 4,
        order[place_of(order, axis)] == axis,
{
}

/// Round trip: the frame at sequence index `seq` has sequence index
/// `seq`, for every `seq` below the number of frames.
pub proof fn lemma_sequence_round_trip(layout: AxisLayout, seq: nat)
    requires
        layout.well_formed(),
        seq < layout.sizes.frame_count(),
    ensures
        layout.holds(layout.frame_at(seq)),
        layout.sequence_of(layout.frame_at(seq)) == seq,
{
    let order = layout.axis_order@;
    let shape = layout.coord_shape@;
    lemma_shape_product(order, layout.sizes);
    lemma_unravel_in_shape(shape, seq);
    lemma_ravel_unravel(shape, seq);
    let coords = unravel(shape, seq);
    let index = layout.frame_at(seq);
    lemma_place_of(order, Axis::P);
    lemma_place_of(order, Axis::T);
    lemma_place_of(order, Axis::C);
    lemma_place_of(order, Axis::Z);
    assert forall|i: int| 0 <= i < 4 implies coords_in(order, index)[i] == coords[i] by {
        assert(coords[i] < shape[i]);
        assert(place_of(order, order[i]) == i);
    }
    assert(coords_in(order, index) =~= coords);
    assert(coords[place_of(order, Axis::P)] < shape[place_of(order, Axis::P)]);
    assert(coords[place_of(order, Axis::T)] < shape[place_of(order, Axis::T)]);
    assert(coords[place_of(order, Axis::C)] < shape[place_of(order, Axis::C)]);
    assert(coords[place_of(order, Axis::Z)] < shape[place_of(order, Axis::Z)]);
}

/// Round trip the other way: the frame at the sequence index of a frame
/// is that frame.
pub proof fn lemma_frame_round_trip(layout: AxisLayout, index: FrameIndex)
    requires
        layout.well_formed(),
        layout.holds(index),
    ensures
        layout.sequence_of(index) < layout.sizes.frame_count(),
        layout.frame_at(layout.sequence_of(index)) == index,
{
    let order = layout.axis_order@;
    let shape = layout.coord_shape@;
    let coords = coords_in(order, index);
    lemma_shape_product(order, layout.sizes);
    lemma_place_of(order, Axis::P);
    lemma_place_of(order, Axis::T);
    lemma_place_of(order, Axis::C);
    lemma_place_of(order, Axis::Z);
    assert(in_shape(shape, coords));
    crate::ravel::lemma_ravel_bound(shape, coords);
    lemma_unravel_ravel(shape, coords);
}

/// A file with at least one channel whose loops all run, and which
/// without loops holds at least one frame for each channel, has at least
/// one frame; and a picture with rows and columns has pixels.
pub proof fn lemma_sizes_positive(a: Attributes, loops: Seq<LoopModel>)
    requires
        channels_of(a) > 0,
        forall|k: int| 0 <= k < loops.len() ==> (#[trigger] loops[k]).count() > 0,
        loops.len() == 0 ==> a.sequence_count >= channels_of(a),
    ensures
        sizes_of(a, loops).frame_count() > 0,
        sizes_of(a, loops).p > 0,
        sizes_of(a, loops).t > 0,
        sizes_of(a, loops).c > 0,
        sizes_of(a, loops).z > 0,
        a.height_px > 0 && width_of(a) > 0 ==> sizes_of(a, loops).y * sizes_of(a, loops).x > 0,
{
    let s = sizes_of(a, loops);
    if loops.len() == 0 {
        let c = channels_of(a) as int;
        assert(a.sequence_count as int / c >= 1) by (nonlinear_arith)
            requires
                a.sequence_count as int >= c,
                c > 0,
        ;
        assert(a.sequence_count as int / c <= a.sequence_count as int) by (nonlinear_arith)
            requires
                a.sequence_count as int >= 0,
                c > 0,
        ;
    } else {
        lemma_first_count_positive(loops, Axis::P);
        lemma_first_count_positive(loops, Axis::T);
        lemma_first_count_positive(loops, Axis::Z);
    }
    assert(s.p * s.t * s.c * s.z > 0) by (nonlinear_arith)
        requires
            s.p > 0,
            s.t > 0,
            s.c > 0,
            s.z > 0,
    ;
    if a.height_px > 0 && width_of(a) > 0 {
        assert(s.y * s.x > 0) by (nonlinear_arith)
            requires
                s.y > 0,
                s.x > 0,
        ;
    }
}

/// Where all loops run, the count of the first loop along an axis is
/// not zero.
pub proof fn lemma_first_count_positive(loops: Seq<LoopModel>, axis: Axis)
    requires
        forall|k: int| 0 <= k < loops.len() ==> (#[trigger] loops[k]).count() > 0,
    ensures
        first_count(loops, axis) matches Some(count) ==> count > 0,
        loop_size(loops, axis) > 0,
    decreases loops.len(),
{
    if loops.len() > 0 {
        assert(loops[0].count() > 0);
        if axis_of(loops[0]) != Some(axis) {
            let rest = loops.skip(1);
            assert forall|k: int| 0 <= k < rest.len() implies (#[trigger] rest[k]).count() > 0 by {
                assert(rest[k] == loops[k + 1]);
            }
            lemma_first_count_positive(rest, axis);
        }
    }
}

/// The axis that a loop runs along.
fn loop_axis(l: &ExpLoop) -> (axis: Option<Axis>)
    ensures
        axis == axis_of(l@),
{
    match l {
        ExpLoop::TimeLoop(_) => Some(Axis::T),
        ExpLoop::NETimeLoop(_) => Some(Axis::T),
        ExpLoop::XYPosLoop(_) => Some(Axis::P),
        ExpLoop::ZStackLoop(_) => Some(Axis::Z),
        ExpLoop::CustomLoop(_) => None,
    }
}

/// Whether an order holds an axis.
fn has_axis(order: &Vec<Axis>, axis: Axis) -> (yes: bool)
    ensures
        yes == order@.contains(axis),
{
    let mut i: usize = 0;
    while i < order.len()
        invariant
            i <= order@.len(),
            forall|k: int| 0 <= k < i ==> order@[k] != axis,
        decreases order@.len() - i,
    {
        if order[i] == axis {
            return true;
        }
        i += 1;
    }
    false
}

/// Adds an axis to an order that does not hold it yet.
fn add_axis(order: &mut Vec<Axis>, axis: Axis)
    ensures
        final(order)@ == with_axis(old(order)@, axis),
{
    if !has_axis(order, axis) {
        order.push(axis);
    }
}

/// The count of the first loop along `axis`, or 1.
fn size_along(experiment: &Vec<ExpLoop>, axis: Axis) -> (size: usize)
    ensures
        size == loop_size(loops_view(experiment@), axis),
{
    let ghost loops = loops_view(experiment@);
    let mut i: usize = 0;
    assert(loops.skip(0) =~= loops);
    while i < experiment.len()
        invariant
            i <= experiment@.len(),
            loops == loops_view(experiment@),
            first_count(loops, axis) == first_count(loops.skip(i as int), axis),
        decreases experiment@.len() - i,
    {
        assert(loops.skip(i as int)[0] == experiment@[i as int]@);
        assert(loops.skip(i as int).skip(1) =~= loops.skip(i + 1));
        if loop_axis(&experiment[i]) == Some(axis) {
            return experiment[i].count() as usize;
        }
        i += 1;
    }
    1
}

/// The number of channels of a file.
pub fn channel_count(attributes: &Attributes) -> (count: u32)
    ensures
        count == channels_of(*attributes),
{
    match attributes.channel_count {
        Some(c) => c,
        None => attributes.component_count,
    }
}

/// The width of a frame in pixels.
pub fn frame_width(attributes: &Attributes) -> (width: u32)
    ensures
        width == width_of(*attributes),
{
    match attributes.width_px {
        Some(w) => w,
        None => match attributes.width_bytes {
            Some(bytes) => {
                let bytes_each: u64 = (attributes.bits_per_component_in_memory / 8) as u64;
                let components: u64 = attributes.component_count as u64;
                assert(bytes_each * components <= 0xffff_ffff * 0xffff_ffff) by (nonlinear_arith)
                    requires
                        bytes_each <= 0xffff_ffff,
                        components <= 0xffff_ffff,
                ;
                let pixel: u64 = bytes_each * components;
                if pixel > 0 {
                    let w: u64 = bytes as u64 / pixel;
                    assert(w <= bytes) by (nonlinear_arith)
                        requires
                            w == bytes as u64 / pixel,
                            pixel > 0,
                    ;
                    w as u32
                } else {
                    0
                }
            },
            None => 0,
        },
    }
}

/// Derives the axes of a file from its attributes and its experiment.
///
/// Fails with an invalid-format error where the number of frames, P
/// times T times C times Z, is beyond what the machine can count.
pub fn resolve_axes(attributes: &Attributes, experiment: &Vec<ExpLoop>) -> (outcome: Result<
    AxisLayout,
    Nd2Error,
>)
    ensures
        match outcome {
            Ok(layout) => {
                &&& layout.well_formed()
                &&& layout.sizes == sizes_of(*attributes, loops_view(experiment@))
                &&& layout.axis_order@ == axis_order_of(loops_view(experiment@))
            },
            Err(e) => {
                &&& sizes_of(*attributes, loops_view(experiment@)).frame_count() > usize::MAX
                &&& e@ == Fault::InvalidFormat
            },
        },
{
    let ghost loops = loops_view(experiment@);
    let c: usize = channel_count(attributes) as usize;
    let y: usize = attributes.height_px as usize;
    let x: usize = frame_width(attributes) as usize;
    let mut axis_order: Vec<Axis> = Vec::new();
    let sizes = if experiment.len() == 0 {
        axis_order.push(Axis::P);
        axis_order.push(Axis::T);
        axis_order.push(Axis::C);
        axis_order.push(Axis::Z);
        assert(axis_order@ =~= seq![Axis::P, Axis::T, Axis::C, Axis::Z]);
        let per_channel: u32 = if c == 0 {
            attributes.sequence_count
        } else {
            attributes.sequence_count / (c as u32)
        };
        Sizes { p: 1, t: per_channel as usize, c, z: 1, y, x }
    } else {
        let mut i: usize = 0;
        while i < experiment.len()
            invariant
                i <= experiment@.len(),
                loops == loops_view(experiment@),
                axis_order@ == loop_axes(loops, i as nat),
            decreases experiment@.len() - i,
        {
            assert(loops[i as int] == experiment@[i as int]@);
            match loop_axis(&experiment[i]) {
                Some(axis) => {
                    add_axis(&mut axis_order, axis);
                },
                None => {},
            }
            i += 1;
        }
        add_axis(&mut axis_order, Axis::C);
        add_axis(&mut axis_order, Axis::P);
        add_axis(&mut axis_order, Axis::T);
        add_axis(&mut axis_order, Axis::Z);
        Sizes {
            p: size_along(experiment, Axis::P),
            t: size_along(experiment, Axis::T),
            c,
            z: size_along(experiment, Axis::Z),
            y,
            x,
        }
    };
    proof {
        lemma_axis_order(loops);
    }
    assert(sizes.p <= u32::MAX && sizes.t <= u32::MAX && sizes.c <= u32::MAX && sizes.z
        <= u32::MAX);
    assert(sizes.p * sizes.t <= 0xffff_ffff * 0xffff_ffff) by (nonlinear_arith)
        requires
            sizes.p <= 0xffff_ffff,
            sizes.t <= 0xffff_ffff,
    ;
    let pt: u128 = sizes.p as u128 * sizes.t as u128;
    assert(pt * sizes.c <= 0xffff_ffff * 0xffff_ffff * 0xffff_ffff) by (nonlinear_arith)
        requires
            0 <= pt <= 0xffff_ffff * 0xffff_ffff,
            sizes.c <= 0xffff_ffff,
    ;
    let ptc: u128 = pt * sizes.c as u128;
    assert(ptc * sizes.z <= 0xffff_ffff * 0xffff_ffff * 0xffff_ffff * 0xffff_ffff)
        by (nonlinear_arith)
        requires
            0 <= ptc <= 0xffff_ffff * 0xffff_ffff * 0xffff_ffff,
            sizes.z <= 0xffff_ffff,
    ;
    let total: u128 = ptc * sizes.z as u128;
    if total > usize::MAX as u128 {
        return Err(Nd2Error::InvalidFormat("Too many frames to index".to_string()));
    }
    let mut coord_shape: Vec<usize> = Vec::new();
    let mut k: usize = 0;
    while k < 4
        invariant
            k <= 4,
            axis_order@.len() == 4,
            coord_shape@.len() == k,
            forall|j: int| 0 <= j < k ==> coord_shape@[j] == sizes.of(axis_order@[j]),
        decreases 4 - k,
    {
        coord_shape.push(sizes.size_of(axis_order[k]));
        k += 1;
    }
    assert(coord_shape@ =~= shape_of(axis_order@, sizes));
    Ok(AxisLayout { sizes, axis_order, coord_shape })
}

impl AxisLayout {
    /// Where an axis stands in the order.
    fn place(&self, axis: Axis) -> (at: usize)
        requires
            self.well_formed(),
        ensures
            at == place_of(self.axis_order@, axis),
            at < 4,
    {
        if self.axis_order[0] == axis {
            0
        } else if self.axis_order[1] == axis {
            1
        } else if self.axis_order[2] == axis {
            2
        } else {
            3
        }
    }

    /// The coordinates of the frame with sequence index `seq`; none
    /// where `seq` is not below the number of frames.
    pub fn coords_of(&self, seq: usize) -> (index: Option<FrameIndex>)
        requires
            self.well_formed(),
        ensures
            match index {
                Some(at) => {
                    &&& seq < self.sizes.frame_count()
                    &&& at == self.frame_at(seq as nat)
                    &&& self.holds(at)
                    &&& self.sequence_of(at) == seq
                },
                None => seq >= self.sizes.frame_count(),
            },
    {
        if seq >= self.frame_count() {
            return None;
        }
        let coords = unravel_index(&self.coord_shape, seq);
        proof {
            lemma_sequence_round_trip(*self, seq as nat);
        }
        let ghost spec_coords = unravel(self.coord_shape@, seq as nat);
        let ip = self.place(Axis::P);
        let it = self.place(Axis::T);
        let ic = self.place(Axis::C);
        let iz = self.place(Axis::Z);
        assert(coords@.map_values(|c: usize| c as nat)[ip as int] == coords@[ip as int] as nat);
        assert(coords@.map_values(|c: usize| c as nat)[it as int] == coords@[it as int] as nat);
        assert(coords@.map_values(|c: usize| c as nat)[ic as int] == coords@[ic as int] as nat);
        assert(coords@.map_values(|c: usize| c as nat)[iz as int] == coords@[iz as int] as nat);
        Some(FrameIndex { p: coords[ip], t: coords[it], c: coords[ic], z: coords[iz] })
    }

    /// The sequence index of a frame; none where a coordinate is not
    /// below the size of its axis.
    pub fn seq_of(&self, index: &FrameIndex) -> (seq: Option<usize>)
        requires
            self.well_formed(),
        ensures
            match seq {
                Some(s) => {
                    &&& self.holds(*index)
                    &&& s == self.sequence_of(*index)
                    &&& s < self.sizes.frame_count()
                    &&& self.frame_at(s as nat) == *index
                },
                None => !self.holds(*index),
            },
    {
        let count = self.frame_count();
        let mut coords: Vec<usize> = Vec::new();
        let mut k: usize = 0;
        while k < 4
            invariant
                k <= 4,
                self.axis_order@.len() == 4,
                coords@.len() == k,
                forall|j: int| 0 <= j < k ==> coords@[j] == index.of(self.axis_order@[j]),
            decreases 4 - k,
        {
            coords.push(index.coordinate(self.axis_order[k]));
            k += 1;
        }
        assert(coords@.map_values(|c: usize| c as nat) =~= coords_in(self.axis_order@, *index));
        proof {
            lemma_place_of(self.axis_order@, Axis::P);
            lemma_place_of(self.axis_order@, Axis::T);
            lemma_place_of(self.axis_order@, Axis::C);
            lemma_place_of(self.axis_order@, Axis::Z);
            let cs = coords_in(self.axis_order@, *index);
            let shape = self.coord_shape@;
            if self.holds(*index) {
                assert(in_shape(shape, cs));
                lemma_frame_round_trip(*self, *index);
            }
            if in_shape(shape, cs) {
                assert(cs[place_of(self.axis_order@, Axis::P)] < shape[place_of(
                    self.axis_order@,
                    Axis::P,
                )]);
                assert(cs[place_of(self.axis_order@, Axis::T)] < shape[place_of(
                    self.axis_order@,
                    Axis::T,
                )]);
                assert(cs[place_of(self.axis_order@, Axis::C)] < shape[place_of(
                    self.axis_order@,
                    Axis::C,
                )]);
                assert(cs[place_of(self.axis_order@, Axis::Z)] < shape[place_of(
                    self.axis_order@,
                    Axis::Z,
                )]);
            }
        }
        ravel_index(&self.coord_shape, &coords)
    }

    /// The coordinates of every frame, by sequence index.
    pub fn loop_indices(&self) -> (indices: Vec<FrameIndex>)
        requires
            self.well_formed(),
        ensures
            indices@.len() == self.sizes.frame_count(),
            forall|s: int|
                0 <= s < indices@.len() ==> #[trigger] indices@[s] == self.frame_at(s as nat),
            forall|s: int|
                0 <= s < indices@.len() ==> self.sequence_of(#[trigger] indices@[s]) == s,
    {
        let count = self.frame_count();
        let mut indices: Vec<FrameIndex> = Vec::new();
        let mut s: usize = 0;
        while s < count
            invariant
                self.well_formed(),
                count == self.sizes.frame_count(),
                s <= count,
                indices@.len() == s,
                forall|k: int| 0 <= k < s ==> #[trigger] indices@[k] == self.frame_at(k as nat),
                forall|k: int| 0 <= k < s ==> self.sequence_of(#[trigger] indices@[k]) == k,
            decreases count - s,
        {
            match self.coords_of(s) {
                Some(at) => {
                    indices.push(at);
                },
                None => {
                    assert(false);
                },
            }
            s += 1;
        }
        indices
    }
}

} // verus!
