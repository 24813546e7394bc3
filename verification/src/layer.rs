//! The data model: circles grouped into named, coloured layers.
//!
//! A circle's three quantities are held as the numerals that spell them.
//! Nothing here asks a numeral to be well formed, nor a radius to be
//! positive: a circle is whatever three texts it was given.
use vstd::prelude::*;

verus! {

/// A circle: the numerals of its centre and of its radius.
#[derive(Debug, PartialEq, Eq, Clone)]
pub struct Circle {
    pub x: String,
    pub y: String,
    pub radius: String,
}

/// What a [`Circle`] holds, as sequences of characters.
pub ghost struct CircleView {
    pub x: Seq<char>,
    pub y: Seq<char>,
    pub radius: Seq<char>,
}

impl View for Circle {
    type V = CircleView;

    open spec fn view(&self) -> CircleView {
        CircleView { x: self.x@, y: self.y@, radius: self.radius@ }
    }
}

impl DeepView for Circle {
    type V = CircleView;

    open spec fn deep_view(&self) -> CircleView {
        self@
    }
}

/// A layer: a name, a colour and the circles it groups, in order.
#[derive(Debug, PartialEq, Eq, Clone)]
pub struct Layer {
    pub name: String,
    pub color: String,
    pub circles: Vec<Circle>,
}

/// What a [`Layer`] holds, as sequences.
pub ghost struct LayerView {
    pub name: Seq<char>,
    pub color: Seq<char>,
    pub circles: Seq<CircleView>,
}

impl View for Layer {
    type V = LayerView;

    open spec fn view(&self) -> LayerView {
        LayerView { name: self.name@, color: self.color@, circles: self.circles.deep_view() }
    }
}

impl DeepView for Layer {
    type V = LayerView;

    open spec fn deep_view(&self) -> LayerView {
        self@
    }
}

} // verus!
