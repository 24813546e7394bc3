//! Drawing fresh layers: each gets its name, a random colour and a random
//! number of circles. The circles themselves are drawn by the caller, who
//! owns the arithmetic on their quantities.
use rand::rngs::ThreadRng;
use rand::Rng;
use vstd::prelude::*;

use crate::text::{
    decimal_text, hex_limit, hex_text, is_lower_hex, lemma_decimal_text_value, lemma_hex_text_shape,
    lemma_hex_text_value, numeral_value, push_decimal, push_hex,
};

verus! {

/// The thread-local generator of the `rand` crate.
#[verifier::external_type_specification]
#[verifier::external_body]
pub struct ExThreadRng(ThreadRng);

/// The fewest circles a generated layer holds.
pub const MIN_CIRCLES: i64 = 20;

/// The most circles a generated layer holds.
pub const MAX_CIRCLES: i64 = 50;

/// The largest colour value: thirty-two bits, all set.
pub const COLOR_MAX: i64 = 0xFFFF_FFFF;

/// What the generator decides about one layer before its circles are
/// drawn: the name, the colour and how many circles it is to hold.
#[derive(Debug, PartialEq, Eq, Clone)]
pub struct LayerOutline {
    pub name: String,
    pub color: String,
    pub circle_count: usize,
}

/// The name of the layer with the given number: `Layer 1`, `Layer 2`, ...
pub open spec fn layer_name_text(number: nat) -> Seq<char> {
    seq!['L', 'a', 'y', 'e', 'r', ' '] + decimal_text(number)
}

/// The colour text of a value: `#` and eight lower-case hex digits.
pub open spec fn color_text(value: nat) -> Seq<char> {
    seq!['#'] + hex_text(value, 8)
}

/// Whether `s` has the shape of a colour text: `#`, then eight lower-case
/// hex digits, nine characters in all.
pub open spec fn is_color_text(s: Seq<char>) -> bool {
    &&& s.len() == 9
    &&& s[0] == '#'
    &&& forall|i: int| 1 <= i < 9 ==> is_lower_hex(#[trigger] s[i])
}

/// Whether `outline` is what the generator may produce at position
/// `index` (counted from zero) of a run.
pub open spec fn is_generated(outline: LayerOutline, index: nat) -> bool {
    &&& outline.name@ == layer_name_text(index + 1)
    &&& is_color_text(outline.color@)
    &&& MIN_CIRCLES <= outline.circle_count <= MAX_CIRCLES
}

/// Every colour text has the shape of one.
pub proof fn lemma_color_text_shape(value: nat)
    ensures
        is_color_text(color_text(value)),
{
    lemma_hex_text_shape(value, 8);
    let s = color_text(value);
    assert forall|i: int| 1 <= i < 9 implies is_lower_hex(#[trigger] s[i]) by {
        assert(s[i] == hex_text(value, 8)[i - 1]);
    }
}

/// The eight digits of a colour text write the colour's value, so that
/// two colours have the same text only where they are the same.
pub proof fn lemma_color_text_value(value: nat)
    requires
        value <= COLOR_MAX,
    ensures
        numeral_value(color_text(value).skip(1), 16) == value,
{
    assert(hex_limit(8) == 0x1_0000_0000) by {
        reveal_with_fuel(hex_limit, 9);
    }
    lemma_hex_text_value(value, 8);
    assert(color_text(value).skip(1) =~= hex_text(value, 8));
}

/// What follows `Layer ` in a layer's name writes the layer's number.
pub proof fn lemma_layer_name_value(number: nat)
    ensures
        numeral_value(layer_name_text(number).skip(6), 10) == number,
{
    lemma_decimal_text_value(number);
    assert(layer_name_text(number).skip(6) =~= decimal_text(number));
}

/// `Rng::gen_range` on an inclusive range of integers returns a value of
/// that range; it panics on an empty range, which `requires` leaves out.
#[verifier::external_body]
fn draw_between(rng: &mut ThreadRng, low: i64, high: i64) -> (v: i64)
    requires
        low <= high,
    ensures
        low <= v <= high,
{
    rng.gen_range(low..=high)
}

/// The name of the layer with the given number.
pub fn layer_name(number: u64) -> (name: String)
    ensures
        name@ == layer_name_text(number as nat),
{
    let mut name = String::new();
    name.push('L');
    name.push('a');
    name.push('y');
    name.push('e');
    name.push('r');
    name.push(' ');
    assert(name@ == seq!['L', 'a', 'y', 'e', 'r', ' ']);
    push_decimal(&mut name, number);
    name
}

/// The colour text of `value`.
pub fn color_string(value: u32) -> (color: String)
    ensures
        color@ == color_text(value as nat),
        is_color_text(color@),
{
    let mut color = String::new();
    color.push('#');
    assert(color@ == seq!['#']);
    push_hex(&mut color, value as u64, 8);
    proof {
        lemma_color_text_shape(value as nat);
    }
    color
}

/// Outlines one layer under the given name and colour: draws how many
/// circles it is to hold, between `MIN_CIRCLES` and `MAX_CIRCLES`.
pub fn gen_layer(name: String, color: String, rng: &mut ThreadRng) -> (outline: LayerOutline)
    ensures
        outline.name == name,
        outline.color == color,
        MIN_CIRCLES <= outline.circle_count <= MAX_CIRCLES,
{
    let drawn: i64 = draw_between(rng, MIN_CIRCLES, MAX_CIRCLES);
    LayerOutline { name, color, circle_count: drawn as usize }
}

/// Outlines `n` layers, numbered from one, each with a colour drawn from
/// all thirty-two-bit values. A negative `n` asks for none; where none is
/// asked for, nothing is drawn and the generator is left as it was.
pub fn gen_obj_layer_list(rng: &mut ThreadRng, n: i64) -> (layers: Vec<LayerOutline>)
    ensures
        layers.len() == if n > 0 { n as nat } else { 0 },
        forall|i: int| 0 <= i < layers.len() ==> is_generated(#[trigger] layers[i], i as nat),
        n <= 0 ==> *final(rng) == *old(rng),
{
    let mut layers: Vec<LayerOutline> = Vec::new();
    let mut i: i64 = 0;
    while i < n
        invariant
            0 <= i <= if n > 0 { n } else { 0 },
            layers.len() == i,
            n <= 0 ==> *rng == *old(rng),
            forall|k: int| 0 <= k < layers.len() ==> is_generated(#[trigger] layers[k], k as nat),
        decreases n - i,
    {
        let name = layer_name((i + 1) as u64);
        let value: i64 = draw_between(rng, 0, COLOR_MAX);
        let color = color_string(value as u32);
        let outline = gen_layer(name, color, rng);
        layers.push(outline);
        i += 1;
    }
    layers
}

} // verus!
