//! Geometry and color value types: integer 2D vectors, rectangles with
//! derived corner/edge accessors, and RGBA colors convertible to and from
//! the packed 32-bit pixel word.
use vstd::prelude::*;

verus! {

/// A 2D integer coordinate pair.
#[derive(Debug, Copy, Clone, PartialEq, Eq, Structural, Hash)]
pub struct Vec2 {
    pub x: i32,
    pub y: i32,
}

impl Vec2 {
    pub fn new(x: i32, y: i32) -> (v: Self)
        ensures
            v.x == x,
            v.y == y,
    {
        Self { x, y }
    }
}

/// The quotient of `a` and `b` rounded toward zero, as Rust's integer
/// division computes it.
pub open spec fn div_trunc(a: int, b: int) -> int {
    if a >= 0 {
        a / b
    } else {
        -((-a) / b)
    }
}

/// Component-wise vector addition.
impl core::ops::Add for Vec2 {
    type Output = Vec2;

    fn add(self, other: Vec2) -> (r: Vec2) {
        Vec2 { x: self.x + other.x, y: self.y + other.y }
    }
}

impl vstd::std_specs::ops::AddSpecImpl for Vec2 {
    open spec fn obeys_add_spec() -> bool {
        true
    }

    open spec fn add_req(self, rhs: Vec2) -> bool {
        i32::MIN <= self.x + rhs.x <= i32::MAX && i32::MIN <= self.y + rhs.y <= i32::MAX
    }

    open spec fn add_spec(self, rhs: Vec2) -> Vec2 {
        Vec2 { x: (self.x + rhs.x) as i32, y: (self.y + rhs.y) as i32 }
    }
}

/// Component-wise vector subtraction.
impl core::ops::Sub for Vec2 {
    type Output = Vec2;

    fn sub(self, other: Vec2) -> (r: Vec2) {
        Vec2 { x: self.x - other.x, y: self.y - other.y }
    }
}

impl vstd::std_specs::ops::SubSpecImpl for Vec2 {
    open spec fn obeys_sub_spec() -> bool {
        true
    }

    open spec fn sub_req(self, rhs: Vec2) -> bool {
        i32::MIN <= self.x - rhs.x <= i32::MAX && i32::MIN <= self.y - rhs.y <= i32::MAX
    }

    open spec fn sub_spec(self, rhs: Vec2) -> Vec2 {
        Vec2 { x: (self.x - rhs.x) as i32, y: (self.y - rhs.y) as i32 }
    }
}

/// Scalar multiplication of both components.
impl core::ops::Mul<i32> for Vec2 {
    type Output = Vec2;

    fn mul(self, other: i32) -> (r: Vec2) {
        Vec2 { x: self.x * other, y: self.y * other }
    }
}

impl vstd::std_specs::ops::MulSpecImpl<i32> for Vec2 {
    open spec fn obeys_mul_spec() -> bool {
        true
    }

    open spec fn mul_req(self, rhs: i32) -> bool {
        i32::MIN <= self.x * rhs <= i32::MAX && i32::MIN <= self.y * rhs <= i32::MAX
    }

    open spec fn mul_spec(self, rhs: i32) -> Vec2 {
        Vec2 { x: (self.x * rhs) as i32, y: (self.y * rhs) as i32 }
    }
}

/// Scalar division of both components, truncating toward zero.
impl core::ops::Div<i32> for Vec2 {
    type Output = Vec2;

    fn div(self, other: i32) -> (r: Vec2) {
        Vec2 { x: self.x / other, y: self.y / other }
    }
}

impl vstd::std_specs::ops::DivSpecImpl<i32> for Vec2 {
    open spec fn obeys_div_spec() -> bool {
        true
    }

    open spec fn div_req(self, rhs: i32) -> bool {
        rhs != 0 && !(self.x == i32::MIN && rhs == -1) && !(self.y == i32::MIN && rhs == -1)
    }

    open spec fn div_spec(self, rhs: i32) -> Vec2 {
        Vec2 {
            x: div_trunc(self.x as int, rhs as int) as i32,
            y: div_trunc(self.y as int, rhs as int) as i32,
        }
    }
}

/// An axis-aligned rectangle: a top-left anchor plus unsigned extent.
/// Its right edge sits at `top_left.x + width` and its bottom edge at
/// `top_left.y + height`.
#[derive(Debug, Copy, Clone, PartialEq, Eq, Structural, Hash)]
pub struct Rect {
    pub top_left: Vec2,
    pub width: u32,
    pub height: u32,
}

impl Rect {
    /// The x coordinate one past the rightmost column, as a mathematical
    /// integer (it may exceed `i32::MAX`).
    pub open spec fn spec_right(self) -> int {
        self.top_left.x + self.width
    }

    /// The y coordinate one past the bottom row, as a mathematical integer.
    pub open spec fn spec_bottom(self) -> int {
        self.top_left.y + self.height
    }

    pub fn new(top_left: Vec2, width: u32, height: u32) -> (r: Self)
        ensures
            r.top_left == top_left,
            r.width == width,
            r.height == height,
    {
        Self { top_left, width, height }
    }

    /// Whether `point` lies inside the rectangle, edges included.
    pub fn point_intersects(&self, point: Vec2) -> (r: bool)
        ensures
            r == (self.top_left.x <= point.x <= self.spec_right()
                && self.top_left.y <= point.y <= self.spec_bottom()),
    {
        point.x >= self.top_left.x
            && (point.x as i64) <= (self.top_left.x as i64) + (self.width as i64)
            && point.y >= self.top_left.y
            && (point.y as i64) <= (self.top_left.y as i64) + (self.height as i64)
    }

    /// Whether the half-open spans of the two rectangles overlap on both axes.
    pub fn intersects(&self, other: &Self) -> (r: bool)
        ensures
            r == (self.top_left.x < other.spec_right()
                && self.spec_right() > other.top_left.x
                && self.top_left.y < other.spec_bottom()
                && self.spec_bottom() > other.top_left.y),
    {
        (self.top_left.x as i64) < (other.top_left.x as i64) + (other.width as i64)
            && (self.top_left.x as i64) + (self.width as i64) > (other.top_left.x as i64)
            && (self.top_left.y as i64) < (other.top_left.y as i64) + (other.height as i64)
            && (self.top_left.y as i64) + (self.height as i64) > (other.top_left.y as i64)
    }

    /// Moves the anchor by `vector`, keeping the extent.
    pub fn offset(&mut self, vector: Vec2)
        requires
            i32::MIN <= old(self).top_left.x + vector.x <= i32::MAX,
            i32::MIN <= old(self).top_left.y + vector.y <= i32::MAX,
        ensures
            final(self).top_left.x == old(self).top_left.x + vector.x,
            final(self).top_left.y == old(self).top_left.y + vector.y,
            final(self).width == old(self).width,
            final(self).height == old(self).height,
    {
        self.top_left.x = self.top_left.x + vector.x;
        self.top_left.y = self.top_left.y + vector.y;
    }

    pub fn offset_x(&mut self, val: i32)
        requires
            i32::MIN <= old(self).top_left.x + val <= i32::MAX,
        ensures
            final(self).top_left.x == old(self).top_left.x + val,
            final(self).top_left.y == old(self).top_left.y,
            final(self).width == old(self).width,
            final(self).height == old(self).height,
    {
        self.top_left.x = self.top_left.x + val;
    }

    pub fn offset_y(&mut self, val: i32)
        requires
            i32::MIN <= old(self).top_left.y + val <= i32::MAX,
        ensures
            final(self).top_left.x == old(self).top_left.x,
            final(self).top_left.y == old(self).top_left.y + val,
            final(self).width == old(self).width,
            final(self).height == old(self).height,
    {
        self.top_left.y = self.top_left.y + val;
    }

    pub fn bottom_left(&self) -> (v: Vec2)
        requires
            self.spec_bottom() <= i32::MAX,
        ensures
            v.x == self.top_left.x,
            v.y == self.spec_bottom(),
    {
        Vec2 { x: self.top_left.x, y: ((self.top_left.y as i64) + (self.height as i64)) as i32 }
    }

    pub fn bottom_right(&self) -> (v: Vec2)
        requires
            self.spec_right() <= i32::MAX,
            self.spec_bottom() <= i32::MAX,
        ensures
            v.x == self.spec_right(),
            v.y == self.spec_bottom(),
    {
        Vec2 {
            x: ((self.top_left.x as i64) + (self.width as i64)) as i32,
            y: ((self.top_left.y as i64) + (self.height as i64)) as i32,
        }
    }

    pub fn top_right(&self) -> (v: Vec2)
        requires
            self.spec_right() <= i32::MAX,
        ensures
            v.x == self.spec_right(),
            v.y == self.top_left.y,
    {
        Vec2 { x: ((self.top_left.x as i64) + (self.width as i64)) as i32, y: self.top_left.y }
    }

    pub fn area(&self) -> (a: u32)
        requires
            self.width * self.height <= u32::MAX,
        ensures
            a == self.width * self.height,
    {
        self.width * self.height
    }

    pub fn left(&self) -> (r: i32)
        ensures
            r == self.top_left.x,
    {
        self.top_left.x
    }

    pub fn right(&self) -> (r: i32)
        requires
            self.spec_right() <= i32::MAX,
        ensures
            r == self.spec_right(),
    {
        ((self.top_left.x as i64) + (self.width as i64)) as i32
    }

    pub fn top(&self) -> (r: i32)
        ensures
            r == self.top_left.y,
    {
        self.top_left.y
    }

    pub fn bottom(&self) -> (r: i32)
        requires
            self.spec_bottom() <= i32::MAX,
        ensures
            r == self.spec_bottom(),
    {
        ((self.top_left.y as i64) + (self.height as i64)) as i32
    }
}

/// An RGBA color with 8 bits per channel.
#[derive(Debug, Copy, Clone, PartialEq, Eq, Structural, Hash)]
pub struct Color {
    pub r: u8,
    pub g: u8,
    pub b: u8,
    pub a: u8,
}

/// The packed 32-bit pixel word for the given channels: r in the least
/// significant byte, then g, b, a — the little-endian reading of the
/// buffer byte order r, g, b, a.
pub open spec fn pack_rgba(r: u8, g: u8, b: u8, a: u8) -> u32 {
    (r as u32) | ((g as u32) << 8) | ((b as u32) << 16) | ((a as u32) << 24)
}

/// The r channel of a packed pixel word (least significant byte).
pub open spec fn word_r(w: u32) -> u8 {
    (w & 0xff) as u8
}

/// The g channel of a packed pixel word.
pub open spec fn word_g(w: u32) -> u8 {
    ((w >> 8) & 0xff) as u8
}

/// The b channel of a packed pixel word.
pub open spec fn word_b(w: u32) -> u8 {
    ((w >> 16) & 0xff) as u8
}

/// The a channel of a packed pixel word (most significant byte).
pub open spec fn word_a(w: u32) -> u8 {
    ((w >> 24) & 0xff) as u8
}

/// Packing four channels and reading them back yields the original channels.
pub proof fn lemma_pack_unpack(r: u8, g: u8, b: u8, a: u8)
    by (bit_vector)
    ensures
        word_r(pack_rgba(r, g, b, a)) == r,
        word_g(pack_rgba(r, g, b, a)) == g,
        word_b(pack_rgba(r, g, b, a)) == b,
        word_a(pack_rgba(r, g, b, a)) == a,
{
}

/// Reading the four channels of a word and packing them again yields the
/// original word.
pub proof fn lemma_unpack_pack(w: u32)
    by (bit_vector)
    ensures
        pack_rgba(word_r(w), word_g(w), word_b(w), word_a(w)) == w,
{
}

/// Combining four byte-sized words by shifts and ors packs them.
pub proof fn lemma_or_shift_pack(r: u32, g: u32, b: u32, a: u32)
    by (bit_vector)
    requires
        r < 0x100,
        g < 0x100,
        b < 0x100,
        a < 0x100,
    ensures
        (r | (g << 8) | (b << 16) | (a << 24)) == pack_rgba(
            r as u8,
            g as u8,
            b as u8,
            a as u8,
        ),
{
}

impl Color {
    pub fn new(r: u8, g: u8, b: u8, a: u8) -> (c: Self)
        ensures
            c.r == r,
            c.g == g,
            c.b == b,
            c.a == a,
    {
        Self { r, g, b, a }
    }
}

/// Parses a packed pixel word into its channels.
impl From<u32> for Color {
    fn from(num: u32) -> (c: Self) {
        let r = (num & 0xff) as u8;
        let g = ((num >> 8) & 0xff) as u8;
        let b = ((num >> 16) & 0xff) as u8;
        let a = ((num >> 24) & 0xff) as u8;
        proof {
            assert((num & 0xff) < 0x100 && ((num >> 8) & 0xff) < 0x100 && ((num >> 16) & 0xff)
                < 0x100 && ((num >> 24) & 0xff) < 0x100) by (bit_vector);
        }
        Color::new(r, g, b, a)
    }
}

impl vstd::std_specs::convert::FromSpecImpl<u32> for Color {
    open spec fn obeys_from_spec() -> bool {
        true
    }

    open spec fn from_spec(num: u32) -> Self {
        Color { r: word_r(num), g: word_g(num), b: word_b(num), a: word_a(num) }
    }
}

/// Packs a color into the pixel word the buffer format uses.
impl From<Color> for u32 {
    fn from(color: Color) -> (w: u32) {
        (color.r as u32) | ((color.g as u32) << 8) | ((color.b as u32) << 16) | ((color.a as u32)
            << 24)
    }
}

impl vstd::std_specs::convert::FromSpecImpl<Color> for u32 {
    open spec fn obeys_from_spec() -> bool {
        true
    }

    open spec fn from_spec(color: Color) -> u32 {
        pack_rgba(color.r, color.g, color.b, color.a)
    }
}

} // verus!
