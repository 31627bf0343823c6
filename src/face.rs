use vstd::prelude::*;

verus! {

/// The byte that packs a face's width and height, each in `1..=8`: the low three
/// bits hold `width - 1`, the next three `height - 1`.
pub open spec fn size_code(width: int, height: int) -> int {
    (height - 1) * 8 + (width - 1)
}

/// Width and height read back from a packed size byte.
pub open spec fn size_of_code(code: int) -> (int, int) {
    (code % 8 + 1, (code / 8) % 8 + 1)
}

pub fn encode_size(width: u8, height: u8) -> (r: u8)
    requires
        1 <= width <= 8,
        1 <= height <= 8,
    ensures
        r == size_code(width as int, height as int),
{
    (height - 1) * 8 + (width - 1)
}

pub fn decode_size(code: u8) -> (r: (u8, u8))
    ensures
        r.0 == size_of_code(code as int).0,
        r.1 == size_of_code(code as int).1,
{
    (code % 8 + 1, (code / 8) % 8 + 1)
}

/// Decoding an encoded size gives back the width and height it was made from.
pub proof fn lemma_size_round_trip(width: int, height: int)
    requires
        1 <= width <= 8,
        1 <= height <= 8,
    ensures
        size_of_code(size_code(width, height)) == (width, height),
{
    let c = size_code(width, height);
    assert(c % 8 == width - 1) by (nonlinear_arith)
        requires
            c == (height - 1) * 8 + (width - 1),
            1 <= width <= 8,
            1 <= height <= 8,
    ;
    assert(c / 8 == height - 1) by (nonlinear_arith)
        requires
            c == (height - 1) * 8 + (width - 1),
            1 <= width <= 8,
            1 <= height <= 8,
    ;
}

/// The extent that spans `[u0, u1) x [v0, v1)`.
pub open spec fn extent_of(u0: int, v0: int, u1: int, v1: int) -> FaceExtent {
    FaceExtent { x: u0 as u8, y: v0 as u8, size: size_code(u1 - u0, v1 - v0) as u8 }
}

/// A non-empty rectangle `[x, x + width) x [y, y + height)` on a page face, with
/// the width and height packed into one byte.
#[derive(Clone, Copy, Debug, PartialEq, Eq, Structural)]
pub struct FaceExtent {
    pub x: u8,
    pub y: u8,
    pub size: u8,
}

impl FaceExtent {
    pub open spec fn spec_width(self) -> int {
        size_of_code(self.size as int).0
    }

    pub open spec fn spec_height(self) -> int {
        size_of_code(self.size as int).1
    }

    /// Low corner and high (exclusive) corner of the rectangle.
    pub open spec fn rect(self) -> (int, int, int, int) {
        (
            self.x as int,
            self.y as int,
            self.x + self.spec_width(),
            self.y + self.spec_height(),
        )
    }

    /// The rectangle lies within an 8x8 page face.
    pub open spec fn in_page(self) -> bool {
        self.rect().2 <= 8 && self.rect().3 <= 8
    }

    /// The rectangle spans `[u0, u1) x [v0, v1)`.
    pub open spec fn spans(self, u0: int, v0: int, u1: int, v1: int) -> bool {
        self.rect() == (u0, v0, u1, v1)
    }

    /// The rectangle with corners `(u0, v0)` and `(u1, v1)`.
    pub fn new_with_points(u0: u8, v0: u8, u1: u8, v1: u8) -> (r: FaceExtent)
        requires
            u0 < u1 <= 8,
            v0 < v1 <= 8,
        ensures
            r.spans(u0 as int, v0 as int, u1 as int, v1 as int),
            r == extent_of(u0 as int, v0 as int, u1 as int, v1 as int),
    {
        let size = encode_size(u1 - u0, v1 - v0);
        proof {
            lemma_size_round_trip((u1 - u0) as int, (v1 - v0) as int);
        }
        FaceExtent { x: u0, y: v0, size }
    }

    pub fn width(&self) -> (r: u8)
        ensures
            r == self.spec_width(),
    {
        decode_size(self.size).0
    }

    pub fn height(&self) -> (r: u8)
        ensures
            r == self.spec_height(),
    {
        decode_size(self.size).1
    }

    /// The overlap of two rectangles, or `None` when they do not overlap.
    pub fn intersection(&self, other: &FaceExtent) -> (r: Option<FaceExtent>)
        requires
            self.in_page(),
            other.in_page(),
        ensures
            ({
                let (a0, b0, a1, b1) = self.rect();
                let (c0, d0, c1, d1) = other.rect();
                let u0 = if a0 >= c0 { a0 } else { c0 };
                let v0 = if b0 >= d0 { b0 } else { d0 };
                let u1 = if a1 <= c1 { a1 } else { c1 };
                let v1 = if b1 <= d1 { b1 } else { d1 };
                match r {
                    None => u1 <= u0 || v1 <= v0,
                    Some(e) => u0 < u1 && v0 < v1 && e.spans(u0, v0, u1, v1),
                }
            }),
    {
        let a1 = self.x as u16 + self.width() as u16;
        let b1 = self.y as u16 + self.height() as u16;
        let c1 = other.x as u16 + other.width() as u16;
        let d1 = other.y as u16 + other.height() as u16;
        let u0 = if self.x >= other.x { self.x } else { other.x };
        let v0 = if self.y >= other.y { self.y } else { other.y };
        let u1 = if a1 <= c1 { a1 } else { c1 };
        let v1 = if b1 <= d1 { b1 } else { d1 };
        if u1 <= u0 as u16 || v1 <= v0 as u16 {
            None
        } else {
            Some(FaceExtent::new_with_points(u0, v0, u1 as u8, v1 as u8))
        }
    }
}

/// A face extent placed at a page-local position.
#[derive(Clone, Copy, Debug, PartialEq, Eq, Structural)]
pub struct PositionedFace {
    pub x: u8,
    pub y: u8,
    pub z: u8,
    pub extents: FaceExtent,
}

impl PositionedFace {
    pub fn new(x: u8, y: u8, z: u8, extents: FaceExtent) -> (r: PositionedFace)
        ensures
            r == (PositionedFace { x, y, z, extents }),
    {
        PositionedFace { x, y, z, extents }
    }
}

} // verus!
