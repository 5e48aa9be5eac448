//! Plain integer geometry: points, sizes and rectangles in logical pixels.
use vstd::prelude::*;

verus! {

#[derive(Clone, Copy, Debug, PartialEq, Eq, Structural, Hash, Default)]
pub struct Point {
    pub x: i32,
    pub y: i32,
}

#[derive(Clone, Copy, Debug, PartialEq, Eq, Structural, Hash, Default)]
pub struct Size {
    pub w: i32,
    pub h: i32,
}

#[derive(Clone, Copy, Debug, PartialEq, Eq, Structural, Hash, Default)]
pub struct Rect {
    pub loc: Point,
    pub size: Size,
}

impl Size {
    /// Both extents are strictly positive (the size of a real output).
    pub open spec fn is_positive(self) -> bool {
        self.w > 0 && self.h > 0
    }

    /// Neither extent is negative.
    pub open spec fn is_valid(self) -> bool {
        self.w >= 0 && self.h >= 0
    }
}

impl Rect {
    pub fn new(x: i32, y: i32, w: i32, h: i32) -> (r: Rect)
        ensures
            r == (Rect { loc: Point { x, y }, size: Size { w, h } }),
    {
        Rect { loc: Point { x, y }, size: Size { w, h } }
    }

    /// A rectangle of the given size at the origin.
    pub fn from_size(size: Size) -> (r: Rect)
        ensures
            r == (Rect { loc: Point { x: 0, y: 0 }, size }),
    {
        Rect { loc: Point { x: 0, y: 0 }, size }
    }
}

/// Clamps a mathematical integer into the range of `i32`, as a saturating cast does.
pub open spec fn clamp_i32(v: int) -> int {
    if v < i32::MIN {
        i32::MIN as int
    } else if v > i32::MAX {
        i32::MAX as int
    } else {
        v
    }
}

/// `floor(v * current / recorded)` (integer division rounds down for a positive divisor),
/// saturated into `i32`.
pub open spec fn rescaled(v: int, recorded: int, current: int) -> int {
    clamp_i32((v * current) / recorded)
}

/// Rescales one coordinate proportionally from an extent of `recorded` to one of `current`,
/// rounding down.
pub fn rescale_coord(v: i32, recorded: i32, current: i32) -> (r: i32)
    requires
        recorded > 0,
        current >= 0,
    ensures
        r as int == rescaled(v as int, recorded as int, current as int),
{
    proof {
        assert(-2147483648 * 2147483647 <= (v as int) * (current as int) <= 2147483647
            * 2147483647) by (nonlinear_arith)
            requires
                -2147483648 <= v <= 2147483647,
                0 <= current <= 2147483647,
        ;
    }
    let n: i64 = (v as i64) * (current as i64);
    let d: i64 = recorded as i64;
    let q: i64 = if n >= 0 {
        n / d
    } else {
        let m: i64 = -n;
        let t: i64 = (m + d - 1) / d;
        proof {
            let ni = n as int;
            let di = d as int;
            let mi = m as int;
            let ti = t as int;
            assert(ti == (mi + di - 1) / di);
            assert(-ti == ni / di) by (nonlinear_arith)
                requires
                    ti == (mi + di - 1) / di,
                    mi == -ni,
                    ni < 0,
                    di > 0,
            {
                let f = ni / di;
                let rm = ni % di;
                assert(ni == f * di + rm && 0 <= rm < di) by {
                    vstd::arithmetic::div_mod::lemma_fundamental_div_mod(ni, di);
                    vstd::arithmetic::div_mod::lemma_mod_bound(ni, di);
                }
                assert(mi + di - 1 == (-f) * di + (di - 1 - rm));
                vstd::arithmetic::div_mod::lemma_fundamental_div_mod_converse(
                    mi + di - 1,
                    di,
                    -f,
                    di - 1 - rm,
                );
            }
        }
        -t
    };
    if q < i32::MIN as i64 {
        i32::MIN
    } else if q > i32::MAX as i64 {
        i32::MAX
    } else {
        q as i32
    }
}

/// The position that a window at `p` takes when its output changes from `recorded` to
/// `current`: each axis scaled proportionally and rounded down.
pub open spec fn rescaled_point(p: Point, recorded: Size, current: Size) -> Point {
    Point {
        x: rescaled(p.x as int, recorded.w as int, current.w as int) as i32,
        y: rescaled(p.y as int, recorded.h as int, current.h as int) as i32,
    }
}

pub fn rescale_position(p: Point, recorded: Size, current: Size) -> (r: Point)
    requires
        recorded.is_positive(),
        current.is_valid(),
    ensures
        r == rescaled_point(p, recorded, current),
{
    Point { x: rescale_coord(p.x, recorded.w, current.w), y: rescale_coord(p.y, recorded.h, current.h) }
}

/// Where content of size `content` is shown on an output of size `output`: the whole output,
/// except that an axis on which the content is smaller keeps the content's extent and is
/// centred.
pub open spec fn centered_rect(content: Size, output: Size) -> Rect {
    Rect {
        loc: Point {
            x: if content.w < output.w { ((output.w - content.w) / 2) as i32 } else { 0 },
            y: if content.h < output.h { ((output.h - content.h) / 2) as i32 } else { 0 },
        },
        size: Size {
            w: if content.w < output.w { content.w } else { output.w },
            h: if content.h < output.h { content.h } else { output.h },
        },
    }
}

pub fn center_in_output(content: Size, output: Size) -> (r: Rect)
    requires
        content.is_valid(),
        output.is_valid(),
    ensures
        r == centered_rect(content, output),
{
    let mut full = Rect::from_size(output);
    if content.w < full.size.w {
        full.loc.x = full.loc.x + (full.size.w - content.w) / 2;
        full.size.w = content.w;
    }
    if content.h < full.size.h {
        full.loc.y = full.loc.y + (full.size.h - content.h) / 2;
        full.size.h = content.h;
    }
    full
}

} // verus!
