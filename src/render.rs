//! What the rasterizer draws: the parts with their placement, size,
//! color and shape, and the rectangles of the 2D overlay.

use vstd::prelude::*;
use crate::bounds::{clamp64, frame_or_identity, is_part_class, part_frame, part_size};
use crate::datamodel::{prop_get, Instance, PropView, PropertyValue, Vec3Wrapper};
use crate::loader::rfind_char;
use crate::parser::{offset_exec, offset_of};
use crate::text::{chars_of, str_eq, string_from, sub_chars};

verus! {

/// What the rasterizer needs of one part.
#[derive(Debug)]
pub struct RenderPart {
    /// The part's twelve placement components, in millionths.
    pub frame: [i64; 12],
    pub size: Vec3Wrapper,
    pub color: [u8; 3],
    /// `Block`, `Ball`, `Cylinder`, or another name drawn as a block.
    pub shape: String,
}

/// A filled rectangle of the 2D overlay, in whole pixels.
#[derive(Clone, Copy, Debug, PartialEq, Eq, Structural)]
pub struct GuiRect {
    pub x: i32,
    pub y: i32,
    pub w: u32,
    pub h: u32,
    pub r: u8,
    pub g: u8,
    pub b: u8,
}

/// A normalized channel (millionths) as an 8-bit value: `c * 255`
/// truncated, held to `0..=255`. Half a millionth of slack per unit of
/// `255` lets a channel from `Color3.fromRGB` (stored rounded to the
/// nearest millionth) come back as the byte it was written with.
pub open spec fn to_byte(c: i64) -> u8 {
    let v = (c as int * 255 + 500) / 1_000_000;
    if v < 0 {
        0
    } else if v > 255 {
        255
    } else {
        v as u8
    }
}

/// The 8-bit color of a `Color3` property, `dflt` where there is none.
pub open spec fn color_bytes(p: Option<PropView>, dflt: Seq<u8>) -> Seq<u8> {
    match p {
        Some(PropView::Color3(c)) => seq![to_byte(c.r), to_byte(c.g), to_byte(c.b)],
        _ => dflt,
    }
}

/// The text after the last dot.
pub open spec fn last_segment(s: Seq<char>) -> Seq<char> {
    match rfind_char(s, '.') {
        Some(i) => s.subrange(i + 1, s.len() as int),
        None => s,
    }
}

/// A part's shape: the last segment of its `Shape` enum, else `Block`.
pub open spec fn shape_of(inst: Instance) -> Seq<char> {
    match prop_get(inst.properties@, "Shape"@) {
        Some(PropView::Enum(s)) => last_segment(s),
        _ => "Block"@,
    }
}

/// A render part as the contracts see it.
pub type PartView = (Seq<i64>, Vec3Wrapper, Seq<u8>, Seq<char>);

pub open spec fn part_view(p: RenderPart) -> PartView {
    (p.frame@, p.size, p.color@, p.shape@)
}

/// Whether a node is drawn: a part that has a placement.
pub open spec fn is_drawn(inst: Instance) -> bool {
    is_part_class(inst.class_name@) && part_frame(inst.properties@) is Some
}

/// What the rasterizer draws for a part node.
pub open spec fn render_part_of(inst: Instance) -> PartView {
    (
        frame_or_identity(inst.properties@),
        part_size(inst.properties@),
        color_bytes(prop_get(inst.properties@, "Color"@), seq![163u8, 162u8, 165u8]),
        shape_of(inst),
    )
}

/// The parts of a tree, depth first.
pub open spec fn parts_of(inst: Instance) -> Seq<PartView>
    decreases inst, 1nat,
{
    (if is_drawn(inst) {
        seq![render_part_of(inst)]
    } else {
        Seq::empty()
    }) + parts_of_list(inst.children@)
}

pub open spec fn parts_of_list(cs: Seq<Instance>) -> Seq<PartView>
    decreases cs, cs.len(),
{
    if cs.len() == 0 {
        Seq::empty()
    } else {
        parts_of_list(cs.drop_last()) + parts_of(cs.last())
    }
}

fn to_byte_exec(c: i64) -> (r: u8)
    ensures
        r == to_byte(c),
{
    let w: i128 = c as i128 * 255 + 500;
    if w < 0 {
        return 0;
    }
    let v: i128 = w / 1_000_000;
    if v > 255 {
        255
    } else {
        v as u8
    }
}

fn color_exec(p: Option<&PropertyValue>, dflt: [u8; 3]) -> (r: [u8; 3])
    ensures
        r@ == color_bytes(
            match p {
                Some(v) => Some(v@),
                None => None,
            },
            dflt@,
        ),
{
    let r = match p {
        Some(PropertyValue::Color3(c)) => [to_byte_exec(c.r), to_byte_exec(c.g), to_byte_exec(c.b)],
        _ => dflt,
    };
    assert(r@ =~= color_bytes(
        match p {
            Some(v) => Some(v@),
            None => None,
        },
        dflt@,
    ));
    r
}

fn last_segment_exec(s: &String) -> (r: String)
    ensures
        r@ == last_segment(s@),
{
    let v = chars_of(s.as_str());
    let mut i = v.len();
    assert(v@.subrange(0, i as int) =~= v@);
    while i > 0
        invariant
            i <= v.len(),
            v@ == s@,
            rfind_char(v@, '.') == rfind_char(v@.subrange(0, i as int), '.'),
        decreases i,
    {
        assert(v@.subrange(0, i as int).drop_last() =~= v@.subrange(0, i - 1));
        if v[i - 1] == '.' {
            return string_from(&sub_chars(&v, i, v.len()));
        }
        i = i - 1;
    }
    s.clone()
}

fn render_part_exec(inst: &Instance) -> (r: Option<RenderPart>)
    ensures
        match r {
            Some(p) => is_drawn(*inst) && part_view(p) == render_part_of(*inst),
            None => !is_drawn(*inst),
        },
{
    if !(str_eq(inst.class_name.as_str(), "Part") || str_eq(inst.class_name.as_str(), "BasePart")) {
        return None;
    }
    let frame = match inst.properties.get("CFrame") {
        Some(PropertyValue::CFrame(cf)) => cf.components,
        _ => match inst.properties.get("Position") {
            Some(PropertyValue::Vector3(p)) => [
                p.x,
                p.y,
                p.z,
                1_000_000,
                0,
                0,
                0,
                1_000_000,
                0,
                0,
                0,
                1_000_000,
            ],
            _ => return None,
        },
    };
    assert(frame@ =~= frame_or_identity(inst.properties@));
    let size = match inst.properties.get("Size") {
        Some(PropertyValue::Vector3(v)) => *v,
        _ => Vec3Wrapper { x: 4_000_000, y: 1_000_000, z: 2_000_000 },
    };
    let color = color_exec(inst.properties.get("Color"), [163, 162, 165]);
    assert(seq![163u8, 162u8, 165u8] =~= [163u8, 162u8, 165u8]@);
    let shape = match inst.properties.get("Shape") {
        Some(PropertyValue::Enum(s)) => last_segment_exec(s),
        _ => String::from_str("Block"),
    };
    Some(RenderPart { frame, size, color, shape })
}

fn collect_into(inst: &Instance, out: &mut Vec<RenderPart>)
    ensures
        final(out)@.map_values(|p: RenderPart| part_view(p)) == old(out)@.map_values(
            |p: RenderPart| part_view(p),
        ) + parts_of(*inst),
    decreases inst,
{
    let ghost start = out@.map_values(|p: RenderPart| part_view(p));
    match render_part_exec(inst) {
        Some(p) => out.push(p),
        None => {},
    }
    let ghost mid = out@.map_values(|p: RenderPart| part_view(p));
    assert(mid =~= start + (if is_drawn(*inst) {
        seq![render_part_of(*inst)]
    } else {
        Seq::empty()
    }));
    let mut i: usize = 0;
    while i < inst.children.len()
        invariant
            i <= inst.children@.len(),
            out@.map_values(|p: RenderPart| part_view(p)) == mid + parts_of_list(
                inst.children@.subrange(0, i as int),
            ),
        decreases inst.children@.len() - i,
    {
        collect_into(&inst.children[i], out);
        assert(inst.children@.subrange(0, i + 1).drop_last() =~= inst.children@.subrange(
            0,
            i as int,
        ));
        assert(out@.map_values(|p: RenderPart| part_view(p)) =~= mid + parts_of_list(
            inst.children@.subrange(0, i + 1),
        ));
        i = i + 1;
    }
    assert(inst.children@.subrange(0, i as int) =~= inst.children@);
    assert(out@.map_values(|p: RenderPart| part_view(p)) =~= start + parts_of(*inst));
}

/// The parts to draw, depth first: each `Part` or `BasePart` placed by a
/// `CFrame` or `Position`, with its size, 8-bit color and shape.
pub fn collect_parts(root: &Instance) -> (r: Vec<RenderPart>)
    ensures
        r@.map_values(|p: RenderPart| part_view(p)) == parts_of(*root),
{
    let mut out: Vec<RenderPart> = Vec::new();
    collect_into(root, &mut out);
    assert(out@.map_values(|p: RenderPart| part_view(p)) =~= parts_of(*root));
    out
}


/// A layout rectangle, in millionths of a pixel.
#[derive(Clone, Copy, Debug, PartialEq, Eq, Structural)]
pub struct Area {
    pub x: i64,
    pub y: i64,
    pub w: i64,
    pub h: i64,
}

/// The whole 800 by 600 viewport.
pub open spec fn viewport() -> Area {
    Area { x: 0, y: 0, w: 800_000_000, h: 600_000_000 }
}

/// A scale (millionths) of a length (millionths), rounded down.
pub open spec fn scaled(s: i64, len: i64) -> int {
    (s as int * len as int) / 1_000_000
}

/// Where a frame lies within its parent's area: `Position` gives
/// `parent + scale * parent size + offset`, `Size` gives
/// `scale * parent size + offset`; without them it takes the parent's.
pub open spec fn frame_area(inst: Instance, p: Area) -> Area {
    let (x, y) = match prop_get(inst.properties@, "Position"@) {
        Some(PropView::UDim2(u)) => (
            clamp64(p.x + scaled(u.xs, p.w) + u.xo * 1_000_000),
            clamp64(p.y + scaled(u.ys, p.h) + u.yo * 1_000_000),
        ),
        _ => (p.x, p.y),
    };
    let (w, h) = match prop_get(inst.properties@, "Size"@) {
        Some(PropView::UDim2(u)) => (
            clamp64(scaled(u.xs, p.w) + u.xo * 1_000_000),
            clamp64(scaled(u.ys, p.h) + u.yo * 1_000_000),
        ),
        _ => (p.w, p.h),
    };
    Area { x, y, w, h }
}

/// A length in millionths as whole pixels: truncated, at least zero.
pub open spec fn pixel_len(v: i64) -> u32 {
    if v <= 0 {
        0
    } else if v / 1_000_000 > u32::MAX {
        u32::MAX
    } else {
        (v / 1_000_000) as u32
    }
}

pub open spec fn rect_of(a: Area, c: Seq<u8>) -> GuiRect {
    GuiRect {
        x: offset_of(a.x),
        y: offset_of(a.y),
        w: pixel_len(a.w),
        h: pixel_len(a.h),
        r: c[0],
        g: c[1],
        b: c[2],
    }
}

/// The rectangles that the frames of a GUI tree fill, each before those of
/// its children; `p` is the area of the nearest enclosing frame.
pub open spec fn gui_rects(inst: Instance, p: Area) -> Seq<GuiRect>
    decreases inst, 1nat,
{
    if inst.class_name@ == "Frame"@ {
        let a = frame_area(inst, p);
        seq![
            rect_of(
                a,
                color_bytes(
                    prop_get(inst.properties@, "BackgroundColor3"@),
                    seq![255u8, 255u8, 255u8],
                ),
            ),
        ] + gui_rects_list(inst.children@, a)
    } else {
        gui_rects_list(inst.children@, p)
    }
}

pub open spec fn gui_rects_list(cs: Seq<Instance>, p: Area) -> Seq<GuiRect>
    decreases cs, cs.len(),
{
    if cs.len() == 0 {
        Seq::empty()
    } else {
        gui_rects_list(cs.drop_last(), p) + gui_rects(cs.last(), p)
    }
}

/// The rectangles of the `ScreenGui`s among `cs`.
pub open spec fn screen_rects(cs: Seq<Instance>) -> Seq<GuiRect>
    decreases cs.len(),
{
    if cs.len() == 0 {
        Seq::empty()
    } else {
        screen_rects(cs.drop_last()) + (if cs.last().class_name@ == "ScreenGui"@ {
            gui_rects(cs.last(), viewport())
        } else {
            Seq::empty()
        })
    }
}

/// The overlay: the `ScreenGui`s under each `StarterGui` under the root.
pub open spec fn overlay_rects(cs: Seq<Instance>) -> Seq<GuiRect>
    decreases cs.len(),
{
    if cs.len() == 0 {
        Seq::empty()
    } else {
        overlay_rects(cs.drop_last()) + (if cs.last().class_name@ == "StarterGui"@ {
            screen_rects(cs.last().children@)
        } else {
            Seq::empty()
        })
    }
}

fn floor_div_million(a: i128) -> (r: i128)
    requires
        -0x4000_0000_0000_0000_0000_0000_0000_0000 <= a <= 0x4000_0000_0000_0000_0000_0000_0000_0000,
    ensures
        r == a / 1_000_000,
{
    if a >= 0 {
        a / 1_000_000
    } else {
        let q = (-a + 999_999) / 1_000_000;
        assert(-q == a / 1_000_000) by (nonlinear_arith)
            requires
                a < 0,
                q == (-a + 999_999) / 1_000_000,
        ;
        -q
    }
}

fn scaled_exec(s: i64, len: i64) -> (r: i128)
    ensures
        r == scaled(s, len),
        -0x1000_0000_0000_0000_0000_0000_0000 <= r <= 0x1000_0000_0000_0000_0000_0000_0000,
{
    let a = s as i128;
    let b = len as i128;
    assert(-0x4000_0000_0000_0000_0000_0000_0000_0000 <= a * b <= 0x4000_0000_0000_0000_0000_0000_0000_0000)
        by (nonlinear_arith)
        requires
            -0x8000_0000_0000_0000 <= a <= 0x8000_0000_0000_0000,
            -0x8000_0000_0000_0000 <= b <= 0x8000_0000_0000_0000,
    ;
    let r = floor_div_million(a * b);
    assert(-0x1000_0000_0000_0000_0000_0000_0000 <= r <= 0x1000_0000_0000_0000_0000_0000_0000)
        by (nonlinear_arith)
        requires
            r == (a * b) / 1_000_000,
            -0x4000_0000_0000_0000_0000_0000_0000_0000 <= a * b <= 0x4000_0000_0000_0000_0000_0000_0000_0000,
    ;
    r
}

fn clamp64_i128(v: i128) -> (r: i64)
    ensures
        r == clamp64(v as int),
{
    if v > i64::MAX as i128 {
        i64::MAX
    } else if v < i64::MIN as i128 {
        i64::MIN
    } else {
        v as i64
    }
}

fn frame_area_exec(inst: &Instance, p: Area) -> (r: Area)
    ensures
        r == frame_area(*inst, p),
{
    let (x, y) = match inst.properties.get("Position") {
        Some(PropertyValue::UDim2(u)) => (
            clamp64_i128(p.x as i128 + scaled_exec(u.xs, p.w) + u.xo as i128 * 1_000_000),
            clamp64_i128(p.y as i128 + scaled_exec(u.ys, p.h) + u.yo as i128 * 1_000_000),
        ),
        _ => (p.x, p.y),
    };
    let (w, h) = match inst.properties.get("Size") {
        Some(PropertyValue::UDim2(u)) => (
            clamp64_i128(scaled_exec(u.xs, p.w) + u.xo as i128 * 1_000_000),
            clamp64_i128(scaled_exec(u.ys, p.h) + u.yo as i128 * 1_000_000),
        ),
        _ => (p.w, p.h),
    };
    Area { x, y, w, h }
}

fn pixel_len_exec(v: i64) -> (r: u32)
    ensures
        r == pixel_len(v),
{
    if v <= 0 {
        0
    } else if v / 1_000_000 > u32::MAX as i64 {
        u32::MAX
    } else {
        (v / 1_000_000) as u32
    }
}

fn gui_into(inst: &Instance, p: Area, out: &mut Vec<GuiRect>)
    ensures
        final(out)@ == old(out)@ + gui_rects(*inst, p),
    decreases inst,
{
    let ghost start = out@;
    let a = if str_eq(inst.class_name.as_str(), "Frame") {
        let a = frame_area_exec(inst, p);
        let c = color_exec(inst.properties.get("BackgroundColor3"), [255, 255, 255]);
        assert(seq![255u8, 255u8, 255u8] =~= [255u8, 255u8, 255u8]@);
        out.push(
            GuiRect {
                x: offset_exec(a.x),
                y: offset_exec(a.y),
                w: pixel_len_exec(a.w),
                h: pixel_len_exec(a.h),
                r: c[0],
                g: c[1],
                b: c[2],
            },
        );
        a
    } else {
        p
    };
    let ghost mid = out@;
    let mut i: usize = 0;
    while i < inst.children.len()
        invariant
            i <= inst.children@.len(),
            out@ == mid + gui_rects_list(inst.children@.subrange(0, i as int), a),
        decreases inst.children@.len() - i,
    {
        gui_into(&inst.children[i], a, out);
        assert(inst.children@.subrange(0, i + 1).drop_last() =~= inst.children@.subrange(
            0,
            i as int,
        ));
        assert(out@ =~= mid + gui_rects_list(inst.children@.subrange(0, i + 1), a));
        i = i + 1;
    }
    assert(inst.children@.subrange(0, i as int) =~= inst.children@);
    assert(out@ =~= start + gui_rects(*inst, p));
}

/// The rectangles of the 2D overlay, in drawing order.
pub fn layout_gui(root: &Instance) -> (r: Vec<GuiRect>)
    ensures
        r@ == overlay_rects(root.children@),
{
    let mut out: Vec<GuiRect> = Vec::new();
    let vp = Area { x: 0, y: 0, w: 800_000_000, h: 600_000_000 };
    let mut i: usize = 0;
    while i < root.children.len()
        invariant
            i <= root.children@.len(),
            vp == viewport(),
            out@ == overlay_rects(root.children@.subrange(0, i as int)),
        decreases root.children@.len() - i,
    {
        let c = &root.children[i];
        assert(root.children@.subrange(0, i + 1).drop_last() =~= root.children@.subrange(
            0,
            i as int,
        ));
        if str_eq(c.class_name.as_str(), "StarterGui") {
            let ghost before = out@;
            let mut j: usize = 0;
            while j < c.children.len()
                invariant
                    j <= c.children@.len(),
                    vp == viewport(),
                    out@ == before + screen_rects(c.children@.subrange(0, j as int)),
                decreases c.children@.len() - j,
            {
                let s = &c.children[j];
                assert(c.children@.subrange(0, j + 1).drop_last() =~= c.children@.subrange(
                    0,
                    j as int,
                ));
                if str_eq(s.class_name.as_str(), "ScreenGui") {
                    gui_into(s, vp, &mut out);
                }
                assert(out@ =~= before + screen_rects(c.children@.subrange(0, j + 1)));
                j = j + 1;
            }
            assert(c.children@.subrange(0, j as int) =~= c.children@);
        }
        assert(out@ =~= overlay_rects(root.children@.subrange(0, i + 1)));
        i = i + 1;
    }
    assert(root.children@.subrange(0, i as int) =~= root.children@);
    out
}

} // verus!
