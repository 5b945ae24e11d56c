//! Spatial enrichment: a part's world-space box, the hull over a subtree,
//! and the center of a box.

use vstd::prelude::*;
use crate::text::str_eq;
use crate::datamodel::{
    prop_get, translation_components, AabbWrapper, Instance, PropView, PropertyMap,
    PropertyValue, PropsView, Vec3Wrapper, UNIT,
};

verus! {

/// The classes that occupy space.
pub open spec fn is_part_class(c: Seq<char>) -> bool {
    c == "Part"@ || c == "BasePart"@
}

/// A part's size: its `Size`, else `(4, 1, 2)`.
pub open spec fn part_size(props: PropsView) -> Vec3Wrapper {
    match prop_get(props, "Size"@) {
        Some(PropView::Vector3(v)) => v,
        _ => Vec3Wrapper { x: 4_000_000, y: 1_000_000, z: 2_000_000 },
    }
}

/// A part's placement: its `CFrame`, else a translation to its `Position`.
pub open spec fn part_frame(props: PropsView) -> Option<Seq<i64>> {
    match prop_get(props, "CFrame"@) {
        Some(PropView::CFrame(_, c)) => Some(c),
        _ => match prop_get(props, "Position"@) {
            Some(PropView::Vector3(p)) => Some(translation_components(p.x, p.y, p.z)),
            _ => None,
        },
    }
}

/// A part's placement, the identity where it has none.
pub open spec fn frame_or_identity(props: PropsView) -> Seq<i64> {
    match part_frame(props) {
        Some(c) => c,
        None => translation_components(0, 0, 0),
    }
}

pub open spec fn abs(v: int) -> int {
    if v < 0 {
        -v
    } else {
        v
    }
}

/// Half the extent along world axis `i` of a box of size `s` placed by the
/// components `c`: the largest `|R_i . (±s/2)|` over the corners, which is
/// `sum_j |r_ij| * |s_j| / 2`, in millionths and rounded down.
pub open spec fn half_extent(c: Seq<i64>, s: Vec3Wrapper, i: int) -> int {
    (abs(c[3 + 3 * i] as int) * abs(s.x as int) + abs(c[4 + 3 * i] as int) * abs(s.y as int) + abs(
        c[5 + 3 * i] as int,
    ) * abs(s.z as int)) / 2_000_000
}

/// `v` held to the range of an `i64`.
pub open spec fn clamp64(v: int) -> i64 {
    if v > i64::MAX {
        i64::MAX
    } else if v < i64::MIN {
        i64::MIN
    } else {
        v as i64
    }
}

/// The world-space box of a part: the bounds of its eight transformed corners.
pub open spec fn part_box(props: PropsView) -> AabbWrapper {
    let c = frame_or_identity(props);
    let s = part_size(props);
    AabbWrapper {
        min: Vec3Wrapper {
            x: clamp64(c[0] - half_extent(c, s, 0)),
            y: clamp64(c[1] - half_extent(c, s, 1)),
            z: clamp64(c[2] - half_extent(c, s, 2)),
        },
        max: Vec3Wrapper {
            x: clamp64(c[0] + half_extent(c, s, 0)),
            y: clamp64(c[1] + half_extent(c, s, 1)),
            z: clamp64(c[2] + half_extent(c, s, 2)),
        },
    }
}

pub open spec fn min64(a: i64, b: i64) -> i64 {
    if a <= b {
        a
    } else {
        b
    }
}

pub open spec fn max64(a: i64, b: i64) -> i64 {
    if a >= b {
        a
    } else {
        b
    }
}

/// The smallest box holding both boxes.
pub open spec fn hull(a: AabbWrapper, b: AabbWrapper) -> AabbWrapper {
    AabbWrapper {
        min: Vec3Wrapper {
            x: min64(a.min.x, b.min.x),
            y: min64(a.min.y, b.min.y),
            z: min64(a.min.z, b.min.z),
        },
        max: Vec3Wrapper {
            x: max64(a.max.x, b.max.x),
            y: max64(a.max.y, b.max.y),
            z: max64(a.max.z, b.max.z),
        },
    }
}

/// The hull of whichever of the two boxes are present.
pub open spec fn merge(a: Option<AabbWrapper>, b: Option<AabbWrapper>) -> Option<AabbWrapper> {
    match (a, b) {
        (Some(x), Some(y)) => Some(hull(x, y)),
        (Some(x), None) => Some(x),
        (None, y) => y,
    }
}

/// The hull of the bounds that the children carry.
pub open spec fn children_hull(cs: Seq<Instance>) -> Option<AabbWrapper>
    decreases cs.len(),
{
    if cs.len() == 0 {
        None
    } else {
        merge(children_hull(cs.drop_last()), cs.last().world_bounds)
    }
}

/// The box that a node contributes itself: a part's box, else none.
pub open spec fn own_box(inst: Instance) -> Option<AabbWrapper> {
    if is_part_class(inst.class_name@) {
        Some(part_box(inst.properties@))
    } else {
        None
    }
}

/// A node's bounds: its own box merged with its children's bounds.
pub open spec fn expected_bounds(inst: Instance) -> Option<AabbWrapper> {
    merge(own_box(inst), children_hull(inst.children@))
}

/// The middle of a box, rounded down.
pub open spec fn center_of(b: AabbWrapper) -> Vec3Wrapper {
    Vec3Wrapper {
        x: ((b.min.x + b.max.x) / 2) as i64,
        y: ((b.min.y + b.max.y) / 2) as i64,
        z: ((b.min.z + b.max.z) / 2) as i64,
    }
}

pub open spec fn center_opt(b: Option<AabbWrapper>) -> Option<Vec3Wrapper> {
    match b {
        Some(x) => Some(center_of(x)),
        None => None,
    }
}

/// Whether a node's bounds and center are those its own box and its
/// children's bounds give.
pub open spec fn node_enriched(inst: Instance) -> bool {
    inst.world_bounds == expected_bounds(inst) && inst.center == center_opt(inst.world_bounds)
}

fn abs_u128(v: i64) -> (r: u128)
    ensures
        r == abs(v as int),
        r <= 0x8000_0000_0000_0000,
{
    if v >= 0 {
        v as u128
    } else {
        (-(v as i128)) as u128
    }
}

fn clamp64_exec(v: i128) -> (r: i64)
    ensures
        r == clamp64(v as int),
{
    if v > i64::MAX as i128 {
        i64::MAX
    } else if v < i64::MIN as i128 {
        i64::MIN
    } else {
        v as i64
    }
}

fn mul_abs(a: i64, b: i64) -> (r: u128)
    ensures
        r == abs(a as int) * abs(b as int),
        r <= 0x4000_0000_0000_0000_0000_0000_0000_0000,
{
    let x = abs_u128(a);
    let y = abs_u128(b);
    assert(x * y <= 0x4000_0000_0000_0000_0000_0000_0000_0000) by (nonlinear_arith)
        requires
            x <= 0x8000_0000_0000_0000,
            y <= 0x8000_0000_0000_0000,
    ;
    x * y
}

fn half_extent_exec(c: &[i64; 12], s: &Vec3Wrapper, i: usize) -> (r: i128)
    requires
        i < 3,
    ensures
        r == half_extent(c@, *s, i as int),
        0 <= r <= 0x1_0000_0000_0000_0000_0000_0000_0000,
{
    let sum: u128 = mul_abs(c[3 + 3 * i], s.x) + mul_abs(c[4 + 3 * i], s.y) + mul_abs(
        c[5 + 3 * i],
        s.z,
    );
    assert(sum / 2_000_000 <= 0x1_0000_0000_0000_0000_0000_0000_0000) by (nonlinear_arith)
        requires
            sum <= 0xC000_0000_0000_0000_0000_0000_0000_0000,
    ;
    (sum / 2_000_000) as i128
}

/// The placement of a part, the identity where it has none.
fn frame_exec(props: &PropertyMap) -> (r: [i64; 12])
    ensures
        r@ == frame_or_identity(props@),
{
    let c = match props.get("CFrame") {
        Some(PropertyValue::CFrame(cf)) => cf.components,
        _ => match props.get("Position") {
            Some(PropertyValue::Vector3(p)) => [p.x, p.y, p.z, UNIT, 0, 0, 0, UNIT, 0, 0, 0, UNIT],
            _ => [0, 0, 0, UNIT, 0, 0, 0, UNIT, 0, 0, 0, UNIT],
        },
    };
    assert(c@ =~= frame_or_identity(props@));
    c
}

fn size_exec(props: &PropertyMap) -> (r: Vec3Wrapper)
    ensures
        r == part_size(props@),
{
    match props.get("Size") {
        Some(PropertyValue::Vector3(v)) => *v,
        _ => Vec3Wrapper { x: 4 * UNIT, y: UNIT, z: 2 * UNIT },
    }
}

/// The world-space box of a part with these properties.
pub fn part_box_exec(props: &PropertyMap) -> (r: AabbWrapper)
    ensures
        r == part_box(props@),
{
    let c = frame_exec(props);
    let s = size_exec(props);
    let ex = half_extent_exec(&c, &s, 0);
    let ey = half_extent_exec(&c, &s, 1);
    let ez = half_extent_exec(&c, &s, 2);
    AabbWrapper {
        min: Vec3Wrapper {
            x: clamp64_exec(c[0] as i128 - ex),
            y: clamp64_exec(c[1] as i128 - ey),
            z: clamp64_exec(c[2] as i128 - ez),
        },
        max: Vec3Wrapper {
            x: clamp64_exec(c[0] as i128 + ex),
            y: clamp64_exec(c[1] as i128 + ey),
            z: clamp64_exec(c[2] as i128 + ez),
        },
    }
}

fn hull_exec(a: &AabbWrapper, b: &AabbWrapper) -> (r: AabbWrapper)
    ensures
        r == hull(*a, *b),
{
    AabbWrapper {
        min: Vec3Wrapper {
            x: if a.min.x <= b.min.x { a.min.x } else { b.min.x },
            y: if a.min.y <= b.min.y { a.min.y } else { b.min.y },
            z: if a.min.z <= b.min.z { a.min.z } else { b.min.z },
        },
        max: Vec3Wrapper {
            x: if a.max.x >= b.max.x { a.max.x } else { b.max.x },
            y: if a.max.y >= b.max.y { a.max.y } else { b.max.y },
            z: if a.max.z >= b.max.z { a.max.z } else { b.max.z },
        },
    }
}

fn merge_exec(a: Option<AabbWrapper>, b: Option<AabbWrapper>) -> (r: Option<AabbWrapper>)
    ensures
        r == merge(a, b),
{
    match (a, b) {
        (Some(x), Some(y)) => Some(hull_exec(&x, &y)),
        (Some(x), None) => Some(x),
        (None, y) => y,
    }
}

fn mid(a: i64, b: i64) -> (r: i64)
    ensures
        r == (a + b) / 2,
{
    let s = a as i128 + b as i128;
    if s >= 0 {
        (s / 2) as i64
    } else {
        (-((-s + 1) / 2)) as i64
    }
}

/// The middle of a box.
pub fn center_of_exec(b: &AabbWrapper) -> (r: Vec3Wrapper)
    ensures
        r == center_of(*b),
{
    Vec3Wrapper { x: mid(b.min.x, b.max.x), y: mid(b.min.y, b.max.y), z: mid(b.min.z, b.max.z) }
}

/// Sets one node's bounds and center from its own box and the bounds that
/// its children already carry; nothing else changes. The loader calls it
/// on each node once that node's children are built.
pub fn enrich_node(inst: &mut Instance)
    ensures
        *final(inst) == (Instance {
            world_bounds: final(inst).world_bounds,
            center: final(inst).center,
            ..*old(inst)
        }),
        node_enriched(*final(inst)),
{
    let mut acc: Option<AabbWrapper> = None;
    let mut i: usize = 0;
    while i < inst.children.len()
        invariant
            i <= inst.children@.len(),
            acc == children_hull(inst.children@.subrange(0, i as int)),
        decreases inst.children@.len() - i,
    {
        assert(inst.children@.subrange(0, i + 1).drop_last() =~= inst.children@.subrange(
            0,
            i as int,
        ));
        acc = merge_exec(acc, inst.children[i].world_bounds);
        i = i + 1;
    }
    assert(inst.children@.subrange(0, i as int) =~= inst.children@);
    let own = if str_eq(inst.class_name.as_str(), "Part") || str_eq(
        inst.class_name.as_str(),
        "BasePart",
    ) {
        Some(part_box_exec(&inst.properties))
    } else {
        None
    };
    let b = merge_exec(own, acc);
    inst.world_bounds = b;
    inst.center = match b {
        Some(x) => Some(center_of_exec(&x)),
        None => None,
    };
}


/// Whether every node of a tree carries the bounds and center that its own
/// box and its children's bounds give.
pub open spec fn tree_enriched(inst: Instance) -> bool
    decreases inst, 1nat,
{
    node_enriched(inst) && list_enriched(inst.children@)
}

pub open spec fn list_enriched(cs: Seq<Instance>) -> bool
    decreases cs, cs.len(),
{
    cs.len() == 0 || (list_enriched(cs.drop_last()) && tree_enriched(cs.last()))
}

/// The hull of the boxes of all parts in a tree, the node itself included,
/// computed from the parts alone.
pub open spec fn parts_hull(inst: Instance) -> Option<AabbWrapper>
    decreases inst, 1nat,
{
    merge(own_box(inst), list_parts_hull(inst.children@))
}

pub open spec fn list_parts_hull(cs: Seq<Instance>) -> Option<AabbWrapper>
    decreases cs, cs.len(),
{
    if cs.len() == 0 {
        None
    } else {
        merge(list_parts_hull(cs.drop_last()), parts_hull(cs.last()))
    }
}

proof fn lemma_list_bounds(cs: Seq<Instance>)
    requires
        list_enriched(cs),
    ensures
        children_hull(cs) == list_parts_hull(cs),
    decreases cs, cs.len(),
{
    if cs.len() > 0 {
        lemma_list_bounds(cs.drop_last());
        lemma_enriched_bounds(cs.last());
    }
}

/// In a tree whose nodes all carry their derived data, a node's bounds are
/// the hull of the boxes of the parts in its subtree (itself included), and
/// its center is the middle of those bounds.
pub proof fn lemma_enriched_bounds(inst: Instance)
    requires
        tree_enriched(inst),
    ensures
        inst.world_bounds == parts_hull(inst),
        inst.center == center_opt(inst.world_bounds),
    decreases inst, 1nat,
{
    lemma_list_bounds(inst.children@);
}


/// Whether two trees agree in everything but bounds and centers: ids,
/// names, classes, properties, paths, and children in the same order.
pub open spec fn same_shape(a: Instance, b: Instance) -> bool
    decreases a, 1nat,
{
    &&& a.id == b.id
    &&& a.name@ == b.name@
    &&& a.class_name@ == b.class_name@
    &&& a.properties@ == b.properties@
    &&& a.full_path@ == b.full_path@
    &&& same_shapes(a.children@, b.children@)
}

pub open spec fn same_shapes(a: Seq<Instance>, b: Seq<Instance>) -> bool
    decreases a, a.len(),
{
    a.len() == b.len() && (a.len() == 0 || (same_shapes(a.drop_last(), b.drop_last())
        && same_shape(a.last(), b.last())))
}

/// The enrichment pass over a whole tree, bottom-up: every node gets the
/// bounds and center that its own box and its subtree's parts give, and
/// nothing else changes. Returns the node's bounds.
pub fn compute_derived_data(inst: &mut Instance) -> (r: Option<AabbWrapper>)
    ensures
        same_shape(*final(inst), *old(inst)),
        tree_enriched(*final(inst)),
        r == final(inst).world_bounds,
        r == parts_hull(*old(inst)),
    decreases *old(inst),
{
    let mut cs: Vec<Instance> = Vec::new();
    std::mem::swap(&mut inst.children, &mut cs);
    let ghost oc = cs@;
    assert(oc == old(inst).children@);
    assert(oc.len() == cs.len());
    let mut out: Vec<Instance> = Vec::new();
    let mut i: usize = 0;
    assert(oc.subrange(0, oc.len() as int) =~= oc);
    while cs.len() > 0
        invariant
            i <= oc.len(),
            oc.len() <= usize::MAX,
            oc == old(inst).children@,
            cs@ == oc.subrange(i as int, oc.len() as int),
            same_shapes(out@, oc.subrange(0, i as int)),
            list_enriched(out@),
            children_hull(out@) == list_parts_hull(oc.subrange(0, i as int)),
        decreases cs.len(),
    {
        let mut c = cs.remove(0);
        assert(c == oc[i as int]);
        compute_derived_data(&mut c);
        let ghost before = out@;
        out.push(c);
        assert(out@.drop_last() =~= before);
        assert(oc.subrange(0, i + 1).drop_last() =~= oc.subrange(0, i as int));
        assert(cs@ =~= oc.subrange(i + 1, oc.len() as int));
        i = i + 1;
    }
    assert(i == oc.len());
    assert(oc.subrange(0, i as int) =~= oc);
    inst.children = out;
    enrich_node(inst);
    inst.world_bounds
}


/// A node that is no part itself and has a single child carries that
/// child's bounds and center (a folder holding one positioned part has the
/// part's bounds).
pub proof fn lemma_single_child_bounds(g: Instance)
    requires
        node_enriched(g),
        !is_part_class(g.class_name@),
        g.children@.len() == 1,
        node_enriched(g.children@[0]),
    ensures
        g.world_bounds == g.children@[0].world_bounds,
        g.center == g.children@[0].center,
{
    assert(g.children@.drop_last() =~= Seq::<Instance>::empty());
    assert(children_hull(g.children@.drop_last()) is None);
    assert(g.children@.last() == g.children@[0]);
    assert(children_hull(g.children@) == g.children@[0].world_bounds);
    assert(own_box(g) is None);
}

} // verus!
