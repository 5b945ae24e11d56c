//! The structured diff between two scene trees, keyed by path.

use vstd::prelude::*;
use crate::datamodel::{
    key_index, keys_unique, lemma_key_index_unique, prop_get, Instance, PropView, PropsView, Vec3Wrapper,
};
use crate::text::{str_eq, string_from};
use crate::valuetext::{value_text, value_text_exec};

verus! {

/// How one property differs: the old and new values' canonical texts
/// (`null` for a property that the old side lacks).
#[derive(Debug)]
pub struct PropertyChange {
    pub old: String,
    pub new: String,
}

/// A move of a node's center by more than a thousandth.
#[derive(Clone, Copy, Debug, PartialEq, Eq, Structural)]
pub struct SpatialChange {
    pub old_center: Vec3Wrapper,
    pub new_center: Vec3Wrapper,
    /// The distance between the centers in millionths, rounded down;
    /// `u64::MAX` where a coordinate moved by `2^62` millionths or more.
    pub displacement: u64,
}

/// How one node present on both sides differs.
#[derive(Debug)]
pub struct InstanceDiff {
    pub path: String,
    /// In the order of the new side's properties.
    pub property_changes: Vec<(String, PropertyChange)>,
    pub spatial_change: Option<SpatialChange>,
}

#[derive(Debug)]
pub struct DiffChanges {
    pub added_instances: Vec<String>,
    pub removed_instances: Vec<String>,
    pub modified_instances: Vec<InstanceDiff>,
}

/// The structured difference between two scene trees.
#[derive(Debug)]
pub struct DiffReport {
    pub schema_version: String,
    /// `"changed"` or `"unchanged"`.
    pub status: String,
    pub changes: DiffChanges,
}

/// The nodes of a tree, depth first, each before its children.
pub open spec fn flatten(inst: Instance) -> Seq<Instance>
    decreases inst, 1nat,
{
    seq![inst] + flatten_list(inst.children@)
}

/// The nodes of a list of trees, depth first.
pub open spec fn flatten_list(cs: Seq<Instance>) -> Seq<Instance>
    decreases cs, cs.len(),
{
    if cs.len() == 0 {
        Seq::empty()
    } else {
        flatten_list(cs.drop_last()) + flatten(cs.last())
    }
}

pub open spec fn paths_of(flat: Seq<Instance>) -> Seq<Seq<char>> {
    flat.map_values(|i: Instance| i.full_path@)
}

/// Whether node `j` is the last with its path (the one a path names).
pub open spec fn is_rep(flat: Seq<Instance>, j: int) -> bool {
    forall|t: int| j < t < flat.len() ==> #[trigger] flat[t].full_path@ != flat[j].full_path@
}

/// The position of the last node with path `p`.
pub open spec fn last_with_path(flat: Seq<Instance>, p: Seq<char>) -> Option<int>
    decreases flat.len(),
{
    if flat.len() == 0 {
        None
    } else if flat.last().full_path@ == p {
        Some(flat.len() - 1)
    } else {
        last_with_path(flat.drop_last(), p)
    }
}

/// The paths of the first `n` nodes of `a` that `b` lacks, each path once.
pub open spec fn missing_paths(a: Seq<Instance>, b: Seq<Instance>, n: nat) -> Seq<Seq<char>>
    decreases n,
{
    if n == 0 {
        Seq::empty()
    } else {
        let j = n - 1;
        let rest = missing_paths(a, b, (n - 1) as nat);
        if is_rep(a, j) && last_with_path(b, a[j].full_path@) is None {
            rest.push(a[j].full_path@)
        } else {
            rest
        }
    }
}

pub open spec fn null_text() -> Seq<char> {
    "null"@
}

/// The property changes from `o` to `n` over the first `k` properties of `n`.
pub open spec fn prop_changes(o: PropsView, n: PropsView, k: nat) -> Seq<
    (Seq<char>, Seq<char>, Seq<char>),
>
    decreases k,
{
    if k == 0 {
        Seq::empty()
    } else {
        let rest = prop_changes(o, n, (k - 1) as nat);
        let (name, v) = n[k - 1];
        match prop_get(o, name) {
            Some(ov) => if ov != v {
                rest.push((name, value_text(ov), value_text(v)))
            } else {
                rest
            },
            None => rest.push((name, null_text(), value_text(v))),
        }
    }
}

/// Whether two centers lie more than a thousandth apart: the squared
/// distance, in millionths squared, exceeds `1000 * 1000`.
pub open spec fn moved(a: Vec3Wrapper, b: Vec3Wrapper) -> bool {
    let dx = b.x - a.x;
    let dy = b.y - a.y;
    let dz = b.z - a.z;
    dx * dx + dy * dy + dz * dz > 1_000_000
}

/// The squared distance between two points, in millionths squared.
pub open spec fn sq_dist(a: Vec3Wrapper, b: Vec3Wrapper) -> int {
    (b.x - a.x) * (b.x - a.x) + (b.y - a.y) * (b.y - a.y) + (b.z - a.z) * (b.z - a.z)
}

/// Whether `d` is the square root of `s`, rounded down.
pub open spec fn is_isqrt(d: int, s: int) -> bool {
    0 <= d && d * d <= s < (d + 1) * (d + 1)
}

/// Whether every coordinate differs by less than `2^62` millionths.
pub open spec fn small_delta(a: Vec3Wrapper, b: Vec3Wrapper) -> bool {
    let k = 0x4000_0000_0000_0000int;
    -k < b.x - a.x < k && -k < b.y - a.y < k && -k < b.z - a.z < k
}

/// The distance between two centers in millionths, rounded down.
pub open spec fn displacement_of(a: Vec3Wrapper, b: Vec3Wrapper) -> u64 {
    if small_delta(a, b) {
        choose|d: u64| is_isqrt(d as int, sq_dist(a, b))
    } else {
        u64::MAX
    }
}

proof fn lemma_isqrt_unique(d1: int, d2: int, s: int)
    requires
        is_isqrt(d1, s),
        is_isqrt(d2, s),
    ensures
        d1 == d2,
{
    if d1 < d2 {
        assert((d1 + 1) * (d1 + 1) <= d2 * d2) by (nonlinear_arith)
            requires
                0 <= d1 < d2,
        ;
    } else if d2 < d1 {
        assert((d2 + 1) * (d2 + 1) <= d1 * d1) by (nonlinear_arith)
            requires
                0 <= d2 < d1,
        ;
    }
}

/// The square root of `s`, rounded down.
fn isqrt(s: u128) -> (d: u64)
    requires
        s < 0x4000_0000_0000_0000_0000_0000_0000_0000,
    ensures
        is_isqrt(d as int, s as int),
{
    let mut lo: u128 = 0;
    let mut hi: u128 = 0x8000_0000_0000_0000;
    assert(hi * hi == 0x4000_0000_0000_0000_0000_0000_0000_0000) by (nonlinear_arith)
        requires
            hi == 0x8000_0000_0000_0000,
    ;
    while hi - lo > 1
        invariant
            lo < hi <= 0x8000_0000_0000_0000,
            lo * lo <= s,
            s < hi * hi,
        decreases hi - lo,
    {
        let mid = lo + (hi - lo) / 2;
        assert(mid * mid < 0x4000_0000_0000_0000_0000_0000_0000_0000) by (nonlinear_arith)
            requires
                mid < 0x8000_0000_0000_0000,
        ;
        if mid * mid <= s {
            lo = mid;
        } else {
            hi = mid;
        }
    }
    assert(hi == lo + 1);
    lo as u64
}

pub open spec fn spatial_of(o: Instance, n: Instance) -> Option<SpatialChange> {
    match (o.center, n.center) {
        (Some(a), Some(b)) => if moved(a, b) {
            Some(
                SpatialChange { old_center: a, new_center: b, displacement: displacement_of(a, b) },
            )
        } else {
            None
        },
        _ => None,
    }
}

/// A node diff as the contracts see it.
pub type DiffView = (Seq<char>, Seq<(Seq<char>, Seq<char>, Seq<char>)>, Option<SpatialChange>);

pub open spec fn diff_view(d: InstanceDiff) -> DiffView {
    (
        d.path@,
        d.property_changes@.map_values(
            |c: (String, PropertyChange)| (c.0@, c.1.old@, c.1.new@),
        ),
        d.spatial_change,
    )
}

/// The diffs of the first `m` nodes of `nf` that `of` also has, where
/// something changed.
pub open spec fn modified(of: Seq<Instance>, nf: Seq<Instance>, m: nat) -> Seq<DiffView>
    decreases m,
{
    if m == 0 {
        Seq::empty()
    } else {
        let j = m - 1;
        let rest = modified(of, nf, (m - 1) as nat);
        let n = nf[j];
        if is_rep(nf, j) {
            match last_with_path(of, n.full_path@) {
                Some(i) => {
                    let pc = prop_changes(of[i].properties@, n.properties@, n.properties@.len());
                    let sc = spatial_of(of[i], n);
                    if pc.len() > 0 || sc is Some {
                        rest.push((n.full_path@, pc, sc))
                    } else {
                        rest
                    }
                },
                None => rest,
            }
        } else {
            rest
        }
    }
}

pub open spec fn strings_view(v: Seq<String>) -> Seq<Seq<char>> {
    v.map_values(|s: String| s@)
}


pub open spec fn derefs(v: Seq<&Instance>) -> Seq<Instance> {
    v.map_values(|r: &Instance| *r)
}

fn flatten_into<'a>(inst: &'a Instance, out: &mut Vec<&'a Instance>)
    ensures
        derefs(final(out)@) == derefs(old(out)@) + flatten(*inst),
    decreases inst,
{
    let ghost start = derefs(out@);
    out.push(inst);
    assert(derefs(out@) =~= start + seq![*inst]);
    let mut i: usize = 0;
    while i < inst.children.len()
        invariant
            i <= inst.children@.len(),
            derefs(out@) == start + seq![*inst] + flatten_list(inst.children@.subrange(0, i as int)),
        decreases inst.children@.len() - i,
    {
        let ghost before = derefs(out@);
        flatten_into(&inst.children[i], out);
        assert(inst.children@.subrange(0, i + 1).drop_last() =~= inst.children@.subrange(
            0,
            i as int,
        ));
        assert(derefs(out@) =~= start + seq![*inst] + flatten_list(
            inst.children@.subrange(0, i + 1),
        ));
        i = i + 1;
    }
    assert(inst.children@.subrange(0, i as int) =~= inst.children@);
    assert(derefs(out@) =~= start + flatten(*inst));
}

fn flatten_exec<'a>(inst: &'a Instance) -> (r: Vec<&'a Instance>)
    ensures
        derefs(r@) == flatten(*inst),
{
    let mut out: Vec<&'a Instance> = Vec::new();
    flatten_into(inst, &mut out);
    assert(derefs(out@) =~= flatten(*inst));
    out
}

fn is_rep_exec(flat: &Vec<&Instance>, j: usize) -> (r: bool)
    requires
        j < flat.len(),
    ensures
        r == is_rep(derefs(flat@), j as int),
{
    let ghost f = derefs(flat@);
    let mut t = j + 1;
    while t < flat.len()
        invariant
            j < t <= flat.len(),
            f == derefs(flat@),
            forall|u: int| j < u < t ==> #[trigger] f[u].full_path@ != f[j as int].full_path@,
        decreases flat.len() - t,
    {
        if str_eq(flat[t].full_path.as_str(), flat[j].full_path.as_str()) {
            assert(f[t as int].full_path@ == f[j as int].full_path@);
            return false;
        }
        t = t + 1;
    }
    true
}

fn last_with_path_exec(flat: &Vec<&Instance>, p: &str) -> (r: Option<usize>)
    ensures
        match r {
            Some(i) => last_with_path(derefs(flat@), p@) == Some(i as int) && i < flat.len(),
            None => last_with_path(derefs(flat@), p@) is None,
        },
{
    let ghost f = derefs(flat@);
    let mut i = flat.len();
    assert(f.subrange(0, i as int) =~= f);
    while i > 0
        invariant
            i <= flat.len(),
            f == derefs(flat@),
            last_with_path(f, p@) == last_with_path(f.subrange(0, i as int), p@),
        decreases i,
    {
        assert(f.subrange(0, i as int).drop_last() =~= f.subrange(0, i - 1));
        if str_eq(flat[i - 1].full_path.as_str(), p) {
            return Some(i - 1);
        }
        i = i - 1;
    }
    None
}

fn missing_paths_exec(a: &Vec<&Instance>, b: &Vec<&Instance>) -> (r: Vec<String>)
    ensures
        strings_view(r@) == missing_paths(derefs(a@), derefs(b@), a@.len() as nat),
{
    let mut out: Vec<String> = Vec::new();
    let mut j: usize = 0;
    while j < a.len()
        invariant
            j <= a.len(),
            strings_view(out@) == missing_paths(derefs(a@), derefs(b@), j as nat),
        decreases a.len() - j,
    {
        if is_rep_exec(a, j) && last_with_path_exec(b, a[j].full_path.as_str()).is_none() {
            let ghost before = out@;
            out.push(a[j].full_path.clone());
            assert(strings_view(out@) =~= strings_view(before).push(a[j as int].full_path@));
        }
        j = j + 1;
    }
    out
}

fn prop_changes_exec(o: &crate::datamodel::PropertyMap, n: &crate::datamodel::PropertyMap) -> (r:
    Vec<(String, PropertyChange)>)
    ensures
        r@.map_values(|c: (String, PropertyChange)| (c.0@, c.1.old@, c.1.new@)) == prop_changes(
            o@,
            n@,
            n@.len() as nat,
        ),
{
    let mut out: Vec<(String, PropertyChange)> = Vec::new();
    let mut k: usize = 0;
    while k < n.entries.len()
        invariant
            k <= n@.len(),
            n@.len() == n.entries@.len(),
            out@.map_values(|c: (String, PropertyChange)| (c.0@, c.1.old@, c.1.new@))
                == prop_changes(o@, n@, k as nat),
        decreases n@.len() - k,
    {
        let name = &n.entries[k].0;
        let v = &n.entries[k].1;
        let ghost before = out@;
        match o.get(name.as_str()) {
            Some(ov) => {
                if !ov.same_as(v) {
                    let ch = PropertyChange {
                        old: string_from(&value_text_exec(ov)),
                        new: string_from(&value_text_exec(v)),
                    };
                    out.push((name.clone(), ch));
                }
            },
            None => {
                let ch = PropertyChange {
                    old: String::from_str("null"),
                    new: string_from(&value_text_exec(v)),
                };
                out.push((name.clone(), ch));
            },
        }
        assert(out@.map_values(|c: (String, PropertyChange)| (c.0@, c.1.old@, c.1.new@))
            =~= prop_changes(o@, n@, (k + 1) as nat));
        k = k + 1;
    }
    out
}

fn moved_exec(a: &Vec3Wrapper, b: &Vec3Wrapper) -> (r: bool)
    ensures
        r == moved(*a, *b),
{
    let dx = b.x as i128 - a.x as i128;
    let dy = b.y as i128 - a.y as i128;
    let dz = b.z as i128 - a.z as i128;
    if dx > 1000 || dx < -1000 || dy > 1000 || dy < -1000 || dz > 1000 || dz < -1000 {
        assert(dx * dx + dy * dy + dz * dz > 1_000_000) by (nonlinear_arith)
            requires
                dx > 1000 || dx < -1000 || dy > 1000 || dy < -1000 || dz > 1000 || dz < -1000,
        ;
        return true;
    }
    assert(0 <= dx * dx <= 1_000_000 && 0 <= dy * dy <= 1_000_000 && 0 <= dz * dz <= 1_000_000)
        by (nonlinear_arith)
        requires
            -1000 <= dx <= 1000,
            -1000 <= dy <= 1000,
            -1000 <= dz <= 1000,
    ;
    dx * dx + dy * dy + dz * dz > 1_000_000
}

fn displacement_exec(a: &Vec3Wrapper, b: &Vec3Wrapper) -> (r: u64)
    ensures
        r == displacement_of(*a, *b),
{
    let k: i128 = 0x4000_0000_0000_0000;
    let dx = b.x as i128 - a.x as i128;
    let dy = b.y as i128 - a.y as i128;
    let dz = b.z as i128 - a.z as i128;
    if !(-k < dx && dx < k && -k < dy && dy < k && -k < dz && dz < k) {
        return u64::MAX;
    }
    assert(0 <= dx * dx < 0x1000_0000_0000_0000_0000_0000_0000_0000 && 0 <= dy * dy
        < 0x1000_0000_0000_0000_0000_0000_0000_0000 && 0 <= dz * dz
        < 0x1000_0000_0000_0000_0000_0000_0000_0000) by (nonlinear_arith)
        requires
            -0x4000_0000_0000_0000 < dx < 0x4000_0000_0000_0000,
            -0x4000_0000_0000_0000 < dy < 0x4000_0000_0000_0000,
            -0x4000_0000_0000_0000 < dz < 0x4000_0000_0000_0000,
    ;
    let s = (dx * dx + dy * dy + dz * dz) as u128;
    let d = isqrt(s);
    proof {
        assert(is_isqrt(d as int, sq_dist(*a, *b)));
        let c = choose|e: u64| is_isqrt(e as int, sq_dist(*a, *b));
        lemma_isqrt_unique(c as int, d as int, sq_dist(*a, *b));
    }
    d
}

fn spatial_exec(o: &Instance, n: &Instance) -> (r: Option<SpatialChange>)
    ensures
        r == spatial_of(*o, *n),
{
    match (o.center, n.center) {
        (Some(a), Some(b)) => if moved_exec(&a, &b) {
            Some(SpatialChange { old_center: a, new_center: b, displacement: displacement_exec(&a, &b) })
        } else {
            None
        },
        _ => None,
    }
}

fn modified_exec(of: &Vec<&Instance>, nf: &Vec<&Instance>) -> (r: Vec<InstanceDiff>)
    ensures
        r@.map_values(|d: InstanceDiff| diff_view(d)) == modified(
            derefs(of@),
            derefs(nf@),
            nf@.len() as nat,
        ),
{
    let mut out: Vec<InstanceDiff> = Vec::new();
    let mut j: usize = 0;
    while j < nf.len()
        invariant
            j <= nf.len(),
            out@.map_values(|d: InstanceDiff| diff_view(d)) == modified(
                derefs(of@),
                derefs(nf@),
                j as nat,
            ),
        decreases nf.len() - j,
    {
        let ghost before = out@;
        let n = nf[j];
        if is_rep_exec(nf, j) {
            if let Some(i) = last_with_path_exec(of, n.full_path.as_str()) {
                let pc = prop_changes_exec(&of[i].properties, &n.properties);
                let sc = spatial_exec(of[i], n);
                if pc.len() > 0 || sc.is_some() {
                    out.push(
                        InstanceDiff { path: n.full_path.clone(), property_changes: pc, spatial_change: sc },
                    );
                }
            }
        }
        assert(out@.map_values(|d: InstanceDiff| diff_view(d)) =~= modified(
            derefs(of@),
            derefs(nf@),
            (j + 1) as nat,
        ));
        j = j + 1;
    }
    out
}

/// Whether a report that holds these lists says `changed`.
pub open spec fn status_of(added: nat, removed: nat, modified: nat) -> Seq<char> {
    if added > 0 || removed > 0 || modified > 0 {
        "changed"@
    } else {
        "unchanged"@
    }
}

/// Compares two trees by path: the paths only the new tree has, those only
/// the old tree has, and for each path both have, what changed in its
/// properties and whether its center moved.
pub fn compare_worlds(old: &Instance, new: &Instance) -> (r: DiffReport)
    ensures
        strings_view(r.changes.added_instances@) == missing_paths(
            flatten(*new),
            flatten(*old),
            flatten(*new).len(),
        ),
        strings_view(r.changes.removed_instances@) == missing_paths(
            flatten(*old),
            flatten(*new),
            flatten(*old).len(),
        ),
        r.changes.modified_instances@.map_values(|d: InstanceDiff| diff_view(d)) == modified(
            flatten(*old),
            flatten(*new),
            flatten(*new).len(),
        ),
        r.schema_version@ == "1.0"@,
        r.status@ == status_of(
            r.changes.added_instances@.len(),
            r.changes.removed_instances@.len(),
            r.changes.modified_instances@.len(),
        ),
{
    let of = flatten_exec(old);
    let nf = flatten_exec(new);
    let added = missing_paths_exec(&nf, &of);
    let removed = missing_paths_exec(&of, &nf);
    let modified = modified_exec(&of, &nf);
    let status = if added.len() > 0 || removed.len() > 0 || modified.len() > 0 {
        String::from_str("changed")
    } else {
        String::from_str("unchanged")
    };
    DiffReport {
        schema_version: String::from_str("1.0"),
        status,
        changes: DiffChanges {
            added_instances: added,
            removed_instances: removed,
            modified_instances: modified,
        },
    }
}


proof fn lemma_last_with_path(flat: Seq<Instance>, p: Seq<char>)
    ensures
        last_with_path(flat, p) matches Some(i) ==> 0 <= i < flat.len() && flat[i].full_path@ == p
            && forall|t: int| i < t < flat.len() ==> #[trigger] flat[t].full_path@ != p,
        last_with_path(flat, p) is None ==> forall|t: int|
            0 <= t < flat.len() ==> #[trigger] flat[t].full_path@ != p,
    decreases flat.len(),
{
    if flat.len() > 0 {
        let d = flat.drop_last();
        lemma_last_with_path(d, p);
        assert forall|t: int| 0 <= t < d.len() implies #[trigger] d[t] == flat[t] by {}
        if flat.last().full_path@ != p {
            assert forall|t: int| 0 <= t < flat.len() - 1 implies #[trigger] flat[t].full_path@
                == d[t].full_path@ by {}
        }
    }
}

proof fn lemma_no_missing_self(f: Seq<Instance>, n: nat)
    requires
        n <= f.len(),
    ensures
        missing_paths(f, f, n).len() == 0,
    decreases n,
{
    if n > 0 {
        lemma_no_missing_self(f, (n - 1) as nat);
        lemma_last_with_path(f, f[n - 1].full_path@);
    }
}

proof fn lemma_no_prop_changes_self(m: PropsView, k: nat)
    requires
        keys_unique(m),
        k <= m.len(),
    ensures
        prop_changes(m, m, k).len() == 0,
    decreases k,
{
    if k > 0 {
        lemma_no_prop_changes_self(m, (k - 1) as nat);
        lemma_key_index_unique(m, m[k - 1].0, k - 1);
    }
}

proof fn lemma_no_modified_self(f: Seq<Instance>, n: nat)
    requires
        n <= f.len(),
        forall|j: int| 0 <= j < f.len() ==> keys_unique((#[trigger] f[j]).properties@),
    ensures
        modified(f, f, n).len() == 0,
    decreases n,
{
    if n > 0 {
        let j = n - 1;
        lemma_no_modified_self(f, (n - 1) as nat);
        lemma_last_with_path(f, f[j].full_path@);
        if is_rep(f, j) {
            let i = last_with_path(f, f[j].full_path@)->0;
            if i < j {
                assert(f[j].full_path@ != f[j].full_path@);
            } else if i > j {
                assert(f[i].full_path@ != f[j].full_path@);
            }
            assert(i == j);
            lemma_no_prop_changes_self(f[j].properties@, f[j].properties@.len());
        }
    }
}

/// Comparing a tree with itself finds nothing: no added, no removed and no
/// modified paths, so the report says `unchanged`.
pub proof fn lemma_compare_identical(t: Instance)
    requires
        forall|j: int| 0 <= j < flatten(t).len() ==> (#[trigger] flatten(t)[j]).properties.wf(),
    ensures
        missing_paths(flatten(t), flatten(t), flatten(t).len()).len() == 0,
        modified(flatten(t), flatten(t), flatten(t).len()).len() == 0,
        status_of(0, 0, 0) == "unchanged"@,
{
    let f = flatten(t);
    lemma_no_missing_self(f, f.len());
    assert forall|j: int| 0 <= j < f.len() implies keys_unique((#[trigger] f[j]).properties@) by {
        assert(f[j].properties.wf());
    }
    lemma_no_modified_self(f, f.len());
}

/// A center moves (and the diff records it) exactly when the two centers
/// lie more than a thousandth apart; a displacement of a thousandth or
/// less is no spatial change.
pub proof fn lemma_spatial_threshold(o: Instance, n: Instance, a: Vec3Wrapper, b: Vec3Wrapper)
    requires
        o.center == Some(a),
        n.center == Some(b),
    ensures
        spatial_of(o, n) matches Some(c) ==> c.displacement == displacement_of(a, b),
        spatial_of(o, n) is Some <==> (b.x - a.x) * (b.x - a.x) + (b.y - a.y) * (b.y - a.y) + (b.z
            - a.z) * (b.z - a.z) > 1000 * 1000,
{
}

/// Two property lists that differ in the value at one position only give
/// exactly one property change, which records the old and the new value.
pub proof fn lemma_single_property_change(m: PropsView, i: int, v: PropView)
    requires
        keys_unique(m),
        0 <= i < m.len(),
        m[i].1 != v,
    ensures
        prop_changes(m, m.update(i, (m[i].0, v)), m.len()) == seq![
            (m[i].0, value_text(m[i].1), value_text(v)),
        ],
{
    lemma_changes_upto(m, i, v, m.len());
}

proof fn lemma_changes_upto(m: PropsView, i: int, v: PropView, k: nat)
    requires
        keys_unique(m),
        0 <= i < m.len(),
        m[i].1 != v,
        k <= m.len(),
    ensures
        prop_changes(m, m.update(i, (m[i].0, v)), k) == (if k > i {
            seq![(m[i].0, value_text(m[i].1), value_text(v))]
        } else {
            Seq::empty()
        }),
    decreases k,
{
    if k > 0 {
        let n = m.update(i, (m[i].0, v));
        lemma_changes_upto(m, i, v, (k - 1) as nat);
        lemma_key_index_unique(m, m[k - 1].0, k - 1);
        if k - 1 == i {
            assert(Seq::<(Seq<char>, Seq<char>, Seq<char>)>::empty().push(
                (m[i].0, value_text(m[i].1), value_text(v)),
            ) =~= seq![(m[i].0, value_text(m[i].1), value_text(v))]);
        }
    }
}


/// Whether property list `n` is `m` with name `k` set to `v`, a value it did
/// not hold: either `k`'s value replaced in place, or `k` added last.
pub open spec fn one_prop_set(m: PropsView, n: PropsView, k: Seq<char>, v: PropView) -> bool {
    match key_index(m, k) {
        Some(i) => m[i].1 != v && n == m.update(i, (k, v)),
        None => n == m.push((k, v)),
    }
}

/// The old text that a change of `k` records: its old value, or `null`.
pub open spec fn old_text(m: PropsView, k: Seq<char>) -> Seq<char> {
    match prop_get(m, k) {
        Some(o) => value_text(o),
        None => null_text(),
    }
}

/// Whether `f2` is `f1` with one property of node `j0` set as `one_prop_set`
/// says, and nothing else (paths, other properties, centers) different.
pub open spec fn one_value_changed(
    f1: Seq<Instance>,
    f2: Seq<Instance>,
    j0: int,
    k: Seq<char>,
    v: PropView,
) -> bool {
    &&& f1.len() == f2.len()
    &&& 0 <= j0 < f1.len()
    &&& one_prop_set(f1[j0].properties@, f2[j0].properties@, k, v)
    &&& forall|j: int|
        0 <= j < f1.len() ==> #[trigger] f2[j].full_path@ == f1[j].full_path@ && f2[j].center
            == f1[j].center
    &&& forall|j: int| 0 <= j < f1.len() && j != j0 ==> #[trigger] f2[j].properties@ == f1[j].properties@
}

proof fn lemma_changes_same_prefix(m: PropsView, n: PropsView, j: nat)
    requires
        keys_unique(m),
        j <= m.len(),
        j <= n.len(),
        forall|t: int| 0 <= t < j ==> n[t] == m[t],
    ensures
        prop_changes(m, n, j).len() == 0,
    decreases j,
{
    if j > 0 {
        lemma_changes_same_prefix(m, n, (j - 1) as nat);
        lemma_key_index_unique(m, m[j - 1].0, j - 1);
    }
}

/// Setting one name to a new value gives exactly that one property change.
pub proof fn lemma_one_prop_change(m: PropsView, n: PropsView, k: Seq<char>, v: PropView)
    requires
        keys_unique(m),
        one_prop_set(m, n, k, v),
    ensures
        prop_changes(m, n, n.len()) == seq![(k, old_text(m, k), value_text(v))],
{
    crate::datamodel::lemma_key_index(m, k);
    match key_index(m, k) {
        Some(i) => {
            lemma_single_property_change(m, i, v);
            lemma_key_index_unique(m, k, i);
        },
        None => {
            lemma_changes_same_prefix(m, n, m.len());
            assert(n[m.len() as int] == (k, v));
            assert(prop_changes(m, n, n.len()) =~= seq![(k, old_text(m, k), value_text(v))]);
        },
    }
}

proof fn lemma_modified_one(
    f1: Seq<Instance>,
    f2: Seq<Instance>,
    j0: int,
    k: Seq<char>,
    v: PropView,
    n: nat,
)
    requires
        one_value_changed(f1, f2, j0, k, v),
        forall|j: int| 0 <= j < f1.len() ==> keys_unique((#[trigger] f1[j]).properties@),
        is_rep(f1, j0),
        n <= f2.len(),
    ensures
        modified(f1, f2, n) == (if n > j0 {
            seq![
                (
                    f1[j0].full_path@,
                    seq![(k, old_text(f1[j0].properties@, k), value_text(v))],
                    None::<SpatialChange>,
                ),
            ]
        } else {
            Seq::empty()
        }),
    decreases n,
{
    if n > 0 {
        let j = n - 1;
        lemma_modified_one(f1, f2, j0, k, v, (n - 1) as nat);
        assert(f2[j].full_path@ == f1[j].full_path@);
        assert(is_rep(f2, j) == is_rep(f1, j)) by {
            assert forall|t: int| j < t < f2.len() implies (f2[t].full_path@ == f1[t].full_path@) by {
                assert(f2[t].full_path@ == f1[t].full_path@);
            }
        }
        lemma_last_with_path(f1, f1[j].full_path@);
        if is_rep(f1, j) {
            let q = last_with_path(f1, f1[j].full_path@)->0;
            if q < j {
                assert(f1[j].full_path@ != f1[j].full_path@);
            } else if q > j {
                assert(f1[q].full_path@ != f1[j].full_path@);
            }
            assert(q == j);
            let a = f1[j];
            let b = f2[j];
            assert(b.center == a.center);
            if let Some(c) = a.center {
                assert(!moved(c, c));
            }
            assert(spatial_of(a, b) is None);
            if j == j0 {
                lemma_one_prop_change(a.properties@, b.properties@, k, v);
            } else {
                assert(b.properties@ == a.properties@);
                lemma_no_prop_changes_self(a.properties@, a.properties@.len());
            }
        } else {
            assert(j != j0);
        }
    }
}

/// Two trees that differ only in one non-spatial property of one node (the
/// node that its path names), whether its value changed or it was added,
/// give exactly one modified entry: that node's path, that one property
/// with its old text (`null` where it was added) and new text, and no
/// spatial change.
pub proof fn lemma_one_property_changed(t1: Instance, t2: Instance, j0: int, k: Seq<char>, v: PropView)
    requires
        one_value_changed(flatten(t1), flatten(t2), j0, k, v),
        forall|j: int|
            0 <= j < flatten(t1).len() ==> (#[trigger] flatten(t1)[j]).properties.wf(),
        is_rep(flatten(t1), j0),
    ensures
        modified(flatten(t1), flatten(t2), flatten(t2).len()) == seq![
            (
                flatten(t1)[j0].full_path@,
                seq![(k, old_text(flatten(t1)[j0].properties@, k), value_text(v))],
                None::<SpatialChange>,
            ),
        ],
{
    let f1 = flatten(t1);
    assert forall|j: int| 0 <= j < f1.len() implies keys_unique((#[trigger] f1[j]).properties@) by {
        assert(f1[j].properties.wf());
    }
    lemma_modified_one(f1, flatten(t2), j0, k, v, flatten(t2).len());
}

proof fn lemma_isqrt_exists(s: int) -> (d: int)
    requires
        0 <= s,
    ensures
        is_isqrt(d, s),
    decreases s,
{
    if s == 0 {
        assert(is_isqrt(0, 0)) by (nonlinear_arith);
        0
    } else {
        let e = lemma_isqrt_exists(s - 1);
        if (e + 1) * (e + 1) <= s {
            let d = e + 1;
            assert(s < (d + 1) * (d + 1)) by (nonlinear_arith)
                requires
                    s - 1 < (e + 1) * (e + 1),
                    d == e + 1,
                    0 <= e,
            ;
            d
        } else {
            e
        }
    }
}

/// Where the centers moved by less than `2^62` millionths along each axis,
/// the recorded displacement is their distance in millionths, rounded
/// down.
pub proof fn lemma_displacement_is_distance(a: Vec3Wrapper, b: Vec3Wrapper)
    requires
        small_delta(a, b),
    ensures
        is_isqrt(displacement_of(a, b) as int, sq_dist(a, b)),
{
    let s = sq_dist(a, b);
    let dx = b.x - a.x;
    let dy = b.y - a.y;
    let dz = b.z - a.z;
    assert(0 <= s < 0x4000_0000_0000_0000_0000_0000_0000_0000) by (nonlinear_arith)
        requires
            s == dx * dx + dy * dy + dz * dz,
            -0x4000_0000_0000_0000 < dx < 0x4000_0000_0000_0000,
            -0x4000_0000_0000_0000 < dy < 0x4000_0000_0000_0000,
            -0x4000_0000_0000_0000 < dz < 0x4000_0000_0000_0000,
    ;
    let d = lemma_isqrt_exists(s);
    assert(d < 0x8000_0000_0000_0000) by (nonlinear_arith)
        requires
            0 <= d,
            d * d <= s,
            s < 0x4000_0000_0000_0000_0000_0000_0000_0000,
    ;
    assert(is_isqrt((d as u64) as int, s));
}

} // verus!
