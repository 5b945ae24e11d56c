//! The scene model: numbers in millionths, property values, property
//! maps and the instance tree.

use vstd::prelude::*;
use crate::text::str_eq;
use crate::loader::{same_tree, same_trees};

verus! {

/// The scale of every coordinate and number in the model: a value `v` of
/// the scene stands as the integer `v * UNIT`, that is in millionths.
pub const UNIT: i64 = 1_000_000;

/// A point or a direction; each coordinate in millionths.
#[derive(Clone, Copy, Debug, PartialEq, Eq, Structural)]
pub struct Vec3Wrapper {
    pub x: i64,
    pub y: i64,
    pub z: i64,
}

/// An axis-aligned box in world space.
#[derive(Clone, Copy, Debug, PartialEq, Eq, Structural)]
pub struct AabbWrapper {
    pub min: Vec3Wrapper,
    pub max: Vec3Wrapper,
}

/// A rigid transform: the translation and twelve components laid out as
/// `[tx, ty, tz, r00, r01, r02, r10, r11, r12, r20, r21, r22]`, in millionths.
#[derive(Clone, Copy, Debug)]
pub struct CFrameWrapper {
    pub position: Vec3Wrapper,
    pub components: [i64; 12],
}

/// A color with normalized channels, in millionths of full intensity.
#[derive(Clone, Copy, Debug, PartialEq, Eq, Structural)]
pub struct Color3Wrapper {
    pub r: i64,
    pub g: i64,
    pub b: i64,
}

/// A 2D layout metric: a scale of the parent (in millionths) and a pixel
/// offset, per axis.
#[derive(Clone, Copy, Debug, PartialEq, Eq, Structural)]
pub struct UDim2Wrapper {
    pub xs: i64,
    pub xo: i32,
    pub ys: i64,
    pub yo: i32,
}

/// The twelve components of a pure translation.
pub open spec fn translation_components(x: i64, y: i64, z: i64) -> Seq<i64> {
    seq![x, y, z, UNIT, 0, 0, 0, UNIT, 0, 0, 0, UNIT]
}

impl CFrameWrapper {
    /// A translation by `(x, y, z)` with the identity basis.
    pub fn new(x: i64, y: i64, z: i64) -> (r: CFrameWrapper)
        ensures
            r.position == (Vec3Wrapper { x, y, z }),
            r.components@ == translation_components(x, y, z),
    {
        let r = CFrameWrapper {
            position: Vec3Wrapper { x, y, z },
            components: [x, y, z, UNIT, 0, 0, 0, UNIT, 0, 0, 0, UNIT],
        };
        assert(r.components@ =~= translation_components(x, y, z));
        r
    }
}

/// `v / 255` rounded to the nearest integer, halves away from zero.
pub open spec fn div255_rounded(v: int) -> int {
    if v >= 0 {
        (2 * v + 255) / 510
    } else {
        -((2 * (-v) + 255) / 510)
    }
}

fn div255(v: i64) -> (r: i64)
    ensures
        r == div255_rounded(v as int),
{
    let w = v as i128;
    if w >= 0 {
        ((2 * w + 255) / 510) as i64
    } else {
        (-((2 * (-w) + 255) / 510)) as i64
    }
}

impl Color3Wrapper {
    /// A color from 8-bit channel values (in millionths), each divided by 255.
    pub fn from_rgb(r: i64, g: i64, b: i64) -> (c: Color3Wrapper)
        ensures
            c.r == div255_rounded(r as int),
            c.g == div255_rounded(g as int),
            c.b == div255_rounded(b as int),
    {
        Color3Wrapper { r: div255(r), g: div255(g), b: div255(b) }
    }

    /// A color from normalized channels, kept as they are.
    pub fn new(r: i64, g: i64, b: i64) -> (c: Color3Wrapper)
        ensures
            c == (Color3Wrapper { r, g, b }),
    {
        Color3Wrapper { r, g, b }
    }
}

/// The value of a property, as the contracts see it.
pub enum PropView {
    String(Seq<char>),
    Bool(bool),
    Number(i64),
    Vector3(Vec3Wrapper),
    CFrame(Vec3Wrapper, Seq<i64>),
    Color3(Color3Wrapper),
    UDim2(UDim2Wrapper),
    Enum(Seq<char>),
}

/// The typed value of a property.
#[derive(Debug)]
pub enum PropertyValue {
    String(String),
    Bool(bool),
    /// A number, in millionths.
    Number(i64),
    Vector3(Vec3Wrapper),
    CFrame(CFrameWrapper),
    Color3(Color3Wrapper),
    UDim2(UDim2Wrapper),
    /// A qualified name such as `Enum.PartType.Ball`.
    Enum(String),
}

impl View for PropertyValue {
    type V = PropView;

    open spec fn view(&self) -> PropView {
        match self {
            PropertyValue::String(s) => PropView::String(s@),
            PropertyValue::Bool(b) => PropView::Bool(*b),
            PropertyValue::Number(n) => PropView::Number(*n),
            PropertyValue::Vector3(v) => PropView::Vector3(*v),
            PropertyValue::CFrame(c) => PropView::CFrame(c.position, c.components@),
            PropertyValue::Color3(c) => PropView::Color3(*c),
            PropertyValue::UDim2(u) => PropView::UDim2(*u),
            PropertyValue::Enum(s) => PropView::Enum(s@),
        }
    }
}

fn components_eq(a: &[i64; 12], b: &[i64; 12]) -> (r: bool)
    ensures
        r == (a@ == b@),
{
    let mut i: usize = 0;
    while i < 12
        invariant
            i <= 12,
            a@.len() == 12,
            b@.len() == 12,
            forall|j: int| 0 <= j < i ==> a@[j] == b@[j],
        decreases 12 - i,
    {
        if a[i] != b[i] {
            return false;
        }
        i = i + 1;
    }
    assert(a@ =~= b@);
    true
}

impl PropertyValue {
    /// Whether two values are the same value.
    pub fn same_as(&self, o: &PropertyValue) -> (r: bool)
        ensures
            r == (self@ == o@),
    {
        match self {
            PropertyValue::String(a) => match o {
                PropertyValue::String(b) => str_eq(a.as_str(), b.as_str()),
                _ => false,
            },
            PropertyValue::Bool(a) => match o {
                PropertyValue::Bool(b) => *a == *b,
                _ => false,
            },
            PropertyValue::Number(a) => match o {
                PropertyValue::Number(b) => *a == *b,
                _ => false,
            },
            PropertyValue::Vector3(a) => match o {
                PropertyValue::Vector3(b) => *a == *b,
                _ => false,
            },
            PropertyValue::CFrame(a) => match o {
                PropertyValue::CFrame(b) => a.position == b.position && components_eq(
                    &a.components,
                    &b.components,
                ),
                _ => false,
            },
            PropertyValue::Color3(a) => match o {
                PropertyValue::Color3(b) => *a == *b,
                _ => false,
            },
            PropertyValue::UDim2(a) => match o {
                PropertyValue::UDim2(b) => *a == *b,
                _ => false,
            },
            PropertyValue::Enum(a) => match o {
                PropertyValue::Enum(b) => str_eq(a.as_str(), b.as_str()),
                _ => false,
            },
        }
    }
}

impl Clone for PropertyValue {
    fn clone(&self) -> (r: PropertyValue)
        ensures
            r@ == self@,
    {
        self.duplicate()
    }
}

impl PartialEq for PropertyValue {
    fn eq(&self, o: &PropertyValue) -> (r: bool) {
        self.same_as(o)
    }
}

impl vstd::std_specs::cmp::PartialEqSpecImpl for PropertyValue {
    open spec fn obeys_eq_spec() -> bool {
        true
    }

    open spec fn eq_spec(&self, o: &PropertyValue) -> bool {
        self@ == o@
    }
}


impl PropertyValue {
    /// A copy of the value.
    pub fn duplicate(&self) -> (r: PropertyValue)
        ensures
            r@ == self@,
    {
        match self {
            PropertyValue::String(a) => PropertyValue::String(a.clone()),
            PropertyValue::Bool(a) => PropertyValue::Bool(*a),
            PropertyValue::Number(a) => PropertyValue::Number(*a),
            PropertyValue::Vector3(a) => PropertyValue::Vector3(*a),
            PropertyValue::CFrame(a) => PropertyValue::CFrame(*a),
            PropertyValue::Color3(a) => PropertyValue::Color3(*a),
            PropertyValue::UDim2(a) => PropertyValue::UDim2(*a),
            PropertyValue::Enum(a) => PropertyValue::Enum(a.clone()),
        }
    }
}

/// A property list as the contracts see it: name and value, in the order in
/// which names were first set.
pub type PropsView = Seq<(Seq<char>, PropView)>;

/// Whether no name occurs twice.
pub open spec fn keys_unique(m: PropsView) -> bool {
    forall|i: int, j: int| 0 <= i < j < m.len() ==> #[trigger] m[i].0 != #[trigger] m[j].0
}

/// The position of name `k`, if it is set.
pub open spec fn key_index(m: PropsView, k: Seq<char>) -> Option<int>
    decreases m.len(),
{
    if m.len() == 0 {
        None
    } else if m.last().0 == k {
        Some(m.len() - 1)
    } else {
        key_index(m.drop_last(), k)
    }
}

/// The value of name `k`, if it is set.
pub open spec fn prop_get(m: PropsView, k: Seq<char>) -> Option<PropView> {
    match key_index(m, k) {
        Some(i) => Some(m[i].1),
        None => None,
    }
}

/// Setting name `k` to `v`: a name already set keeps its place and takes the
/// new value; a new name goes last.
pub open spec fn prop_insert(m: PropsView, k: Seq<char>, v: PropView) -> PropsView {
    match key_index(m, k) {
        Some(i) => m.update(i, (k, v)),
        None => m.push((k, v)),
    }
}

/// Setting each pair of `pairs` in turn.
pub open spec fn prop_insert_all(m: PropsView, pairs: PropsView) -> PropsView
    decreases pairs.len(),
{
    if pairs.len() == 0 {
        m
    } else {
        let p = pairs.last();
        prop_insert(prop_insert_all(m, pairs.drop_last()), p.0, p.1)
    }
}

pub proof fn lemma_key_index(m: PropsView, k: Seq<char>)
    ensures
        key_index(m, k) matches Some(i) ==> 0 <= i < m.len() && m[i].0 == k,
        key_index(m, k) is None ==> forall|j: int| 0 <= j < m.len() ==> #[trigger] m[j].0 != k,
    decreases m.len(),
{
    if m.len() > 0 {
        lemma_key_index(m.drop_last(), k);
        if let Some(i) = key_index(m, k) {
            if i < m.len() - 1 {
                assert(m[i] == m.drop_last()[i]);
            }
        } else {
            assert forall|j: int| 0 <= j < m.len() implies #[trigger] m[j].0 != k by {
                if j < m.len() - 1 {
                    assert(m[j] == m.drop_last()[j]);
                }
            }
        }
    }
}

pub proof fn lemma_key_index_unique(m: PropsView, k: Seq<char>, i: int)
    requires
        keys_unique(m),
        0 <= i < m.len(),
        m[i].0 == k,
    ensures
        key_index(m, k) == Some(i),
    decreases m.len(),
{
    if i < m.len() - 1 {
        assert(m.drop_last()[i] == m[i]);
        lemma_key_index_unique(m.drop_last(), k, i);
    }
}

pub proof fn lemma_insert_unique(m: PropsView, k: Seq<char>, v: PropView)
    requires
        keys_unique(m),
    ensures
        keys_unique(prop_insert(m, k, v)),
        prop_get(prop_insert(m, k, v), k) == Some(v),
{
    lemma_key_index(m, k);
    let r = prop_insert(m, k, v);
    assert(keys_unique(r));
    lemma_key_index(r, k);
    match key_index(m, k) {
        Some(i) => lemma_key_index_unique(r, k, i),
        None => lemma_key_index_unique(r, k, m.len() as int),
    }
}

/// Named properties, each name once, kept in the order in which names were
/// first set.
#[derive(Debug)]
pub struct PropertyMap {
    pub entries: Vec<(String, PropertyValue)>,
}

impl View for PropertyMap {
    type V = PropsView;

    open spec fn view(&self) -> PropsView {
        self.entries@.map_values(|e: (String, PropertyValue)| (e.0@, e.1@))
    }
}

impl PropertyMap {
    pub open spec fn wf(&self) -> bool {
        keys_unique(self@)
    }

    /// A map with no properties.
    pub fn new() -> (r: PropertyMap)
        ensures
            r@ == Seq::<(Seq<char>, PropView)>::empty(),
            r.wf(),
    {
        PropertyMap { entries: Vec::new() }
    }

    pub fn len(&self) -> (r: usize)
        ensures
            r == self@.len(),
    {
        self.entries.len()
    }

    /// The position of name `k`.
    pub fn index_of(&self, k: &str) -> (r: Option<usize>)
        ensures
            match r {
                Some(i) => key_index(self@, k@) == Some(i as int),
                None => key_index(self@, k@) is None,
            },
            r matches Some(i) ==> i < self@.len() && self@[i as int].0 == k@,
    {
        proof {
            lemma_key_index(self@, k@);
        }
        assert(self@.subrange(0, self@.len() as int) =~= self@);
        let mut i = self.entries.len();
        while i > 0
            invariant
                i <= self.entries.len(),
                key_index(self@, k@) == key_index(self@.subrange(0, i as int), k@),
            decreases i,
        {
            let ghost sub = self@.subrange(0, i as int);
            assert(sub.drop_last() =~= self@.subrange(0, i - 1));
            if str_eq(self.entries[i - 1].0.as_str(), k) {
                return Some(i - 1);
            }
            i = i - 1;
        }
        None
    }

    /// The value of name `k`.
    pub fn get(&self, k: &str) -> (r: Option<&PropertyValue>)
        ensures
            match r {
                Some(v) => prop_get(self@, k@) == Some(v@),
                None => prop_get(self@, k@) is None,
            },
    {
        match self.index_of(k) {
            Some(i) => Some(&self.entries[i].1),
            None => None,
        }
    }

    /// Sets name `k` to `v`.
    pub fn insert(&mut self, k: String, v: PropertyValue)
        requires
            old(self).wf(),
        ensures
            final(self)@ == prop_insert(old(self)@, k@, v@),
            final(self).wf(),
    {
        proof {
            lemma_insert_unique(self@, k@, v@);
        }
        match self.index_of(k.as_str()) {
            Some(i) => {
                self.entries.set(i, (k, v));
                assert(self@ =~= prop_insert(old(self)@, k@, v@));
            },
            None => {
                self.entries.push((k, v));
                assert(self@ =~= prop_insert(old(self)@, k@, v@));
            },
        }
    }
}


/// The name-based id of a path: the version-5 UUID of its UTF-8 bytes in
/// the OID namespace, as a big-endian `u128`.
pub uninterp spec fn oid_v5(name: Seq<char>) -> u128;

/// Relies on `uuid::Uuid::new_v5` with `Uuid::NAMESPACE_OID` (a SHA-1 digest
/// of the namespace and the name's bytes) and `Uuid::as_u128`; the result
/// depends on the name alone.
#[verifier::external_body]
fn uuid_v5_oid(name: &str) -> (r: u128)
    ensures
        r == oid_v5(name@),
{
    uuid::Uuid::new_v5(&uuid::Uuid::NAMESPACE_OID, name.as_bytes()).as_u128()
}

/// A node of the scene tree.
#[derive(Debug)]
pub struct Instance {
    /// Derived from the path the node was built from; see `oid_v5`.
    pub id: u128,
    pub name: String,
    pub class_name: String,
    pub properties: PropertyMap,
    pub children: Vec<Instance>,
    /// The slash-separated path from the root, `game/...`.
    pub full_path: String,
    pub world_bounds: Option<AabbWrapper>,
    pub center: Option<Vec3Wrapper>,
}

impl Instance {
    /// A node without properties or children whose id derives from
    /// `path_hash_seed`.
    pub fn new(name: &str, class_name: &str, path_hash_seed: &str) -> (r: Instance)
        ensures
            r.id == oid_v5(path_hash_seed@),
            r.name@ == name@,
            r.class_name@ == class_name@,
            r.properties@.len() == 0,
            r.properties.wf(),
            r.children@.len() == 0,
            r.full_path@.len() == 0,
            r.world_bounds is None,
            r.center is None,
    {
        Instance {
            id: uuid_v5_oid(path_hash_seed),
            name: String::from_str(name),
            class_name: String::from_str(class_name),
            properties: PropertyMap::new(),
            children: Vec::new(),
            full_path: String::new(),
            world_bounds: None,
            center: None,
        }
    }
}


impl PropertyMap {
    /// A copy of the map.
    pub fn duplicate(&self) -> (r: PropertyMap)
        ensures
            r@ == self@,
    {
        let mut entries: Vec<(String, PropertyValue)> = Vec::new();
        let mut i: usize = 0;
        while i < self.entries.len()
            invariant
                i <= self.entries@.len(),
                entries@.len() == i,
                entries@.map_values(|e: (String, PropertyValue)| (e.0@, e.1@)) == self@.subrange(
                    0,
                    i as int,
                ),
            decreases self.entries@.len() - i,
        {
            let e = &self.entries[i];
            assert(self@[i as int] == (e.0@, e.1@));
            let ghost before = entries@;
            let k = e.0.clone();
            let v = e.1.duplicate();
            entries.push((k, v));
            assert(entries@[i as int] == (k, v));
            assert(entries@.subrange(0, i as int) =~= before);
            assert(entries@.map_values(|e: (String, PropertyValue)| (e.0@, e.1@)) =~= self@.subrange(
                0,
                i + 1,
            ));
            i = i + 1;
        }
        assert(self@.subrange(0, i as int) =~= self@);
        PropertyMap { entries }
    }
}

impl Clone for PropertyMap {
    fn clone(&self) -> (r: PropertyMap)
        ensures
            r@ == self@,
    {
        self.duplicate()
    }
}

impl Instance {
    /// A copy of the whole tree.
    pub fn duplicate(&self) -> (r: Instance)
        ensures
            same_tree(r, *self),
        decreases self,
    {
        let mut children: Vec<Instance> = Vec::new();
        let mut i: usize = 0;
        while i < self.children.len()
            invariant
                i <= self.children@.len(),
                same_trees(children@, self.children@.subrange(0, i as int)),
            decreases self.children@.len() - i,
        {
            let c = self.children[i].duplicate();
            let ghost before = children@;
            children.push(c);
            assert(children@.drop_last() =~= before);
            assert(self.children@.subrange(0, i + 1).drop_last() =~= self.children@.subrange(
                0,
                i as int,
            ));
            i = i + 1;
        }
        assert(self.children@.subrange(0, i as int) =~= self.children@);
        Instance {
            id: self.id,
            name: self.name.clone(),
            class_name: self.class_name.clone(),
            properties: self.properties.duplicate(),
            children,
            full_path: self.full_path.clone(),
            world_bounds: self.world_bounds,
            center: self.center,
        }
    }
}

impl Clone for Instance {
    fn clone(&self) -> (r: Instance)
        ensures
            same_tree(r, *self),
    {
        self.duplicate()
    }
}

} // verus!
