//! Turning a project's directory tree into the scene tree: classes and
//! names from file names, ids from paths, properties from file text, and
//! children in file-name order.

use vstd::prelude::*;
use crate::text::{str_eq, string_from, sub_chars, chars_of, matches_at_exec};
use crate::datamodel::{
    oid_v5, prop_get, Instance, PropView, PropertyMap, PropertyValue, PropsView,
};
use crate::bounds::{
    children_hull, enrich_node, list_enriched, node_enriched, tree_enriched,
};
use crate::errors::LuDockError;
use crate::parser::{dsl_properties, parse_instance_dsl};

verus! {

/// The class that a recognized name suffix stands for.
pub open spec fn class_of_ext(ext: Seq<char>) -> Option<Seq<char>> {
    if ext == "part"@ || ext == "basepart"@ {
        Some("Part"@)
    } else if ext == "model"@ {
        Some("Model"@)
    } else if ext == "folder"@ {
        Some("Folder"@)
    } else if ext == "script"@ {
        Some("Script"@)
    } else if ext == "localscript"@ {
        Some("LocalScript"@)
    } else if ext == "modulescript"@ {
        Some("ModuleScript"@)
    } else if ext == "gui"@ {
        Some("ScreenGui"@)
    } else if ext == "frame"@ {
        Some("Frame"@)
    } else if ext == "button"@ {
        Some("TextButton"@)
    } else if ext == "label"@ {
        Some("TextLabel"@)
    } else {
        None
    }
}

/// The class of a suffix, `Folder` where it is not recognized.
pub open spec fn ext_class_name(ext: Seq<char>) -> Seq<char> {
    match class_of_ext(ext) {
        Some(c) => c,
        None => "Folder"@,
    }
}

/// The names of the services that stand directly under the root.
pub open spec fn is_service(n: Seq<char>) -> bool {
    n == "Workspace"@ || n == "Lighting"@ || n == "ReplicatedStorage"@ || n == "ReplicatedFirst"@
        || n == "ServerScriptService"@ || n == "ServerStorage"@ || n == "StarterGui"@ || n
        == "StarterPack"@ || n == "StarterPlayer"@ || n == "SoundService"@
}

/// The position of the last `c` in `s`.
pub open spec fn rfind_char(s: Seq<char>, c: char) -> Option<int>
    decreases s.len(),
{
    if s.len() == 0 {
        None
    } else if s.last() == c {
        Some(s.len() - 1)
    } else {
        rfind_char(s.drop_last(), c)
    }
}

/// What follows the last dot of a name, if it has one.
pub open spec fn dotted_suffix(n: Seq<char>) -> Option<Seq<char>> {
    match rfind_char(n, '.') {
        Some(i) => Some(n.subrange(i + 1, n.len() as int)),
        None => None,
    }
}

/// The class that a recognized dotted suffix of `n` gives.
pub open spec fn suffix_class(n: Seq<char>) -> Option<Seq<char>> {
    match dotted_suffix(n) {
        Some(x) => class_of_ext(x),
        None => None,
    }
}

/// The class of a name: its recognized suffix (other than `folder`), else a
/// service's own name, else `Folder` for a directory and `Unknown` for a file.
pub open spec fn inferred_class(n: Seq<char>, is_dir: bool) -> Seq<char> {
    match suffix_class(n) {
        Some(c) if c != "Folder"@ => c,
        _ => if is_service(n) {
            n
        } else if is_dir {
            "Folder"@
        } else {
            "Unknown"@
        },
    }
}

/// A name without its recognized dotted suffix.
pub open spec fn cleaned_name(n: Seq<char>) -> Seq<char> {
    match rfind_char(n, '.') {
        Some(i) => if class_of_ext(n.subrange(i + 1, n.len() as int)) is Some {
            n.subrange(0, i)
        } else {
            n
        },
        None => n,
    }
}

fn rfind_char_exec(s: &Vec<char>, c: char) -> (r: Option<usize>)
    ensures
        match r {
            Some(i) => rfind_char(s@, c) == Some(i as int) && i < s.len(),
            None => rfind_char(s@, c) is None,
        },
{
    let mut i = s.len();
    assert(s@.subrange(0, i as int) =~= s@);
    while i > 0
        invariant
            i <= s.len(),
            rfind_char(s@, c) == rfind_char(s@.subrange(0, i as int), c),
        decreases i,
    {
        assert(s@.subrange(0, i as int).drop_last() =~= s@.subrange(0, i - 1));
        if s[i - 1] == c {
            return Some(i - 1);
        }
        i = i - 1;
    }
    None
}

/// The class that a recognized suffix stands for.
fn class_of_ext_exec(ext: &str) -> (r: Option<String>)
    ensures
        match r {
            Some(c) => class_of_ext(ext@) == Some(c@),
            None => class_of_ext(ext@) is None,
        },
{
    if str_eq(ext, "part") || str_eq(ext, "basepart") {
        Some(String::from_str("Part"))
    } else if str_eq(ext, "model") {
        Some(String::from_str("Model"))
    } else if str_eq(ext, "folder") {
        Some(String::from_str("Folder"))
    } else if str_eq(ext, "script") {
        Some(String::from_str("Script"))
    } else if str_eq(ext, "localscript") {
        Some(String::from_str("LocalScript"))
    } else if str_eq(ext, "modulescript") {
        Some(String::from_str("ModuleScript"))
    } else if str_eq(ext, "gui") {
        Some(String::from_str("ScreenGui"))
    } else if str_eq(ext, "frame") {
        Some(String::from_str("Frame"))
    } else if str_eq(ext, "button") {
        Some(String::from_str("TextButton"))
    } else if str_eq(ext, "label") {
        Some(String::from_str("TextLabel"))
    } else {
        None
    }
}

/// The class that a file extension or directory suffix maps to; `Folder`
/// where it is not recognized.
pub fn map_extension_to_class(ext: &str) -> (r: String)
    ensures
        r@ == ext_class_name(ext@),
{
    match class_of_ext_exec(ext) {
        Some(c) => c,
        None => String::from_str("Folder"),
    }
}

fn is_service_exec(n: &str) -> (r: bool)
    ensures
        r == is_service(n@),
{
    str_eq(n, "Workspace") || str_eq(n, "Lighting") || str_eq(n, "ReplicatedStorage") || str_eq(
        n,
        "ReplicatedFirst",
    ) || str_eq(n, "ServerScriptService") || str_eq(n, "ServerStorage") || str_eq(
        n,
        "StarterGui",
    ) || str_eq(n, "StarterPack") || str_eq(n, "StarterPlayer") || str_eq(n, "SoundService")
}

/// The class recognized from a dotted suffix of `name`.
fn suffix_class_exec(name: &str) -> (r: Option<String>)
    ensures
        match r {
            Some(c) => suffix_class(name@) == Some(c@),
            None => suffix_class(name@) is None,
        },
{
    let n = chars_of(name);
    match rfind_char_exec(&n, '.') {
        Some(i) => {
            let x = string_from(&sub_chars(&n, i + 1, n.len()));
            class_of_ext_exec(x.as_str())
        },
        None => None,
    }
}

/// The class of an entry from its name alone: a recognized suffix, else a
/// service name, else `Folder` (directory) or `Unknown` (file).
pub fn infer_class_from_name(name: &str, is_dir: bool) -> (r: String)
    ensures
        r@ == inferred_class(name@, is_dir),
{
    proof {
        reveal_strlit("Folder");
    }
    if let Some(c) = suffix_class_exec(name) {
        if !str_eq(c.as_str(), "Folder") {
            return c;
        }
    }
    if is_service_exec(name) {
        String::from_str(name)
    } else if is_dir {
        String::from_str("Folder")
    } else {
        String::from_str("Unknown")
    }
}

/// `name` without a recognized dotted suffix.
pub fn clean_name(name: &str) -> (r: String)
    ensures
        r@ == cleaned_name(name@),
{
    let n = chars_of(name);
    match rfind_char_exec(&n, '.') {
        Some(i) => {
            let x = string_from(&sub_chars(&n, i + 1, n.len()));
            if class_of_ext_exec(x.as_str()).is_some() {
                string_from(&sub_chars(&n, 0, i))
            } else {
                String::from_str(name)
            }
        },
        None => String::from_str(name),
    }
}


/// A file or directory of a project: its raw file name, and for a file its
/// text, for a directory its entries.
pub struct FsEntry {
    pub name: String,
    pub is_dir: bool,
    pub contents: String,
    pub children: Vec<FsEntry>,
}

/// `s` with every backslash turned into a forward slash.
pub open spec fn slashed(s: Seq<char>) -> Seq<char> {
    s.map_values(|c: char| if c == '\\' { '/' } else { c })
}

/// A file name without its extension (a leading dot starts no extension).
pub open spec fn file_stem(n: Seq<char>) -> Seq<char> {
    match rfind_char(n, '.') {
        Some(i) => if i == 0 {
            n
        } else {
            n.subrange(0, i)
        },
        None => n,
    }
}

/// The extension of a file name.
pub open spec fn file_ext(n: Seq<char>) -> Option<Seq<char>> {
    match rfind_char(n, '.') {
        Some(i) => if i == 0 {
            None
        } else {
            Some(n.subrange(i + 1, n.len() as int))
        },
        None => None,
    }
}

pub open spec fn ends_with(s: Seq<char>, p: Seq<char>) -> bool {
    p.len() <= s.len() && s.subrange(s.len() - p.len(), s.len() as int) == p
}

/// For a script file (`*.server.lua`, `*.local.lua`, `*.module.lua`), its
/// class and its name without the compound suffix.
pub open spec fn script_kind(n: Seq<char>) -> Option<(Seq<char>, Seq<char>)> {
    let st = file_stem(n);
    if file_ext(n) == Some("lua"@) {
        if ends_with(st, ".server"@) {
            Some(("Script"@, st.subrange(0, st.len() - 7)))
        } else if ends_with(st, ".local"@) {
            Some(("LocalScript"@, st.subrange(0, st.len() - 6)))
        } else if ends_with(st, ".module"@) {
            Some(("ModuleScript"@, st.subrange(0, st.len() - 7)))
        } else {
            None
        }
    } else {
        None
    }
}

/// Files that yield no instance: no extension, an empty one, or `json`.
pub open spec fn entry_skipped(e: FsEntry) -> bool {
    !e.is_dir && match file_ext(e.name@) {
        None => true,
        Some(x) => x.len() == 0 || x == "json"@,
    }
}

/// The properties of a file: a script's text as `Source`, else what its
/// text declares.
pub open spec fn file_props(e: FsEntry) -> PropsView {
    match script_kind(e.name@) {
        Some(_) => seq![("Source"@, PropView::String(e.contents@))],
        None => dsl_properties(e.contents@),
    }
}

pub open spec fn entry_props(e: FsEntry) -> PropsView {
    if e.is_dir {
        Seq::empty()
    } else {
        file_props(e)
    }
}

/// A string property's text.
pub open spec fn string_prop(m: PropsView, k: Seq<char>) -> Option<Seq<char>> {
    match prop_get(m, k) {
        Some(PropView::String(v)) => Some(v),
        _ => None,
    }
}

/// The class of the instance an entry yields; `top` for entries directly
/// under `game/`.
pub open spec fn entry_class(e: FsEntry, top: bool) -> Seq<char> {
    if e.is_dir {
        if top {
            inferred_class(e.name@, true)
        } else {
            match suffix_class(e.name@) {
                Some(c) => c,
                None => "Folder"@,
            }
        }
    } else {
        match script_kind(e.name@) {
            Some((c, _)) => c,
            None => match string_prop(file_props(e), "ClassName"@) {
                Some(c) => c,
                None => match file_ext(e.name@) {
                    Some(x) => match class_of_ext(x) {
                        Some(c) => c,
                        None => "Unknown"@,
                    },
                    None => "Unknown"@,
                },
            },
        }
    }
}

/// The name of the instance an entry yields.
pub open spec fn entry_name(e: FsEntry) -> Seq<char> {
    if e.is_dir {
        cleaned_name(e.name@)
    } else {
        match script_kind(e.name@) {
            Some((_, n)) => n,
            None => match string_prop(file_props(e), "Name"@) {
                Some(n) => n,
                None => file_stem(e.name@),
            },
        }
    }
}

/// Whether `a` comes before `b` in the order of their characters' code
/// points, which is the order of their UTF-8 bytes.
pub open spec fn name_lt(a: Seq<char>, b: Seq<char>) -> bool
    decreases a.len(),
{
    if b.len() == 0 {
        false
    } else if a.len() == 0 {
        true
    } else if a[0] != b[0] {
        a[0] < b[0]
    } else {
        name_lt(a.drop_first(), b.drop_first())
    }
}

/// Where entry `k` goes among the entries `ord` already in order: before the
/// first whose name comes after its own.
pub open spec fn insert_pos(es: Seq<FsEntry>, ord: Seq<int>, k: int, p: int) -> int
    decreases ord.len() - p,
{
    if p < 0 || p >= ord.len() {
        ord.len() as int
    } else if name_lt(es[k].name@, es[ord[p]].name@) {
        p
    } else {
        insert_pos(es, ord, k, p + 1)
    }
}

/// The first `n` entries, by index, in ascending order of name (equal names
/// keep their order).
pub open spec fn sort_order(es: Seq<FsEntry>, n: nat) -> Seq<int>
    decreases n,
{
    if n == 0 {
        Seq::empty()
    } else {
        let o = sort_order(es, (n - 1) as nat);
        o.insert(insert_pos(es, o, n - 1, 0), n - 1)
    }
}

pub open spec fn name_order(es: Seq<FsEntry>) -> Seq<int> {
    sort_order(es, es.len())
}

/// Whether `inst` is the node that entry `e` yields under the node at path
/// `pp`. Its id derives from its own path, written with forward slashes.
pub open spec fn loaded_entry(inst: Instance, e: FsEntry, pp: Seq<char>, top: bool) -> bool
    decreases e, 0nat,
{
    let full = pp + "/"@ + entry_name(e);
    &&& inst.id == oid_v5(slashed(full))
    &&& inst.name@ == entry_name(e)
    &&& inst.class_name@ == entry_class(e, top)
    &&& inst.properties@ == entry_props(e)
    &&& inst.properties.wf()
    &&& inst.full_path@ == full
    &&& node_enriched(inst)
    &&& if e.is_dir {
        loaded_children(inst.children@, e.children@, name_order(e.children@), full, false)
    } else {
        inst.children@.len() == 0
    }
}

/// Whether `cs` are the nodes that the entries `es`, taken in the order
/// `ord`, yield; skipped files yield none.
pub open spec fn loaded_children(
    cs: Seq<Instance>,
    es: Seq<FsEntry>,
    ord: Seq<int>,
    pp: Seq<char>,
    top: bool,
) -> bool
    decreases es, ord.len(),
{
    if ord.len() == 0 {
        cs.len() == 0
    } else {
        let k = ord.last();
        if !(0 <= k < es.len()) {
            false
        } else if entry_skipped(es[k]) {
            loaded_children(cs, es, ord.drop_last(), pp, top)
        } else {
            &&& cs.len() > 0
            &&& loaded_children(cs.drop_last(), es, ord.drop_last(), pp, top)
            &&& loaded_entry(cs.last(), es[k], pp, top)
        }
    }
}


fn name_lt_exec(a: &String, b: &String) -> (r: bool)
    ensures
        r == name_lt(a@, b@),
{
    let x = chars_of(a.as_str());
    let y = chars_of(b.as_str());
    assert(x@.subrange(0, x@.len() as int) =~= x@);
    assert(y@.subrange(0, y@.len() as int) =~= y@);
    let mut i: usize = 0;
    while i < x.len() && i < y.len() && x[i] == y[i]
        invariant
            i <= x.len(),
            i <= y.len(),
            name_lt(a@, b@) == name_lt(x@.subrange(i as int, x.len() as int), y@.subrange(
                i as int,
                y.len() as int,
            )),
            x@ == a@,
            y@ == b@,
        decreases x.len() - i,
    {
        assert(x@.subrange(i as int, x.len() as int).drop_first() =~= x@.subrange(
            i + 1,
            x.len() as int,
        ));
        assert(y@.subrange(i as int, y.len() as int).drop_first() =~= y@.subrange(
            i + 1,
            y.len() as int,
        ));
        i = i + 1;
    }
    if i >= y.len() {
        false
    } else if i >= x.len() {
        true
    } else {
        x[i] < y[i]
    }
}

/// The indices of the entries in ascending order of name.
pub fn name_order_exec(es: &Vec<FsEntry>) -> (r: Vec<usize>)
    ensures
        r@.map_values(|k: usize| k as int) == name_order(es@),
        forall|j: int| 0 <= j < r@.len() ==> r@[j] < es@.len(),
{
    let mut ord: Vec<usize> = Vec::new();
    let mut k: usize = 0;
    while k < es.len()
        invariant
            k <= es.len(),
            ord@.map_values(|x: usize| x as int) == sort_order(es@, k as nat),
            forall|j: int| 0 <= j < ord@.len() ==> ord@[j] < k,
        decreases es.len() - k,
    {
        let ghost o = sort_order(es@, k as nat);
        let mut p: usize = 0;
        while p < ord.len() && !name_lt_exec(&es[k].name, &es[ord[p]].name)
            invariant
                k < es.len(),
                p <= ord.len(),
                o == ord@.map_values(|x: usize| x as int),
                forall|j: int| 0 <= j < ord@.len() ==> ord@[j] < k,
                insert_pos(es@, o, k as int, 0) == insert_pos(es@, o, k as int, p as int),
            decreases ord.len() - p,
        {
            p = p + 1;
        }
        ord.insert(p, k);
        assert(ord@.map_values(|x: usize| x as int) =~= o.insert(p as int, k as int));
        k = k + 1;
    }
    ord
}

fn slashed_exec(s: &str) -> (r: String)
    ensures
        r@ == slashed(s@),
{
    let v = chars_of(s);
    let mut w: Vec<char> = Vec::new();
    let mut i: usize = 0;
    while i < v.len()
        invariant
            i <= v.len(),
            w@ == slashed(v@.subrange(0, i as int)),
        decreases v.len() - i,
    {
        let c = v[i];
        w.push(
            if c == '\\' {
                '/'
            } else {
                c
            },
        );
        assert(slashed(v@.subrange(0, i + 1)) =~= slashed(v@.subrange(0, i as int)).push(
            if c == '\\' {
                '/'
            } else {
                c
            },
        ));
        i = i + 1;
    }
    assert(v@.subrange(0, i as int) =~= v@);
    string_from(&w)
}

/// `a + "/" + b`.
fn join(a: &str, b: &str) -> (r: String)
    ensures
        r@ == a@ + "/"@ + b@,
{
    let mut r = String::from_str(a);
    r.append("/");
    r.append(b);
    r
}

fn ends_with_exec(s: &Vec<char>, p: &str) -> (r: bool)
    ensures
        r == ends_with(s@, p@),
{
    let q = chars_of(p);
    if q.len() > s.len() {
        return false;
    }
    matches_at_exec(s, &q, s.len() - q.len())
}

/// The class and stripped name of a script file.
fn script_kind_exec(n: &Vec<char>, stem: &Vec<char>, ext: &Option<String>) -> (r: Option<
    (String, String),
>)
    requires
        stem@ == file_stem(n@),
        opt_eq(*ext, file_ext(n@)),
    ensures
        match r {
            Some((c, m)) => script_kind(n@) == Some((c@, m@)),
            None => script_kind(n@) is None,
        },
{
    let is_lua = match ext {
        Some(x) => str_eq(x.as_str(), "lua"),
        None => false,
    };
    if !is_lua {
        return None;
    }
    if ends_with_exec(stem, ".server") {
        proof { reveal_strlit(".server"); }
        Some((String::from_str("Script"), string_from(&sub_chars(stem, 0, stem.len() - 7))))
    } else if ends_with_exec(stem, ".local") {
        proof { reveal_strlit(".local"); }
        Some((String::from_str("LocalScript"), string_from(&sub_chars(stem, 0, stem.len() - 6))))
    } else if ends_with_exec(stem, ".module") {
        proof { reveal_strlit(".module"); }
        Some((String::from_str("ModuleScript"), string_from(&sub_chars(stem, 0, stem.len() - 7))))
    } else {
        None
    }
}

pub open spec fn opt_eq(a: Option<String>, b: Option<Seq<char>>) -> bool {
    match (a, b) {
        (Some(x), Some(y)) => x@ == y,
        (None, None) => true,
        _ => false,
    }
}

fn split_name(n: &Vec<char>) -> (r: (Vec<char>, Option<String>))
    ensures
        r.0@ == file_stem(n@),
        opt_eq(r.1, file_ext(n@)),
{
    match rfind_char_exec(n, '.') {
        Some(i) => if i == 0 {
            (sub_chars(n, 0, n.len()), None)
        } else {
            (sub_chars(n, 0, i), Some(string_from(&sub_chars(n, i + 1, n.len()))))
        },
        None => {
            assert(n@.subrange(0, n@.len() as int) =~= n@);
            (sub_chars(n, 0, n.len()), None)
        },
    }
}

/// Whether a file yields no instance.
pub fn is_skipped(e: &FsEntry) -> (r: bool)
    ensures
        r == entry_skipped(*e),
{
    if e.is_dir {
        return false;
    }
    let n = chars_of(e.name.as_str());
    let (_, ext) = split_name(&n);
    match ext {
        None => true,
        Some(x) => x.as_str().unicode_len() == 0 || str_eq(x.as_str(), "json"),
    }
}


/// The node that file `e` yields.
fn load_file(e: &FsEntry, pp: &str, top: bool) -> (r: Instance)
    requires
        !e.is_dir,
        !entry_skipped(*e),
    ensures
        loaded_entry(r, *e, pp@, top),
{
    let n = chars_of(e.name.as_str());
    let (stem, ext) = split_name(&n);
    let mut inst = match script_kind_exec(&n, &stem, &ext) {
        Some((class, name)) => {
            let full = join(pp, name.as_str());
            let mut inst = Instance::new(name.as_str(), class.as_str(), slashed_exec(full.as_str()).as_str());
            inst.full_path = full;
            inst.properties.insert(
                String::from_str("Source"),
                PropertyValue::String(e.contents.clone()),
            );
            assert(inst.properties@ =~= file_props(*e));
            inst
        },
        None => {
            let class0 = match &ext {
                Some(x) => match class_of_ext_exec(x.as_str()) {
                    Some(c) => c,
                    None => String::from_str("Unknown"),
                },
                None => String::from_str("Unknown"),
            };
            let (_, props) = parse_instance_dsl(e.contents.as_str());
            let class = match props.get("ClassName") {
                Some(PropertyValue::String(c)) => c.clone(),
                _ => class0,
            };
            let name = match props.get("Name") {
                Some(PropertyValue::String(m)) => m.clone(),
                _ => string_from(&stem),
            };
            let full = join(pp, name.as_str());
            let mut inst = Instance::new(name.as_str(), class.as_str(), slashed_exec(full.as_str()).as_str());
            inst.full_path = full;
            inst.properties = props;
            inst
        },
    };
    enrich_node(&mut inst);
    inst
}

/// The node that entry `e` yields under the node at path `pp`.
fn load_entry(e: &FsEntry, pp: &str, top: bool) -> (r: Instance)
    requires
        !entry_skipped(*e),
    ensures
        loaded_entry(r, *e, pp@, top),
    decreases e, 0nat,
{
    if !e.is_dir {
        return load_file(e, pp, top);
    }
    let class = if top {
        infer_class_from_name(e.name.as_str(), true)
    } else {
        match suffix_class_exec(e.name.as_str()) {
            Some(c) => c,
            None => String::from_str("Folder"),
        }
    };
    let name = clean_name(e.name.as_str());
    let full = join(pp, name.as_str());
    let mut inst = Instance::new(name.as_str(), class.as_str(), slashed_exec(full.as_str()).as_str());
    assert(inst.properties@ =~= entry_props(*e));
    inst.children = load_entries(&e.children, full.as_str(), false);
    inst.full_path = full;
    enrich_node(&mut inst);
    inst
}

/// The nodes that the entries of one directory yield, in ascending order of
/// file name.
fn load_entries(es: &Vec<FsEntry>, pp: &str, top: bool) -> (r: Vec<Instance>)
    ensures
        loaded_children(r@, es@, name_order(es@), pp@, top),
    decreases es, 1nat,
{
    let ord = name_order_exec(es);
    let ghost o = name_order(es@);
    let mut out: Vec<Instance> = Vec::new();
    let mut j: usize = 0;
    while j < ord.len()
        invariant
            j <= ord.len(),
            o == ord@.map_values(|k: usize| k as int),
            forall|t: int| 0 <= t < ord@.len() ==> ord@[t] < es@.len(),
            loaded_children(out@, es@, o.subrange(0, j as int), pp@, top),
        decreases ord.len() - j,
    {
        let k = ord[j];
        assert(o.subrange(0, j + 1).drop_last() =~= o.subrange(0, j as int));
        assert(o.subrange(0, j + 1).last() == k as int);
        if !is_skipped(&es[k]) {
            let inst = load_entry(&es[k], pp, top);
            let ghost before = out@;
            out.push(inst);
            assert(out@.drop_last() =~= before);
        }
        j = j + 1;
    }
    assert(o.subrange(0, j as int) =~= o);
    out
}

/// Builds the scene tree of a project whose `game/` directory holds `game`
/// (`None` where it is missing; `root_path` then names the project in the
/// error). Ids derive from each node's `game/...` path alone.
pub fn load_project(root_path: &str, game: &Option<Vec<FsEntry>>) -> (r: Result<Instance, LuDockError>)
    ensures
        game is None <==> r is Err,
        r matches Err(e) ==> e is WorldError,
        game matches Some(es) ==> r matches Ok(inst) && {
            &&& inst.id == oid_v5("game"@)
            &&& inst.name@ == "DataModel"@
            &&& inst.class_name@ == "DataModel"@
            &&& inst.full_path@ == "game"@
            &&& inst.properties@.len() == 0
            &&& inst.properties.wf()
            &&& node_enriched(inst)
            &&& tree_enriched(inst)
            &&& loaded_children(
                inst.children@,
                es@,
                name_order(es@),
                "game"@,
                true,
            )
        },
{
    match game {
        None => {
            let mut msg = String::from_str("Game directory not found under ");
            msg.append(root_path);
            Err(LuDockError::WorldError(msg))
        },
        Some(es) => {
            let mut root = Instance::new("DataModel", "DataModel", "game");
            root.full_path = String::from_str("game");
            root.children = load_entries(es, "game", true);
            enrich_node(&mut root);
            proof {
                lemma_loaded_children_enriched(
                    root.children@,
                    es@,
                    name_order(es@),
                    "game"@,
                    true,
                );
            }
            Ok(root)
        },
    }
}


proof fn lemma_name_lt_irrefl(a: Seq<char>)
    ensures
        !name_lt(a, a),
    decreases a.len(),
{
    if a.len() > 0 {
        lemma_name_lt_irrefl(a.drop_first());
    }
}

proof fn lemma_name_lt_trans(a: Seq<char>, b: Seq<char>, c: Seq<char>)
    requires
        name_lt(a, b),
        name_lt(b, c),
    ensures
        name_lt(a, c),
    decreases a.len(),
{
    if a.len() > 0 && b.len() > 0 && c.len() > 0 && a[0] == b[0] && b[0] == c[0] {
        lemma_name_lt_trans(a.drop_first(), b.drop_first(), c.drop_first());
    }
}

/// Whether the indices `o` take the entries in ascending order of name.
pub open spec fn in_name_order(es: Seq<FsEntry>, o: Seq<int>) -> bool {
    forall|j: int, t: int|
        0 <= j < t < o.len() ==> !name_lt(#[trigger] es[o[t]].name@, #[trigger] es[o[j]].name@)
}

proof fn lemma_insert_pos(es: Seq<FsEntry>, o: Seq<int>, k: int, q: int)
    requires
        0 <= q <= o.len(),
    ensures
        q <= insert_pos(es, o, k, q) <= o.len(),
        insert_pos(es, o, k, q) < o.len() ==> name_lt(
            es[k].name@,
            es[o[insert_pos(es, o, k, q)]].name@,
        ),
        forall|t: int|
            q <= t < insert_pos(es, o, k, q) ==> !name_lt(es[k].name@, #[trigger] es[o[t]].name@),
    decreases o.len() - q,
{
    if q < o.len() && !name_lt(es[k].name@, es[o[q]].name@) {
        lemma_insert_pos(es, o, k, q + 1);
    }
}

proof fn lemma_sort_order_sorted(es: Seq<FsEntry>, n: nat)
    ensures
        in_name_order(es, sort_order(es, n)),
        sort_order(es, n).len() == n,
    decreases n,
{
    if n > 0 {
        let o = sort_order(es, (n - 1) as nat);
        lemma_sort_order_sorted(es, (n - 1) as nat);
        let k = n - 1;
        let p = insert_pos(es, o, k, 0);
        lemma_insert_pos(es, o, k, 0);
        let r = o.insert(p, k);
        assert forall|j: int, t: int| 0 <= j < t < r.len() implies !name_lt(
            #[trigger] es[r[t]].name@,
            #[trigger] es[r[j]].name@,
        ) by {
            if t < p {
                assert(r[t] == o[t] && r[j] == o[j]);
                assert(!name_lt(es[o[t]].name@, es[o[j]].name@));
            } else if t == p {
                assert(r[j] == o[j]);
                assert(r[t] == k);
                assert(!name_lt(es[k].name@, es[o[j]].name@));
            } else if j > p {
                assert(r[t] == o[t - 1] && r[j] == o[j - 1]);
                assert(!name_lt(es[o[t - 1]].name@, es[o[j - 1]].name@));
            } else if j == p {
                assert(r[t] == o[t - 1]);
                assert(r[j] == k);
                if name_lt(es[o[t - 1]].name@, es[k].name@) {
                    if t - 1 > p {
                        lemma_name_lt_trans(es[o[t - 1]].name@, es[k].name@, es[o[p]].name@);
                        assert(!name_lt(es[o[t - 1]].name@, es[o[p]].name@));
                    } else {
                        lemma_name_lt_trans(es[o[p]].name@, es[k].name@, es[o[p]].name@);
                        lemma_name_lt_irrefl(es[o[p]].name@);
                    }
                }
            } else {
                assert(r[t] == o[t - 1] && r[j] == o[j]);
                assert(!name_lt(es[o[t - 1]].name@, es[o[j]].name@));
            }
        }
        assert(sort_order(es, n) == r);
    }
}

/// The entries of a directory are taken in ascending order of file name: no
/// later entry's name comes before an earlier one's.
pub proof fn lemma_children_in_name_order(es: Seq<FsEntry>)
    ensures
        in_name_order(es, name_order(es)),
        name_order(es).len() == es.len(),
{
    lemma_sort_order_sorted(es, es.len());
}


proof fn lemma_loaded_children_enriched(
    cs: Seq<Instance>,
    es: Seq<FsEntry>,
    ord: Seq<int>,
    pp: Seq<char>,
    top: bool,
)
    requires
        loaded_children(cs, es, ord, pp, top),
    ensures
        list_enriched(cs),
    decreases es, ord.len(),
{
    if ord.len() > 0 {
        let k = ord.last();
        if entry_skipped(es[k]) {
            lemma_loaded_children_enriched(cs, es, ord.drop_last(), pp, top);
        } else {
            lemma_loaded_children_enriched(cs.drop_last(), es, ord.drop_last(), pp, top);
            lemma_loaded_enriched(cs.last(), es[k], pp, top);
        }
    }
}

/// Every node that the loader builds carries its derived data, so bounds
/// and centers hold throughout a loaded tree.
pub proof fn lemma_loaded_enriched(inst: Instance, e: FsEntry, pp: Seq<char>, top: bool)
    requires
        loaded_entry(inst, e, pp, top),
    ensures
        tree_enriched(inst),
    decreases e, 0nat,
{
    let full = pp + "/"@ + entry_name(e);
    if e.is_dir {
        lemma_loaded_children_enriched(
            inst.children@,
            e.children@,
            name_order(e.children@),
            full,
            false,
        );
    } else {
        assert(inst.children@.len() == 0);
    }
}


/// Whether two trees hold the same data: ids, names, classes, properties,
/// paths, bounds, centers, and children in the same order.
pub open spec fn same_tree(a: Instance, b: Instance) -> bool
    decreases a, 1nat,
{
    &&& a.id == b.id
    &&& a.name@ == b.name@
    &&& a.class_name@ == b.class_name@
    &&& a.properties@ == b.properties@
    &&& a.full_path@ == b.full_path@
    &&& a.world_bounds == b.world_bounds
    &&& a.center == b.center
    &&& same_trees(a.children@, b.children@)
}

pub open spec fn same_trees(a: Seq<Instance>, b: Seq<Instance>) -> bool
    decreases a, a.len(),
{
    a.len() == b.len() && (a.len() == 0 || (same_trees(a.drop_last(), b.drop_last()) && same_tree(
        a.last(),
        b.last(),
    )))
}

proof fn lemma_children_deterministic(
    c1: Seq<Instance>,
    c2: Seq<Instance>,
    es: Seq<FsEntry>,
    ord: Seq<int>,
    pp: Seq<char>,
    top: bool,
)
    requires
        loaded_children(c1, es, ord, pp, top),
        loaded_children(c2, es, ord, pp, top),
    ensures
        same_trees(c1, c2),
    decreases es, ord.len(),
{
    if ord.len() > 0 {
        let k = ord.last();
        if entry_skipped(es[k]) {
            lemma_children_deterministic(c1, c2, es, ord.drop_last(), pp, top);
        } else {
            lemma_children_deterministic(
                c1.drop_last(),
                c2.drop_last(),
                es,
                ord.drop_last(),
                pp,
                top,
            );
            lemma_load_deterministic(c1.last(), c2.last(), es[k], pp, top);
        }
    }
}

/// Loading is deterministic: two nodes built from the same entry at the
/// same place hold the same data throughout.
pub proof fn lemma_load_deterministic(
    a: Instance,
    b: Instance,
    e: FsEntry,
    pp: Seq<char>,
    top: bool,
)
    requires
        loaded_entry(a, e, pp, top),
        loaded_entry(b, e, pp, top),
    ensures
        same_tree(a, b),
    decreases e, 0nat,
{
    let full = pp + "/"@ + entry_name(e);
    if e.is_dir {
        lemma_children_deterministic(
            a.children@,
            b.children@,
            e.children@,
            name_order(e.children@),
            full,
            false,
        );
    } else {
        assert(same_trees(a.children@, b.children@));
    }
    lemma_same_trees_hull(a.children@, b.children@);
}

proof fn lemma_same_trees_hull(a: Seq<Instance>, b: Seq<Instance>)
    requires
        same_trees(a, b),
    ensures
        children_hull(a) == children_hull(b),
    decreases a.len(),
{
    if a.len() > 0 {
        lemma_same_trees_hull(a.drop_last(), b.drop_last());
        assert(same_tree(a.last(), b.last()));
        assert(a.last().world_bounds == b.last().world_bounds);
    }
}


/// Whether a path holds a backslash.
pub open spec fn has_backslash(s: Seq<char>) -> bool {
    exists|i: int| 0 <= i < s.len() && s[i] == '\\'
}

proof fn lemma_slashed_forward(s: Seq<char>)
    ensures
        !has_backslash(slashed(s)),
{
    assert forall|i: int| 0 <= i < slashed(s).len() implies slashed(s)[i] != '\\' by {}
}

/// A loaded node's id is the name-based UUID of its own path from the
/// root (`game/...`) written with forward slashes only: it depends on
/// nothing else, so it is the same wherever the project lies and whatever
/// separator the host uses.
pub proof fn lemma_id_from_path(inst: Instance, e: FsEntry, pp: Seq<char>, top: bool)
    requires
        loaded_entry(inst, e, pp, top),
    ensures
        inst.id == oid_v5(slashed(inst.full_path@)),
        !has_backslash(slashed(inst.full_path@)),
{
    lemma_slashed_forward(inst.full_path@);
}

} // verus!
