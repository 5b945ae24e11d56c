use ludock::bounds::compute_derived_data;
use ludock::datamodel::AabbWrapper;
use ludock::datamodel::{Instance, PropertyValue, Vec3Wrapper};
use ludock::errors::LuDockError;
use ludock::loader::{clean_name, infer_class_from_name, load_project, map_extension_to_class, FsEntry};

fn file(name: &str, contents: &str) -> FsEntry {
    FsEntry { name: name.to_string(), is_dir: false, contents: contents.to_string(), children: Vec::new() }
}

fn dir(name: &str, children: Vec<FsEntry>) -> FsEntry {
    FsEntry { name: name.to_string(), is_dir: true, contents: String::new(), children }
}

fn child<'a>(i: &'a Instance, name: &str) -> &'a Instance {
    i.children.iter().find(|c| c.name == name).expect("child")
}

fn v(x: f64, y: f64, z: f64) -> Vec3Wrapper {
    Vec3Wrapper {
        x: (x * 1_000_000.0).round() as i64,
        y: (y * 1_000_000.0).round() as i64,
        z: (z * 1_000_000.0).round() as i64,
    }
}

fn oid(s: &str) -> u128 {
    uuid::Uuid::new_v5(&uuid::Uuid::NAMESPACE_OID, s.as_bytes()).as_u128()
}

const BRICK: &str = "ClassName = Part\nSize = Vector3.new(4,1,2)\nCFrame = CFrame.new(0,0.5,0)\nColor = Color3.fromRGB(255,0,0)";

#[test]
fn single_part_scenario() {
    let game = vec![dir("Workspace", vec![file("Brick.part", BRICK)])];
    let root = load_project("/proj", &Some(game)).unwrap();
    let ws = child(&root, "Workspace");
    assert_eq!(ws.class_name, "Workspace");
    let brick = child(ws, "Brick");
    assert_eq!(brick.class_name, "Part");
    assert_eq!(brick.full_path, "game/Workspace/Brick");
    let b = brick.world_bounds.unwrap();
    assert_eq!(b.min, v(-2.0, 0.0, -1.0));
    assert_eq!(b.max, v(2.0, 1.0, 1.0));
    assert_eq!(brick.center, Some(v(0.0, 0.5, 0.0)));
}

#[test]
fn root_shape() {
    let root = load_project("/proj", &Some(Vec::new())).unwrap();
    assert_eq!(root.name, "DataModel");
    assert_eq!(root.class_name, "DataModel");
    assert_eq!(root.full_path, "game");
    assert_eq!(root.id, oid("game"));
    assert!(root.world_bounds.is_none());
    assert!(root.center.is_none());
}

#[test]
fn missing_game_directory() {
    match load_project("/proj", &None) {
        Err(e) => assert!(matches!(e, LuDockError::WorldError(_))),
        Ok(_) => panic!("expected an error"),
    }
}

#[test]
fn ids_derive_from_forward_slash_paths() {
    let game = vec![dir("Workspace", vec![file("Brick.part", BRICK), dir("a\\b", vec![])])];
    let root = load_project("C:\\proj", &Some(game)).unwrap();
    let ws = child(&root, "Workspace");
    assert_eq!(ws.id, oid("game/Workspace"));
    assert_eq!(child(ws, "Brick").id, oid("game/Workspace/Brick"));
    assert_eq!(child(ws, "a\\b").id, oid("game/Workspace/a/b"));
}

#[test]
fn ids_do_not_depend_on_project_location() {
    let make = || vec![dir("Workspace", vec![file("Brick.part", BRICK)])];
    let a = load_project("/one/place", &Some(make())).unwrap();
    let b = load_project("/another", &Some(make())).unwrap();
    assert_eq!(child(child(&a, "Workspace"), "Brick").id, child(child(&b, "Workspace"), "Brick").id);
}

#[test]
fn children_in_file_name_order() {
    let game = vec![dir(
        "Workspace",
        vec![file("b.part", ""), file("a.part", ""), file("C.part", ""), file("a.model", "")],
    )];
    let root = load_project("/p", &Some(game)).unwrap();
    let names: Vec<&str> = child(&root, "Workspace").children.iter().map(|c| c.full_path.as_str()).collect();
    assert_eq!(names, vec!["game/Workspace/C", "game/Workspace/a", "game/Workspace/a", "game/Workspace/b"]);
    let classes: Vec<&str> = child(&root, "Workspace").children.iter().map(|c| c.class_name.as_str()).collect();
    assert_eq!(classes, vec!["Part", "Model", "Part", "Part"]);
}

#[test]
fn determinism() {
    let make = || {
        vec![
            dir("Workspace", vec![file("Brick.part", BRICK), dir("G.model", vec![file("x.part", "Position = Vector3.new(1,2,3)")])]),
            dir("StarterGui", vec![]),
        ]
    };
    let a = load_project("/p", &Some(make())).unwrap();
    let b = load_project("/p", &Some(make())).unwrap();
    let r = ludock::diff::compare_worlds(&a, &b);
    assert_eq!(r.status, "unchanged");
    assert_eq!(a.children[1].children[0].id, b.children[1].children[0].id);
}

#[test]
fn nested_folder_bounds() {
    let game = vec![dir("Workspace", vec![dir("Group.folder", vec![file("Child.part", "Position = Vector3.new(10, 0, 0)")])])];
    let root = load_project("/p", &Some(game)).unwrap();
    let group = child(child(&root, "Workspace"), "Group");
    assert_eq!(group.class_name, "Folder");
    let part = child(group, "Child");
    assert!(group.world_bounds.is_some());
    assert_eq!(group.world_bounds, part.world_bounds);
    assert_eq!(part.world_bounds.unwrap().min, v(8.0, -0.5, -1.0));
    assert_eq!(part.world_bounds.unwrap().max, v(12.0, 0.5, 1.0));
}

#[test]
fn bounds_aggregate_over_descendants() {
    let game = vec![dir(
        "Workspace",
        vec![
            file("a.part", "Position = Vector3.new(-10, 0, 0)"),
            dir("m.model", vec![file("b.part", "Position = Vector3.new(0, 5, 0)\nSize = Vector3.new(2, 2, 2)")]),
            file("label.label", "Text = \"x\""),
        ],
    )];
    let root = load_project("/p", &Some(game)).unwrap();
    let ws = child(&root, "Workspace");
    let b = ws.world_bounds.unwrap();
    assert_eq!(b.min, v(-12.0, -0.5, -1.0));
    assert_eq!(b.max, v(1.0, 6.0, 1.0));
    assert_eq!(ws.center, Some(v(-5.5, 2.75, 0.0)));
    assert_eq!(root.world_bounds, ws.world_bounds);
    assert!(child(ws, "label").world_bounds.is_none());
}

#[test]
fn script_ingestion() {
    let game = vec![dir("ServerScriptService", vec![file("main.server.lua", "print(\"hi\")")])];
    let root = load_project("/p", &Some(game)).unwrap();
    let s = child(child(&root, "ServerScriptService"), "main");
    assert_eq!(s.class_name, "Script");
    assert_eq!(s.full_path, "game/ServerScriptService/main");
    assert_eq!(s.properties.get("Source"), Some(&PropertyValue::String("print(\"hi\")".to_string())));
}

#[test]
fn local_and_module_scripts() {
    let game = vec![dir("StarterPack", vec![file("a.local.lua", "x"), file("b.module.lua", "y")])];
    let root = load_project("/p", &Some(game)).unwrap();
    let pack = child(&root, "StarterPack");
    assert_eq!(child(pack, "a").class_name, "LocalScript");
    assert_eq!(child(pack, "b").class_name, "ModuleScript");
}

#[test]
fn skipped_files() {
    let game = vec![dir("Workspace", vec![file("data.json", "{}"), file("README", "x"), file("odd.", "x"), file(".hidden", "x")])];
    let root = load_project("/p", &Some(game)).unwrap();
    assert!(child(&root, "Workspace").children.is_empty());
}

#[test]
fn name_override_and_unknown_extension() {
    let game = vec![dir("Workspace", vec![file("thing.xyz", "Name = Renamed")])];
    let root = load_project("/p", &Some(game)).unwrap();
    let t = &child(&root, "Workspace").children[0];
    assert_eq!(t.name, "Renamed");
    assert_eq!(t.class_name, "Unknown");
    assert_eq!(t.full_path, "game/Workspace/Renamed");
}

#[test]
fn services_only_under_root() {
    let game = vec![dir("Workspace", vec![dir("Lighting", vec![]), dir("w.model", vec![])])];
    let root = load_project("/p", &Some(game)).unwrap();
    let ws = child(&root, "Workspace");
    assert_eq!(child(ws, "Lighting").class_name, "Folder");
    assert_eq!(child(ws, "w").class_name, "Model");
}

#[test]
fn class_helpers() {
    assert_eq!(map_extension_to_class("part"), "Part");
    assert_eq!(map_extension_to_class("basepart"), "Part");
    assert_eq!(map_extension_to_class("gui"), "ScreenGui");
    assert_eq!(map_extension_to_class("button"), "TextButton");
    assert_eq!(map_extension_to_class("zzz"), "Folder");
    assert_eq!(infer_class_from_name("widgets.model", true), "Model");
    assert_eq!(infer_class_from_name("Workspace", true), "Workspace");
    assert_eq!(infer_class_from_name("stuff", true), "Folder");
    assert_eq!(infer_class_from_name("stuff", false), "Unknown");
    assert_eq!(clean_name("widgets.model"), "widgets");
    assert_eq!(clean_name("Group.folder"), "Group");
    assert_eq!(clean_name("a.b"), "a.b");
    assert_eq!(clean_name("Workspace"), "Workspace");
}

#[test]
fn instance_new_id() {
    let i = Instance::new("n", "Part", "some/path");
    assert_eq!(i.id, oid("some/path"));
    assert_ne!(i.id, oid("some/other"));
}

#[test]
fn enrichment_pass_over_a_whole_tree() {
    let mut part = Instance::new("P", "Part", "game/F/P");
    part.properties.insert("Position".to_string(), PropertyValue::Vector3(v(1.0, 2.0, 3.0)));
    let mut folder = Instance::new("F", "Folder", "game/F");
    folder.children.push(part);
    let r = compute_derived_data(&mut folder);
    let pb = folder.children[0].world_bounds.unwrap();
    assert_eq!(pb.min, v(-1.0, 1.5, 2.0));
    assert_eq!(pb.max, v(3.0, 2.5, 4.0));
    assert_eq!(folder.world_bounds, Some(pb));
    assert_eq!(r, Some(pb));
    assert_eq!(folder.center, Some(v(1.0, 2.0, 3.0)));
    assert_eq!(folder.children[0].name, "P");
}

#[test]
fn enrichment_replaces_stale_bounds() {
    let mut label = Instance::new("L", "TextLabel", "game/P/L");
    label.world_bounds = Some(AabbWrapper { min: v(100.0, 100.0, 100.0), max: v(200.0, 200.0, 200.0) });
    let mut part = Instance::new("P", "Part", "game/P");
    part.children.push(label);
    let r = compute_derived_data(&mut part);
    assert_eq!(part.children[0].world_bounds, None);
    assert_eq!(r, Some(AabbWrapper { min: v(-2.0, -0.5, -1.0), max: v(2.0, 0.5, 1.0) }));
}

#[test]
fn no_parts_no_bounds() {
    let mut folder = Instance::new("F", "Folder", "game/F");
    folder.children.push(Instance::new("M", "Model", "game/F/M"));
    assert_eq!(compute_derived_data(&mut folder), None);
    assert_eq!(folder.center, None);
}

#[test]
fn clone_keeps_the_tree() {
    let game = vec![dir("Workspace", vec![file("Brick.part", BRICK)])];
    let root = load_project("/p", &Some(game)).unwrap();
    let copy = root.clone();
    let r = ludock::diff::compare_worlds(&root, &copy);
    assert_eq!(r.status, "unchanged");
    assert_eq!(copy.children[0].children[0].properties.len(), root.children[0].children[0].properties.len());
}
