use ludock::diff::compare_worlds;
use ludock::loader::{load_project, FsEntry};

fn file(name: &str, contents: &str) -> FsEntry {
    FsEntry { name: name.to_string(), is_dir: false, contents: contents.to_string(), children: Vec::new() }
}

fn dir(name: &str, children: Vec<FsEntry>) -> FsEntry {
    FsEntry { name: name.to_string(), is_dir: true, contents: String::new(), children }
}

fn world(files: Vec<FsEntry>) -> ludock::datamodel::Instance {
    load_project("/p", &Some(vec![dir("Workspace", files)])).unwrap()
}

#[test]
fn identical_trees_are_unchanged() {
    let t = world(vec![file("A.part", "Position = Vector3.new(1, 2, 3)\nAnchored = true")]);
    let r = compare_worlds(&t, &t);
    assert_eq!(r.status, "unchanged");
    assert_eq!(r.schema_version, "1.0");
    assert!(r.changes.added_instances.is_empty());
    assert!(r.changes.removed_instances.is_empty());
    assert!(r.changes.modified_instances.is_empty());
}

#[test]
fn added_and_moved() {
    let old = world(vec![file("A.part", "Position = Vector3.new(0, 0, 0)")]);
    let new = world(vec![
        file("A.part", "Position = Vector3.new(10, 0, 0)"),
        file("B.part", "Position = Vector3.new(5, 0, 0)"),
    ]);
    let r = compare_worlds(&old, &new);
    assert_eq!(r.status, "changed");
    assert_eq!(r.changes.added_instances, vec!["game/Workspace/B".to_string()]);
    assert!(r.changes.removed_instances.is_empty());
    let a = r.changes.modified_instances.iter().find(|d| d.path == "game/Workspace/A").unwrap();
    let s = a.spatial_change.unwrap();
    assert_eq!(s.displacement, 10_000_000);
    let dx = (s.new_center.x - s.old_center.x) as f64 / 1e6;
    let dy = (s.new_center.y - s.old_center.y) as f64 / 1e6;
    let dz = (s.new_center.z - s.old_center.z) as f64 / 1e6;
    assert!(((dx * dx + dy * dy + dz * dz).sqrt() - 10.0).abs() < 1e-6);
    assert_eq!(a.property_changes.len(), 1);
    assert_eq!(a.property_changes[0].0, "Position");
    assert_eq!(a.property_changes[0].1.old, "Vector3.new(0, 0, 0)");
    assert_eq!(a.property_changes[0].1.new, "Vector3.new(10, 0, 0)");
}

#[test]
fn removed_instances() {
    let old = world(vec![file("A.part", ""), file("B.part", "")]);
    let new = world(vec![file("A.part", "")]);
    let r = compare_worlds(&old, &new);
    assert_eq!(r.changes.removed_instances, vec!["game/Workspace/B".to_string()]);
    assert_eq!(r.status, "changed");
}

#[test]
fn one_property_change() {
    let old = world(vec![file("A.frame", "Transparency = 0.5\nName = A")]);
    let new = world(vec![file("A.frame", "Transparency = 0.75\nName = A")]);
    let r = compare_worlds(&old, &new);
    assert_eq!(r.changes.modified_instances.len(), 1);
    let d = &r.changes.modified_instances[0];
    assert_eq!(d.path, "game/Workspace/A");
    assert_eq!(d.property_changes.len(), 1);
    assert_eq!(d.property_changes[0].1.old, "0.5");
    assert_eq!(d.property_changes[0].1.new, "0.75");
    assert!(d.spatial_change.is_none());
}

#[test]
fn added_property_is_from_null() {
    let old = world(vec![file("A.frame", "")]);
    let new = world(vec![file("A.frame", "Visible = false\nText = \"x\"")]);
    let r = compare_worlds(&old, &new);
    let d = &r.changes.modified_instances[0];
    assert_eq!(d.property_changes.len(), 2);
    assert_eq!(d.property_changes[0].1.old, "null");
    assert_eq!(d.property_changes[0].1.new, "false");
    assert_eq!(d.property_changes[1].1.new, "\"x\"");
}

#[test]
fn removed_property_is_not_recorded() {
    let old = world(vec![file("A.frame", "Visible = false")]);
    let new = world(vec![file("A.frame", "")]);
    let r = compare_worlds(&old, &new);
    assert_eq!(r.status, "unchanged");
}

#[test]
fn spatial_threshold() {
    let old = world(vec![file("A.part", "Position = Vector3.new(0, 0, 0)\nAnchored = true")]);
    let small = world(vec![file("A.part", "Position = Vector3.new(0.000999, 0, 0)\nAnchored = true")]);
    let exact = world(vec![file("A.part", "Position = Vector3.new(0.001, 0, 0)\nAnchored = true")]);
    let over = world(vec![file("A.part", "Position = Vector3.new(0.001001, 0, 0)\nAnchored = true")]);
    let r = compare_worlds(&old, &small);
    assert!(r.changes.modified_instances.iter().all(|d| d.spatial_change.is_none()));
    let r = compare_worlds(&old, &exact);
    assert!(r.changes.modified_instances.iter().all(|d| d.spatial_change.is_none()));
    let r = compare_worlds(&old, &over);
    let a = r.changes.modified_instances.iter().find(|d| d.path == "game/Workspace/A").unwrap();
    assert!(a.spatial_change.is_some());
}

#[test]
fn value_texts_in_changes() {
    let old = world(vec![file("A.frame", "N = 3\nC = Color3.new(1, 0, 0.5)\nU = UDim2.new(0.5, -3, 1, 4)\nE = Enum.Font.Arial")]);
    let new = world(vec![file("A.frame", "N = -0.25\nC = Color3.new(0, 0, 0)\nU = UDim2.new(0, 0, 0, 0)\nE = Enum.Font.Code")]);
    let r = compare_worlds(&old, &new);
    let d = &r.changes.modified_instances[0];
    let texts: Vec<(&str, &str, &str)> =
        d.property_changes.iter().map(|(k, c)| (k.as_str(), c.old.as_str(), c.new.as_str())).collect();
    assert_eq!(
        texts,
        vec![
            ("N", "3", "-0.25"),
            ("C", "Color3.new(1, 0, 0.5)", "Color3.new(0, 0, 0)"),
            ("U", "UDim2.new(0.5, -3, 1, 4)", "UDim2.new(0, 0, 0, 0)"),
            ("E", "Enum.Font.Arial", "Enum.Font.Code"),
        ]
    );
}

#[test]
fn displacement_is_rounded_down_distance() {
    let old = world(vec![file("A.part", "Position = Vector3.new(0, 0, 0)")]);
    let new = world(vec![file("A.part", "Position = Vector3.new(1, 1, 0)")]);
    let r = compare_worlds(&old, &new);
    let a = r.changes.modified_instances.iter().find(|d| d.path == "game/Workspace/A").unwrap();
    assert_eq!(a.spatial_change.unwrap().displacement, 1_414_213);
}
