use ludock::loader::{load_project, FsEntry};
use ludock::render::{collect_parts, layout_gui};

fn file(name: &str, contents: &str) -> FsEntry {
    FsEntry { name: name.to_string(), is_dir: false, contents: contents.to_string(), children: Vec::new() }
}

fn dir(name: &str, children: Vec<FsEntry>) -> FsEntry {
    FsEntry { name: name.to_string(), is_dir: true, contents: String::new(), children }
}

#[test]
fn red_part_is_collected() {
    let game = vec![dir("Workspace", vec![file("Brick.part", "ClassName = Part\nSize = Vector3.new(4,1,2)\nCFrame = CFrame.new(0,0.5,0)\nColor = Color3.fromRGB(255,0,0)")])];
    let root = load_project("/p", &Some(game)).unwrap();
    let parts = collect_parts(&root);
    assert_eq!(parts.len(), 1);
    assert_eq!(parts[0].color, [255, 0, 0]);
    assert_eq!(parts[0].shape, "Block");
    assert_eq!(parts[0].frame[1], 500_000);
}

#[test]
fn ball_shape() {
    let game = vec![dir("Workspace", vec![file("Ball.part", "Shape = Enum.PartType.Ball\nSize = Vector3.new(2,2,2)\nCFrame = CFrame.new(0,0,0)")])];
    let root = load_project("/p", &Some(game)).unwrap();
    let parts = collect_parts(&root);
    assert_eq!(parts.len(), 1);
    assert_eq!(parts[0].shape, "Ball");
    assert_eq!(parts[0].size.x, 2_000_000);
    assert_eq!(parts[0].color, [163, 162, 165]);
}

#[test]
fn unplaced_parts_are_not_drawn() {
    let game = vec![dir("Workspace", vec![file("a.part", "Size = Vector3.new(1,1,1)"), file("b.part", "Position = Vector3.new(1,1,1)")])];
    let root = load_project("/p", &Some(game)).unwrap();
    let parts = collect_parts(&root);
    assert_eq!(parts.len(), 1);
    assert_eq!(parts[0].frame[0], 1_000_000);
}

#[test]
fn gui_layout() {
    let game = vec![dir(
        "StarterGui",
        vec![dir(
            "Main.gui",
            vec![file(
                "Panel.frame",
                "Position = UDim2.new(0.25,0,0.25,0)\nSize = UDim2.new(0.5,0,0.5,0)\nBackgroundColor3 = Color3.fromRGB(0,255,0)",
            )],
        )],
    )];
    let root = load_project("/p", &Some(game)).unwrap();
    let rects = layout_gui(&root);
    assert_eq!(rects.len(), 1);
    let r = rects[0];
    assert_eq!((r.x, r.y, r.w, r.h), (200, 150, 400, 300));
    assert_eq!((r.r, r.g, r.b), (0, 255, 0));
}

#[test]
fn nested_frames_and_offsets() {
    let game = vec![dir(
        "StarterGui",
        vec![dir(
            "Main.gui",
            vec![dir(
                "Outer.frame",
                vec![file("Inner.frame", "Position = UDim2.new(0.5, 10, 0, -5)\nSize = UDim2.new(0.5, 0, 1, 0)")],
            )],
        )],
    )];
    let root = load_project("/p", &Some(game)).unwrap();
    let rects = layout_gui(&root);
    assert_eq!(rects.len(), 2);
    assert_eq!((rects[0].x, rects[0].y, rects[0].w, rects[0].h), (0, 0, 800, 600));
    assert_eq!((rects[0].r, rects[0].g, rects[0].b), (255, 255, 255));
    assert_eq!((rects[1].x, rects[1].y, rects[1].w, rects[1].h), (410, -5, 400, 600));
}

#[test]
fn color_channels_round_to_bytes() {
    let game = vec![dir("Workspace", vec![file("p.part", "Position = Vector3.new(0,0,0)\nColor = Color3.fromRGB(128, 1, 254)")])];
    let root = load_project("/p", &Some(game)).unwrap();
    assert_eq!(collect_parts(&root)[0].color, [128, 1, 254]);
}

#[test]
fn cylinder_shape_from_enum_tail() {
    let game = vec![dir("Workspace", vec![file("c.basepart", "Shape = Enum.PartType.Cylinder\nCFrame = CFrame.new(1,2,3)")])];
    let root = load_project("/p", &Some(game)).unwrap();
    let parts = collect_parts(&root);
    assert_eq!(parts[0].shape, "Cylinder");
    assert_eq!(parts[0].size.x, 4_000_000);
}

#[test]
fn half_channel_truncates() {
    let game = vec![dir("Workspace", vec![file("p.part", "Position = Vector3.new(0,0,0)\nColor = Color3.new(0.5, 1, 0.999)")])];
    let root = load_project("/p", &Some(game)).unwrap();
    assert_eq!(collect_parts(&root)[0].color, [127, 255, 254]);
}
