use ludock::datamodel::PropertyValue;
use ludock::parser::{parse_assignment, parse_instance_dsl, parse_vector3};

fn units(v: i64) -> f64 {
    v as f64 / 1_000_000.0
}

fn num(x: f64) -> i64 {
    (x * 1_000_000.0).round() as i64
}

#[test]
fn test_parse_vector3() {
    let input = "Vector3.new(10, 20, 30.5)";
    let (_, val) = parse_vector3(input).unwrap();
    if let PropertyValue::Vector3(v) = val {
        assert_eq!(units(v.x), 10.0);
        assert_eq!(units(v.y), 20.0);
        assert_eq!(units(v.z), 30.5);
    } else {
        panic!("Expected Vector3");
    }
}

#[test]
fn test_parse_simple_assignment() {
    let input = "Name = \"TestPart\"";
    let (_, (key, val)) = parse_assignment(input).unwrap();
    assert_eq!(key, "Name");
    assert_eq!(val, PropertyValue::String("TestPart".to_string()));
}

#[test]
fn test_parse_full_dsl() {
    let input = r#"
            ClassName = Part
            Transparency = 0.5
            Anchored = true
            Size = Vector3.new(4, 1, 2)
            Color = Color3.fromRGB(255, 0, 0)
        "#;
    let (_, props) = parse_instance_dsl(input);

    assert_eq!(props.get("ClassName"), Some(&PropertyValue::String("Part".to_string())));
    assert_eq!(props.get("Transparency"), Some(&PropertyValue::Number(num(0.5))));
    assert_eq!(props.get("Anchored"), Some(&PropertyValue::Bool(true)));

    if let Some(PropertyValue::Vector3(v)) = props.get("Size") {
        assert_eq!(units(v.x), 4.0);
    } else {
        panic!("Size wrong type");
    }

    if let Some(PropertyValue::Color3(c)) = props.get("Color") {
        assert_eq!(units(c.r), 1.0);
    } else {
        panic!("Color wrong type");
    }
}

#[test]
fn later_assignment_overrides_earlier() {
    let (rest, props) = parse_instance_dsl("A = 1\nB = 2\nA = 3\n");
    assert_eq!(rest, "");
    assert_eq!(props.len(), 2);
    assert_eq!(props.entries[0].0, "A");
    assert_eq!(props.get("A"), Some(&PropertyValue::Number(3_000_000)));
    assert_eq!(props.get("B"), Some(&PropertyValue::Number(2_000_000)));
}

#[test]
fn parsing_stops_at_first_bad_assignment() {
    let (rest, props) = parse_instance_dsl("A = true\n= oops\nB = 1");
    assert_eq!(props.len(), 1);
    assert_eq!(rest, "= oops\nB = 1");
}

#[test]
fn every_value_form() {
    let (_, props) = parse_instance_dsl(
        "S = \"hi there\"\nI = Part\nN = -2.25\nC = CFrame.new(1, 2, 3)\nK = Color3.new(0.5, 1, 0)\nU = UDim2.new(0.25, 10, 0.5, -7)\nE = Enum.PartType.Ball\nF = false\n",
    );
    assert_eq!(props.get("S"), Some(&PropertyValue::String("hi there".to_string())));
    assert_eq!(props.get("I"), Some(&PropertyValue::String("Part".to_string())));
    assert_eq!(props.get("N"), Some(&PropertyValue::Number(-2_250_000)));
    assert_eq!(props.get("F"), Some(&PropertyValue::Bool(false)));
    assert_eq!(props.get("E"), Some(&PropertyValue::Enum("Enum.PartType.Ball".to_string())));
    match props.get("C") {
        Some(PropertyValue::CFrame(c)) => {
            assert_eq!(c.position.x, 1_000_000);
            assert_eq!(
                c.components,
                [1_000_000, 2_000_000, 3_000_000, 1_000_000, 0, 0, 0, 1_000_000, 0, 0, 0, 1_000_000]
            );
        }
        _ => panic!("CFrame wrong type"),
    }
    match props.get("K") {
        Some(PropertyValue::Color3(c)) => {
            assert_eq!((c.r, c.g, c.b), (500_000, 1_000_000, 0));
        }
        _ => panic!("Color wrong type"),
    }
    match props.get("U") {
        Some(PropertyValue::UDim2(u)) => {
            assert_eq!((u.xs, u.xo, u.ys, u.yo), (250_000, 10, 500_000, -7));
        }
        _ => panic!("UDim2 wrong type"),
    }
}

#[test]
fn from_rgb_divides_by_255() {
    let (_, props) = parse_instance_dsl("C = Color3.fromRGB(128, 0, 255)");
    match props.get("C") {
        Some(PropertyValue::Color3(c)) => {
            assert_eq!(c.r, 501_961);
            assert_eq!(c.g, 0);
            assert_eq!(c.b, 1_000_000);
        }
        _ => panic!("Color wrong type"),
    }
}

#[test]
fn number_fraction_is_held_to_millionths() {
    let (_, props) = parse_instance_dsl("N = 0.1234567");
    assert_eq!(props.get("N"), Some(&PropertyValue::Number(123_456)));
}

#[test]
fn bare_true_prefix_is_bool() {
    let (_, (_, v)) = parse_assignment("X = true").unwrap();
    assert_eq!(v, PropertyValue::Bool(true));
}

#[test]
fn empty_input_has_no_properties() {
    let (rest, props) = parse_instance_dsl("");
    assert_eq!(rest, "");
    assert_eq!(props.len(), 0);
    let (rest, props) = parse_instance_dsl("  \n\t ");
    assert_eq!(rest, "");
    assert_eq!(props.len(), 0);
}

#[test]
fn number_too_large_stops_parsing() {
    let (rest, props) = parse_instance_dsl("A = 1\nN = 99999999999999999999\nB = 2");
    assert_eq!(props.len(), 1);
    assert_eq!(rest, "N = 99999999999999999999\nB = 2");
    let (_, props) = parse_instance_dsl("N = 9223372036854.775807");
    assert_eq!(props.get("N"), Some(&PropertyValue::Number(i64::MAX)));
}

#[test]
fn unterminated_string_is_not_a_value() {
    assert!(parse_assignment("S = \"abc").is_none());
}

#[test]
fn not_a_vector() {
    assert!(parse_vector3("Vector3.new(1, 2)").is_none());
    assert!(parse_vector3("Vector3.new(1, 2, x)").is_none());
}
