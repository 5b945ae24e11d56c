use ludock::analysis::{default_schema_version, diagnostics_from_output, parse_luau_line, DiagnosticsReport};

#[test]
fn line_with_column() {
    let d = parse_luau_line(
        "game/x.lua:5:16: Key 'Szie' not found in class 'Part'. Did you mean 'Size'?",
        "game/x.lua",
    )
    .unwrap();
    assert_eq!(d.file, "game/x.lua");
    assert_eq!(d.line, 5);
    assert_eq!(d.message, "Key 'Szie' not found in class 'Part'. Did you mean 'Size'?");
    assert_eq!(d.severity, "error");
    assert_eq!(d.code, Some("UnknownProperty".to_string()));
    assert_eq!(d.hint, Some("Did you mean 'Size".to_string()));
}

#[test]
fn line_without_column() {
    let d = parse_luau_line("a.lua:7: Type mismatch: number vs string", "f.lua").unwrap();
    assert_eq!(d.file, "f.lua");
    assert_eq!(d.line, 7);
    assert_eq!(d.message, "Type mismatch: number vs string");
    assert_eq!(d.code, Some("TypeMismatch".to_string()));
    assert_eq!(d.hint, None);
}

#[test]
fn unparseable_lines_are_ignored() {
    assert!(parse_luau_line("no colons here", "f.lua").is_none());
    assert!(parse_luau_line("a.lua:x: message", "f.lua").is_none());
    assert!(parse_luau_line("a.lua:5:6", "f.lua").is_none());
}

#[test]
fn output_lines_become_diagnostics() {
    let out = "a.lua:1:2: first\r\nnoise\na.lua:3: second\n";
    let ds = diagnostics_from_output(out, "a.lua");
    assert_eq!(ds.len(), 2);
    assert_eq!(ds[0].line, 1);
    assert_eq!(ds[0].message, "first");
    assert_eq!(ds[1].line, 3);
    assert_eq!(ds[1].message, "second");
}

#[test]
fn empty_report() {
    let r = DiagnosticsReport::empty();
    assert!(r.errors.is_empty());
    assert_eq!(r.schema_version, "1.0");
    assert_eq!(default_schema_version(), "1.0");
}

#[test]
fn lone_carriage_return_at_end_stays() {
    let ds = diagnostics_from_output("a.lua:2: msg\r\na.lua:3: last\r", "a.lua");
    assert_eq!(ds.len(), 2);
    assert_eq!(ds[0].message, "msg");
    assert_eq!(ds[1].message, "last");
}
