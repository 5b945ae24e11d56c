use ludock::errors::LuDockError;
use ludock::options::{after_analysis, apply_preset, AnalysisStep, RunOptions};

fn plain() -> RunOptions {
    RunOptions {
        render: false,
        relaxed: true,
        target: None,
        diff: false,
        debug_bounds: false,
        debug_origin: false,
        debug_axes: false,
    }
}

#[test]
fn agent_preset() {
    let mut o = plain();
    assert!(apply_preset(&mut o, "agent").is_ok());
    assert!(!o.relaxed && o.render && o.diff && o.debug_bounds && o.debug_origin && o.debug_axes);
}

#[test]
fn ci_preset_leaves_render() {
    let mut o = plain();
    assert!(apply_preset(&mut o, "ci").is_ok());
    assert!(!o.relaxed && o.diff && !o.render && !o.debug_axes);
}

#[test]
fn debug_preset() {
    let mut o = plain();
    o.relaxed = false;
    assert!(apply_preset(&mut o, "debug").is_ok());
    assert!(o.relaxed && o.render && !o.diff && o.debug_bounds);
}

#[test]
fn unknown_preset_is_config_error() {
    let mut o = plain();
    match apply_preset(&mut o, "fast") {
        Err(e) => {
            assert!(matches!(e, LuDockError::ConfigError(_)));
            assert_eq!(e.exit_code(), 4);
        }
        Ok(()) => panic!("expected an error"),
    }
    assert!(o.relaxed && !o.render);
}

#[test]
fn exit_codes() {
    assert_eq!(LuDockError::AnalysisError(3).exit_code(), 1);
    assert_eq!(LuDockError::DslError(String::new()).exit_code(), 2);
    assert_eq!(LuDockError::WorldError(String::new()).exit_code(), 2);
    assert_eq!(LuDockError::RendererError(String::new()).exit_code(), 3);
    assert_eq!(LuDockError::IoError(String::new()).exit_code(), 4);
    assert_eq!(LuDockError::Unknown(String::new()).exit_code(), 5);
}

#[test]
fn strict_and_relaxed_steps() {
    assert_eq!(after_analysis(false, Some(2)), AnalysisStep::Abort);
    assert_eq!(after_analysis(false, None), AnalysisStep::Abort);
    assert_eq!(after_analysis(false, Some(0)), AnalysisStep::Proceed);
    assert_eq!(after_analysis(true, Some(2)), AnalysisStep::Proceed);
    assert_eq!(after_analysis(true, None), AnalysisStep::ProceedWithEmptyReport);
}
