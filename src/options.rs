//! Run options, presets, and what a run does after analysis.

use vstd::prelude::*;
use crate::errors::LuDockError;
use crate::text::str_eq;

verus! {

/// What a run does.
#[derive(Debug)]
pub struct RunOptions {
    pub render: bool,
    pub relaxed: bool,
    pub target: Option<String>,
    pub diff: bool,
    pub debug_bounds: bool,
    pub debug_origin: bool,
    pub debug_axes: bool,
}

/// The debug overlays a render draws.
#[derive(Debug)]
pub struct RenderOptions {
    pub debug_bounds: bool,
    pub debug_origin: bool,
    pub debug_axes: bool,
}

/// The presets that `apply_preset` knows.
pub open spec fn is_known_preset(p: Seq<char>) -> bool {
    p == "agent"@ || p == "ci"@ || p == "debug"@
}

/// The options after applying a known preset to `o`.
pub open spec fn preset_applied(o: RunOptions, p: Seq<char>) -> RunOptions {
    if p == "agent"@ {
        RunOptions {
            relaxed: false,
            render: true,
            diff: true,
            debug_bounds: true,
            debug_origin: true,
            debug_axes: true,
            ..o
        }
    } else if p == "ci"@ {
        RunOptions { relaxed: false, diff: true, ..o }
    } else {
        RunOptions {
            relaxed: true,
            render: true,
            debug_bounds: true,
            debug_origin: true,
            debug_axes: true,
            ..o
        }
    }
}

/// Applies a named preset to the options; an unknown name is a configuration
/// error and leaves the options as they were.
pub fn apply_preset(opts: &mut RunOptions, preset: &str) -> (r: Result<(), LuDockError>)
    ensures
        r is Ok <==> is_known_preset(preset@),
        r is Ok ==> *final(opts) == preset_applied(*old(opts), preset@),
        r is Err ==> *final(opts) == *old(opts),
        r matches Err(e) ==> e is ConfigError,
{
    proof {
        reveal_strlit("agent");
        reveal_strlit("ci");
        reveal_strlit("debug");
    }
    if str_eq(preset, "agent") {
        opts.relaxed = false;
        opts.render = true;
        opts.diff = true;
        opts.debug_bounds = true;
        opts.debug_origin = true;
        opts.debug_axes = true;
        Ok(())
    } else if str_eq(preset, "ci") {
        opts.relaxed = false;
        opts.diff = true;
        Ok(())
    } else if str_eq(preset, "debug") {
        opts.relaxed = true;
        opts.render = true;
        opts.debug_bounds = true;
        opts.debug_origin = true;
        opts.debug_axes = true;
        Ok(())
    } else {
        let mut msg = String::from_str("Unknown preset: ");
        msg.append(preset);
        Err(LuDockError::ConfigError(msg))
    }
}


/// What a run does once analysis has ended.
#[derive(Clone, Copy, Debug, PartialEq, Eq, Structural)]
pub enum AnalysisStep {
    /// Go on to render.
    Proceed,
    /// The analyzer failed in relaxed mode: write an empty report, go on.
    ProceedWithEmptyReport,
    /// Strict mode and errors, or a failed analyzer: exit with code 1, no render.
    Abort,
}

/// The step after analysis: `errors` is the number of findings, `None`
/// where the analyzer could not be run.
pub fn after_analysis(relaxed: bool, errors: Option<usize>) -> (r: AnalysisStep)
    ensures
        r == (match errors {
            None => if relaxed {
                AnalysisStep::ProceedWithEmptyReport
            } else {
                AnalysisStep::Abort
            },
            Some(n) => if !relaxed && n > 0 {
                AnalysisStep::Abort
            } else {
                AnalysisStep::Proceed
            },
        }),
{
    match errors {
        None => if relaxed {
            AnalysisStep::ProceedWithEmptyReport
        } else {
            AnalysisStep::Abort
        },
        Some(n) => if !relaxed && n > 0 {
            AnalysisStep::Abort
        } else {
            AnalysisStep::Proceed
        },
    }
}

/// The overlays that a run's options ask the renderer for.
pub fn render_options(o: &RunOptions) -> (r: RenderOptions)
    ensures
        r.debug_bounds == o.debug_bounds,
        r.debug_origin == o.debug_origin,
        r.debug_axes == o.debug_axes,
{
    RenderOptions {
        debug_bounds: o.debug_bounds,
        debug_origin: o.debug_origin,
        debug_axes: o.debug_axes,
    }
}

} // verus!
