//! The `charli3 aggregate` invocation: configuration, argument vector, and
//! the classification of the finished process.
use vstd::prelude::*;


verus! {

/// Configuration of one `charli3 aggregate` invocation.
#[derive(Debug, Clone, PartialEq, Eq)]
pub struct AggregateConfig {
    /// Path of the Charli3 YAML config file.
    pub config_file: String,
    /// Pass `--auto-submit` (submit without confirmation).
    pub auto_submit: bool,
    /// Path of a saved feed JSON to pass as `--feed-data`, if any.
    pub feed_data: Option<String>,
}

impl AggregateConfig {
    /// The MVP configuration: the given config file, auto-submit on, no saved feed data.
    pub fn new_mvp(config_file: String) -> (c: Self)
        ensures
            c.config_file@ == config_file@,
            c.auto_submit,
            c.feed_data is None,
    {
        AggregateConfig { config_file, auto_submit: true, feed_data: None }
    }
}

/// The argument vector for a configuration, in the fixed flag order:
/// `aggregate`, `--config <path>`, then `--auto-submit` if enabled, then
/// `--feed-data <path>` if set.
pub open spec fn aggregate_args(c: AggregateConfig) -> Seq<Seq<char>> {
    seq!["aggregate"@, "--config"@, c.config_file@] + (if c.auto_submit {
        seq!["--auto-submit"@]
    } else {
        Seq::empty()
    }) + match c.feed_data {
        Some(p) => seq!["--feed-data"@, p@],
        None => Seq::empty(),
    }
}

/// Build the `charli3 aggregate` argument vector. Pure and deterministic.
pub fn build_aggregate_args(config: &AggregateConfig) -> (args: Vec<String>)
    ensures
        args@.map_values(|s: String| s@) == aggregate_args(*config),
{
    let mut args: Vec<String> = Vec::new();
    args.push("aggregate".to_owned());
    args.push("--config".to_owned());
    args.push(config.config_file.clone());
    if config.auto_submit {
        args.push("--auto-submit".to_owned());
    }
    match &config.feed_data {
        Some(path) => {
            args.push("--feed-data".to_owned());
            args.push(path.clone());
        },
        None => {},
    }
    assert(args@.map_values(|s: String| s@) =~= aggregate_args(*config));
    args
}

/// Error of an aggregation run.
#[derive(Debug)]
pub enum AggregateError {
    /// The binary could not be spawned.
    Spawn(std::io::Error),
    /// The process ran but exited unsuccessfully; its output is kept verbatim.
    NonZeroExit {
        /// Exit code, if the process exited with one.
        exit_code: Option<i32>,
        /// Captured standard output.
        stdout: Vec<u8>,
        /// Captured standard error.
        stderr: Vec<u8>,
    },
}

/// Raw standard output of a successful aggregation, verbatim.
#[derive(Debug, Clone, PartialEq, Eq)]
pub struct RawAggregateStdout {
    /// Captured standard output.
    pub bytes: Vec<u8>,
}

/// Classify a finished aggregation process: success yields its stdout
/// verbatim; anything else yields `NonZeroExit` with code and both streams.
pub fn aggregate_outcome(
    success: bool,
    exit_code: Option<i32>,
    stdout: Vec<u8>,
    stderr: Vec<u8>,
) -> (r: Result<RawAggregateStdout, AggregateError>)
    ensures
        success ==> (r matches Ok(out) && out.bytes@ == stdout@),
        !success ==> (r matches Err(AggregateError::NonZeroExit { exit_code: c, stdout: o, stderr: e })
            && c == exit_code && o@ == stdout@ && e@ == stderr@),
{
    if success {
        Ok(RawAggregateStdout { bytes: stdout })
    } else {
        Err(AggregateError::NonZeroExit { exit_code, stdout, stderr })
    }
}

} // verus!
