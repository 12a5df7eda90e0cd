//! Certified stability regions of parameter-dependent linear systems.
//!
//! The crate holds the search engines and their contracts. Numbers are
//! integers in the caller's resolution unit; the characteristic functions are
//! hooks that the caller supplies.

pub mod data;
pub mod nu;
pub mod types;
pub mod utils;

use vstd::prelude::*;
use vstd::string::StringExecFns;

verus! {

/// What the program is asked to do.
#[derive(Clone, Copy, Debug, PartialEq, Eq, Structural)]
pub enum Command {
    /// Count the unstable zeros over a grid of the domain.
    Nu,
    /// Run the chosen search on the configured origins.
    Data,
    /// Run a custom snippet.
    Custom,
}

/// The two searches.
#[derive(Clone, Copy, Debug, PartialEq, Eq, Structural)]
pub enum Algorithm {
    /// Rays from an origin, each with a certified length.
    Line,
    /// Breadth-first flood fill by certified disks.
    Region,
}

/// Verbosity of the log.
#[derive(Clone, Copy, Debug, PartialEq, Eq, Structural)]
pub enum LogLevel {
    Off,
    Error,
    Warn,
    Info,
    Debug,
    Trace,
}

/// The arguments of a run.
pub struct Args {
    /// Name of the system to analyse.
    pub system: Option<String>,
    /// Search to run on it.
    pub algorithm: Option<Algorithm>,
    /// Verbosity of the log.
    pub loglevel: LogLevel,
    /// Whether origins are worked on in parallel.
    pub parallel: bool,
    /// Whether the jumps of each ray are kept.
    pub verbose_data: bool,
    /// What to do.
    pub command: Command,
}

/// Why a run cannot start.
#[derive(Clone, Copy, Debug, PartialEq, Eq, Structural)]
pub enum ConfigError {
    /// No search was chosen.
    MissingAlgorithm,
    /// No system was named.
    MissingSystem,
    /// An origin lies outside the search domain.
    OriginOutsideLimits,
    /// The system lacks a hook that the chosen search needs.
    MissingHook,
    /// The search domain is not a rectangle within the coordinate range.
    InvalidLimits,
    /// The tolerance is zero in the resolution unit, or out of range.
    InvalidTolerance,
    /// The safeguard is not a factor in `(0, 1]`.
    InvalidSafeguard,
    /// A direction has a component beyond one, or the directions are not as
    /// many as the recipe asks for.
    InvalidDirections,
}

impl Algorithm {
    /// The name of the search on the command line.
    pub open spec fn spec_name(self) -> Seq<char> {
        match self {
            Algorithm::Line => "line"@,
            Algorithm::Region => "region"@,
        }
    }

    /// The search that `input` names: `"line"` or `"region"`.
    pub fn from_str(input: &str) -> (r: Result<Algorithm, String>)
        ensures
            match r {
                Ok(algorithm) => input@ == algorithm.spec_name(),
                Err(message) => input@ != "line"@ && input@ != "region"@ && message@
                    == "unknown algorithm"@,
            },
    {
        let input = input.to_owned();
        if input == "line".to_owned() {
            Ok(Algorithm::Line)
        } else if input == "region".to_owned() {
            Ok(Algorithm::Region)
        } else {
            Err(String::from_str("unknown algorithm"))
        }
    }

    /// The name of the search, as [`Algorithm::from_str`] reads it.
    pub fn to_string(&self) -> (name: String)
        ensures
            name@ == self.spec_name(),
    {
        match *self {
            Algorithm::Line => String::from_str("line"),
            Algorithm::Region => String::from_str("region"),
        }
    }
}

impl std::str::FromStr for Algorithm {
    type Err = String;

    /// The search that `input` names, as [`Algorithm::from_str`] reads it:
    /// `"line"` or `"region"`, and the message `unknown algorithm` for any
    /// other text.
    fn from_str(input: &str) -> (r: Result<Algorithm, String>)
        ensures
            match r {
                Ok(algorithm) => input@ == algorithm.spec_name(),
                Err(message) => input@ != "line"@ && input@ != "region"@ && message@
                    == "unknown algorithm"@,
            },
    {
        Algorithm::from_str(input)
    }
}

/// Reading the name of a search gives the search back.
pub proof fn lemma_algorithm_names_differ(a: Algorithm, b: Algorithm)
    ensures
        a.spec_name() == b.spec_name() ==> a == b,
{
    reveal_strlit("line");
    reveal_strlit("region");
    if a != b {
        assert("line"@.len() != "region"@.len());
    }
}

impl Command {
    /// The name of the command.
    pub open spec fn spec_name(self) -> Seq<char> {
        match self {
            Command::Nu => "Nu"@,
            Command::Data => "Data"@,
            Command::Custom => "Custom"@,
        }
    }

    /// The name of the command.
    pub fn name(&self) -> (name: &'static str)
        ensures
            name@ == self.spec_name(),
    {
        match *self {
            Command::Nu => "Nu",
            Command::Data => "Data",
            Command::Custom => "Custom",
        }
    }
}

impl LogLevel {
    /// The name of the level.
    pub open spec fn spec_name(self) -> Seq<char> {
        match self {
            LogLevel::Off => "OFF"@,
            LogLevel::Error => "ERROR"@,
            LogLevel::Warn => "WARN"@,
            LogLevel::Info => "INFO"@,
            LogLevel::Debug => "DEBUG"@,
            LogLevel::Trace => "TRACE"@,
        }
    }

    /// The name of the level.
    pub fn name(&self) -> (name: &'static str)
        ensures
            name@ == self.spec_name(),
    {
        match *self {
            LogLevel::Off => "OFF",
            LogLevel::Error => "ERROR",
            LogLevel::Warn => "WARN",
            LogLevel::Info => "INFO",
            LogLevel::Debug => "DEBUG",
            LogLevel::Trace => "TRACE",
        }
    }
}

/// The text of a flag.
pub open spec fn flag_text(flag: bool) -> Seq<char> {
    if flag {
        "true"@
    } else {
        "false"@
    }
}

/// The lines that describe the arguments: a heading, then one line for each
/// argument, the label padded to twelve characters.
pub open spec fn args_lines(args: &Args) -> Seq<Seq<char>> {
    seq![
        "Input parameters:"@,
        "  Command:     "@ + args.command.spec_name(),
        "  Algorithm:   "@ + match args.algorithm {
            Some(algorithm) => algorithm.spec_name(),
            None => "unspecified"@,
        },
        "  System:      "@ + match args.system {
            Some(name) => name@,
            None => "unspecified"@,
        },
        "  Parallel:    "@ + flag_text(args.parallel),
        "  Verbose data: "@ + flag_text(args.verbose_data),
        "  LogLevel:    "@ + args.loglevel.spec_name(),
    ]
}

fn flag_name(flag: bool) -> (name: &'static str)
    ensures
        name@ == flag_text(flag),
{
    if flag {
        "true"
    } else {
        "false"
    }
}

/// The lines that describe the arguments of the run, ready for the log.
pub fn print_args_verbose(args: &Args) -> (lines: Vec<String>)
    ensures
        lines@.len() == args_lines(args).len(),
        forall|i: int| 0 <= i < lines@.len() ==> (#[trigger] lines@[i])@ == args_lines(args)[i],
{
    let mut lines: Vec<String> = Vec::new();
    lines.push(String::from_str("Input parameters:"));
    lines.push(String::from_str("  Command:     ").concat(args.command.name()));
    let algorithm = match &args.algorithm {
        Some(algo) => algo.to_string(),
        None => String::from_str("unspecified"),
    };
    lines.push(String::from_str("  Algorithm:   ").concat(algorithm.as_str()));
    let system = match &args.system {
        Some(name) => name.clone(),
        None => String::from_str("unspecified"),
    };
    lines.push(String::from_str("  System:      ").concat(system.as_str()));
    lines.push(String::from_str("  Parallel:    ").concat(flag_name(args.parallel)));
    lines.push(String::from_str("  Verbose data: ").concat(flag_name(args.verbose_data)));
    lines.push(String::from_str("  LogLevel:    ").concat(args.loglevel.name()));
    lines
}

} // verus!
