use fsals::data::run;
use fsals::{print_args_verbose, Algorithm, Args, Command, ConfigError, LogLevel};
use std::str::FromStr;

fn args(system: Option<&str>, algorithm: Option<Algorithm>) -> Args {
    Args {
        system: system.map(String::from),
        algorithm,
        loglevel: LogLevel::Info,
        parallel: true,
        verbose_data: false,
        command: Command::Data,
    }
}

#[test]
fn algorithm_from_its_name() {
    assert_eq!(Algorithm::from_str("line"), Ok(Algorithm::Line));
    assert_eq!(Algorithm::from_str("region"), Ok(Algorithm::Region));
    assert_eq!(Algorithm::from_str("Line"), Err(String::from("unknown algorithm")));
    assert_eq!(Algorithm::from_str(""), Err(String::from("unknown algorithm")));
    assert_eq!("region".parse::<Algorithm>(), Ok(Algorithm::Region));
    assert_eq!(<Algorithm as FromStr>::from_str("lines"), Err(String::from("unknown algorithm")));
}

#[test]
fn algorithm_name_reads_back() {
    for algorithm in [Algorithm::Line, Algorithm::Region] {
        assert_eq!(Algorithm::from_str(&algorithm.to_string()), Ok(algorithm));
    }
    assert_eq!(Algorithm::Line.to_string(), "line");
    assert_eq!(Algorithm::Region.to_string(), "region");
}

#[test]
fn run_needs_an_algorithm_then_a_system() {
    assert_eq!(run(&args(Some("retarded1"), None)).err(), Some(ConfigError::MissingAlgorithm));
    assert_eq!(run(&args(None, None)).err(), Some(ConfigError::MissingAlgorithm));
    assert_eq!(run(&args(None, Some(Algorithm::Line))).err(), Some(ConfigError::MissingSystem));
}

#[test]
fn run_picks_the_search() {
    let job = run(&args(Some("retarded1"), Some(Algorithm::Region))).unwrap();
    assert_eq!(job.algorithm, Algorithm::Region);
    assert_eq!(job.system, "retarded1");
    assert!(job.parallel);
    assert!(!job.verbose_data);
    let job = run(&args(Some("finite_rod"), Some(Algorithm::Line))).unwrap();
    assert_eq!(job.algorithm, Algorithm::Line);
    assert_eq!(job.system, "finite_rod");
}

#[test]
fn arguments_in_words() {
    let lines = print_args_verbose(&args(Some("retarded1"), Some(Algorithm::Line)));
    assert_eq!(
        lines,
        vec![
            "Input parameters:",
            "  Command:     Data",
            "  Algorithm:   line",
            "  System:      retarded1",
            "  Parallel:    true",
            "  Verbose data: false",
            "  LogLevel:    INFO",
        ]
    );
    let mut bare = args(None, None);
    bare.command = Command::Nu;
    bare.loglevel = LogLevel::Trace;
    let lines = print_args_verbose(&bare);
    assert_eq!(lines[1], "  Command:     Nu");
    assert_eq!(lines[2], "  Algorithm:   unspecified");
    assert_eq!(lines[3], "  System:      unspecified");
    assert_eq!(lines[6], "  LogLevel:    TRACE");
}

#[test]
fn nu_needs_a_system() {
    assert_eq!(fsals::nu::run(&args(None, None)), Err(ConfigError::MissingSystem));
    assert_eq!(
        fsals::nu::run(&args(Some("finite_rod"), None)),
        Ok(String::from("finite_rod"))
    );
}
