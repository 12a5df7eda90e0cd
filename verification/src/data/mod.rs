//! The two searches and the choice between them.

pub mod line;
pub mod region;

use crate::{Algorithm, Args, ConfigError};
use vstd::prelude::*;

verus! {

/// A search that is ready to start: which one, on which system, and how.
pub struct DataJob {
    pub algorithm: Algorithm,
    pub system: String,
    pub parallel: bool,
    pub verbose_data: bool,
}

/// What `run` decides for the given arguments: the job, or the first thing
/// that is missing, the search before the system.
pub open spec fn planned(args: &Args, r: Result<DataJob, ConfigError>) -> bool {
    match (args.algorithm, args.system) {
        (None, _) => r == Err::<DataJob, ConfigError>(ConfigError::MissingAlgorithm),
        (Some(_), None) => r == Err::<DataJob, ConfigError>(ConfigError::MissingSystem),
        (Some(algorithm), Some(system)) => r matches Ok(job) && job.algorithm == algorithm
            && job.system@ == system@ && job.parallel == args.parallel && job.verbose_data
            == args.verbose_data,
    }
}

/// Picks the search that the arguments ask for.
pub fn run(args: &Args) -> (r: Result<DataJob, ConfigError>)
    ensures
        planned(args, r),
{
    let algorithm = match &args.algorithm {
        Some(algorithm) => *algorithm,
        None => {
            return Err(ConfigError::MissingAlgorithm);
        },
    };
    let system = match &args.system {
        Some(system) => system.clone(),
        None => {
            return Err(ConfigError::MissingSystem);
        },
    };
    Ok(DataJob { algorithm, system, parallel: args.parallel, verbose_data: args.verbose_data })
}

} // verus!
