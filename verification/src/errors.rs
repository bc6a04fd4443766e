//! The failure taxonomy every statistics request reports through: connection
//! unavailable (pool exhausted or timed out), a driver/SQL failure, an
//! execution worker that died, or a result that cannot be encoded. Callers
//! surface each uniformly as a generic server failure with a logged label;
//! nothing is retried.
use vstd::prelude::*;
use vstd::string::StringExecFns;

verus! {

/// Why a statistics request failed.
pub enum StatsError {
    /// No pool connection is free.
    PoolExhausted,
    /// Waiting for a pool connection timed out.
    PoolTimeout,
    /// The database driver or the query itself failed.
    QueryError,
    /// The worker running the query ended unexpectedly.
    WorkerJoinError,
    /// The result could not be encoded for the response body.
    SerializationError,
}

impl StatsError {
    /// The label written to the log for this failure.
    pub fn label(&self) -> (r: String)
        ensures
            match self {
                StatsError::PoolExhausted => r@ == "pool exhausted"@,
                StatsError::PoolTimeout => r@ == "pool timeout"@,
                StatsError::QueryError => r@ == "query failed"@,
                StatsError::WorkerJoinError => r@ == "worker failed"@,
                StatsError::SerializationError => r@ == "serialization failed"@,
            },
    {
        match self {
            StatsError::PoolExhausted => "pool exhausted".to_owned(),
            StatsError::PoolTimeout => "pool timeout".to_owned(),
            StatsError::QueryError => "query failed".to_owned(),
            StatsError::WorkerJoinError => "worker failed".to_owned(),
            StatsError::SerializationError => "serialization failed".to_owned(),
        }
    }

    /// The uniform client-visible message: every failure looks the same to
    /// the caller, with the detail kept for the log.
    pub fn client_message(&self) -> (r: String)
        ensures
            r@ == "Something went wrong"@,
    {
        "Something went wrong".to_owned()
    }
}

} // verus!
