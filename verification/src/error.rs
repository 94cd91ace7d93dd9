use vstd::prelude::*;

verus! {

/// Every failure the library or its surrounding binary can report.
///
/// Variants that arise inside the library carry the exact input that
/// provoked them; variants that arise at the I/O boundary carry a
/// description supplied by the caller.
#[derive(Debug, PartialEq, Eq)]
pub enum AppError {
    /// The requested server name is not present in the configuration.
    /// Carries the server name that was looked up.
    CliConfigServerMissingError(String),
    /// A `--param` argument had no `=` separator. Carries the argument.
    CliParamParseError(String),
    ConfigIoError(String),
    ConfigDeserializationError(String),
    ConfigTokenEvalCommandError(String),
    ConfigTokenEvalBufferReadError(String),
    ConfigVarError(String),
    JenkinsBuildStreamError(String),
    JenkinsBuildResponseReadError(String),
    JenkinsBuildOutputError(String),
    JenkinsDeserializeError(String),
    JenkinsEnqueueError(String),
    /// The queue item exposed neither an executable nor a wait reason.
    /// Carries the queue item's URL.
    JenkinsEnqueueDeserializeError(String),
    /// A wait hint was recognized but its numbers exceed the supported
    /// range. Carries the original hint text.
    JenkinsEnqueueSecondsParseError(String),
    /// A wait hint matched none of the recognized forms. Carries the
    /// original hint text.
    JenkinsEnqueueWaitError(String),
    /// The enqueue response carried no location header, so the queue
    /// item cannot be tracked. Carries the response status as text.
    JenkinsEnqueueLocationMissingError(String),
    JenkinsHeaderError(String),
    LoggingInitializationError(String),
}

} // verus!
