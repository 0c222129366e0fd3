//! Failures of the service, by the stage that raises them.

use vstd::prelude::*;

verus! {

/// Failure to read the scaler table at startup.
#[derive(Debug, Clone, Copy, PartialEq, Eq, Structural)]
pub enum ConfigError {
    /// The scaler source is unreadable, is not well-formed CSV, has a row with
    /// fewer than two fields or a field that is not a number, or has no row.
    ScalerParse,
}

/// Failure to bring up the session pool at startup.
#[derive(Debug, Clone, Copy, PartialEq, Eq, Structural)]
pub enum InitError {
    /// A model session could not be constructed, or none was asked for.
    ModelLoad,
    /// A model declares an input that is not as wide as the scaler table.
    InputWidth,
}

/// Failure of the startup as a whole.
#[derive(Debug, Clone, Copy, PartialEq, Eq, Structural)]
pub enum StartupError {
    /// The session pool could not be brought up.
    Init(InitError),
    /// The scaler table could not be read.
    Config(ConfigError),
}

/// Failure of one prediction request.
#[derive(Debug, Clone, Copy, PartialEq, Eq, Structural)]
pub enum PredictError {
    /// The batch is empty, a row is not as wide as the scaler table, or two
    /// tensors that must agree in shape do not.
    ShapeMismatch,
    /// The model runtime reported a failure.
    InferenceFailed,
}

impl ConfigError {
    /// Diagnostic text of the error.
    pub fn message(&self) -> (text: String)
        ensures
            text@ == "Failed to parse the scaler table"@,
    {
        "Failed to parse the scaler table".to_owned()
    }
}

impl InitError {
    /// Diagnostic text of the error.
    pub fn message(&self) -> (text: String)
        ensures
            *self == InitError::ModelLoad ==> text@ == "Failed to load the model"@,
            *self == InitError::InputWidth ==> text@
                == "Model input width differs from the number of features"@,
    {
        match self {
            InitError::ModelLoad => "Failed to load the model".to_owned(),
            InitError::InputWidth => {
                "Model input width differs from the number of features".to_owned()
            },
        }
    }
}

impl StartupError {
    /// Diagnostic text of the error: that of the error it wraps.
    pub fn message(&self) -> (text: String)
        ensures
            *self == StartupError::Init(InitError::ModelLoad) ==> text@
                == "Failed to load the model"@,
            *self == StartupError::Init(InitError::InputWidth) ==> text@
                == "Model input width differs from the number of features"@,
            self is Config ==> text@ == "Failed to parse the scaler table"@,
    {
        match self {
            StartupError::Init(e) => e.message(),
            StartupError::Config(e) => e.message(),
        }
    }
}

impl PredictError {
    /// Diagnostic text of the error.
    pub fn message(&self) -> (text: String)
        ensures
            *self == PredictError::ShapeMismatch ==> text@
                == "Input and output arrays must have the same length"@,
            *self == PredictError::InferenceFailed ==> text@ == "Inference failed"@,
    {
        match self {
            PredictError::ShapeMismatch => {
                "Input and output arrays must have the same length".to_owned()
            },
            PredictError::InferenceFailed => "Inference failed".to_owned(),
        }
    }
}

} // verus!
