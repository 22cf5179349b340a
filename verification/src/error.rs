//! Failures of the platform checks made before sampling.
use vstd::prelude::*;
use vstd::string::StringExecFns;

verus! {

/// A platform requirement that is not met.
#[derive(Debug)]
pub enum RasitopError {
    UnsupportedOs(String),
    MissingCpuFrequencies,
}

impl RasitopError {
    /// The text this error displays.
    pub open spec fn spec_message(&self) -> Seq<char> {
        match self {
            RasitopError::UnsupportedOs(os) => "rasitop requires macOS (detected OS: "@ + os@
                + ")"@,
            RasitopError::MissingCpuFrequencies => "no CPU frequencies found"@,
        }
    }

    /// Renders the error.
    pub fn message(&self) -> (text: String)
        ensures
            text@ == self.spec_message(),
    {
        match self {
            RasitopError::UnsupportedOs(os) => {
                let mut text = String::from_str("rasitop requires macOS (detected OS: ");
                text.append(os.as_str());
                text.append(")");
                text
            },
            RasitopError::MissingCpuFrequencies => String::from_str("no CPU frequencies found"),
        }
    }
}

} // verus!
