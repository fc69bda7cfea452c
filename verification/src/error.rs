use vstd::prelude::*;
use vstd::string::StringExecFns;

verus! {

/// The error taxonomy: I/O failures, configuration persistence failures,
/// terminal failures, and failures to run the external SSH session.
pub enum SshcError {
    Io(String),
    Config(String),
    Terminal(String),
    Ssh(String),
}

impl SshcError {
    /// A readable description: the category followed by the detail.
    pub fn message(&self) -> (r: String)
        ensures
            match self {
                SshcError::Io(m) => r@ == "IO error: "@ + m@,
                SshcError::Config(m) => r@ == "Config error: "@ + m@,
                SshcError::Terminal(m) => r@ == "Terminal error: "@ + m@,
                SshcError::Ssh(m) => r@ == "SSH error: "@ + m@,
            },
    {
        match self {
            SshcError::Io(m) => {
                let mut s = String::from_str("IO error: ");
                s.append(m.as_str());
                s
            },
            SshcError::Config(m) => {
                let mut s = String::from_str("Config error: ");
                s.append(m.as_str());
                s
            },
            SshcError::Terminal(m) => {
                let mut s = String::from_str("Terminal error: ");
                s.append(m.as_str());
                s
            },
            SshcError::Ssh(m) => {
                let mut s = String::from_str("SSH error: ");
                s.append(m.as_str());
                s
            },
        }
    }
}

} // verus!
