//! The options of a run.
use vstd::prelude::*;

verus! {

/// What options that are on by default are.
pub fn default_true() -> (r: bool)
    ensures
        r,
{
    true
}

/// The options of a run.
pub struct Config {
    pub export_file_path: Option<String>,
    pub use_stdin: bool,
    pub permitted_axioms: Option<Vec<String>>,
    pub unpermitted_axiom_hard_error: bool,
    pub num_threads: usize,
    pub nat_extension: bool,
    pub string_extension: bool,
    pub pp_declars: Option<Vec<String>>,
    pub unknown_pp_declar_hard_error: bool,
    pub pp_output_path: Option<String>,
    pub pp_to_stdout: bool,
    pub print_success_message: bool,
    pub print_axioms: bool,
    pub unsafe_permit_all_axioms: bool,
}

/// Why options do not go together.
#[derive(Debug, Clone, Copy, PartialEq, Eq, Structural)]
pub enum ConfigError {
    /// There is neither a path to an export file nor standard input to read it from.
    NoInput,
    /// There is a path to an export file, and standard input to read it from too.
    TwoInputs,
    /// All axioms are permitted, and an unpermitted axiom is an error.
    PermitAllAndHardError,
    /// All axioms are permitted, and there is a list of permitted axioms.
    PermitAllAndList,
}

impl ConfigError {
    /// The message for the user.
    pub fn message(self) -> (r: String)
        ensures
            r@ == match self {
                ConfigError::NoInput =>
                    "incompatible config options: must specify a path to an export file OR set `use_stdin: true`"@,
                ConfigError::TwoInputs =>
                    "incompatible config options: if an export file path is given, `use_stdin` cannot be `true`"@,
                ConfigError::PermitAllAndHardError =>
                    "incompatible config options: unsafe_permit_all_axioms && unpermitted_axioms_hard_error"@,
                ConfigError::PermitAllAndList =>
                    "incompatible config options: unsafe_permit_all_axioms && nonempty permitted_axioms list"@,
            },
    {
        match self {
            ConfigError::NoInput =>
                "incompatible config options: must specify a path to an export file OR set `use_stdin: true`".to_owned(),
            ConfigError::TwoInputs =>
                "incompatible config options: if an export file path is given, `use_stdin` cannot be `true`".to_owned(),
            ConfigError::PermitAllAndHardError =>
                "incompatible config options: unsafe_permit_all_axioms && unpermitted_axioms_hard_error".to_owned(),
            ConfigError::PermitAllAndList =>
                "incompatible config options: unsafe_permit_all_axioms && nonempty permitted_axioms list".to_owned(),
        }
    }
}

/// Where pretty printed declarations go.
pub enum PpTarget {
    File(String),
    Stdout,
}

/// Where the export file comes from.
pub enum ExportSource {
    File(String),
    Stdin,
}

impl Config {
    /// The first thing that is wrong with the options.
    pub open spec fn fault(self) -> Option<ConfigError> {
        if self.export_file_path is None && !self.use_stdin {
            Some(ConfigError::NoInput)
        } else if self.export_file_path is Some && self.use_stdin {
            Some(ConfigError::TwoInputs)
        } else if self.unsafe_permit_all_axioms && self.unpermitted_axiom_hard_error {
            Some(ConfigError::PermitAllAndHardError)
        } else if self.unsafe_permit_all_axioms && self.permitted_axioms is Some {
            Some(ConfigError::PermitAllAndList)
        } else {
            None
        }
    }

    /// The options, if they go together.
    pub fn validate(self) -> (r: Result<Config, ConfigError>)
        ensures
            match self.fault() {
                None => r == Ok::<Config, ConfigError>(self),
                Some(e) => r == Err::<Config, ConfigError>(e),
            },
    {
        if self.export_file_path.is_none() && !self.use_stdin {
            return Err(ConfigError::NoInput);
        }
        if self.export_file_path.is_some() && self.use_stdin {
            return Err(ConfigError::TwoInputs);
        }
        if self.unsafe_permit_all_axioms {
            if self.unpermitted_axiom_hard_error {
                return Err(ConfigError::PermitAllAndHardError);
            }
            if self.permitted_axioms.is_some() {
                return Err(ConfigError::PermitAllAndList);
            }
        }
        Ok(self)
    }

    /// Where pretty printed declarations go: to the file, if there is a path, else to
    /// standard output, if that is asked for.
    pub fn pp_target(&self) -> (r: Option<PpTarget>)
        ensures
            match self.pp_output_path {
                Some(p) => r matches Some(PpTarget::File(q)) && q@ == p@,
                None => if self.pp_to_stdout {
                    r matches Some(PpTarget::Stdout)
                } else {
                    r is None
                },
            },
    {
        match &self.pp_output_path {
            Some(p) => Some(PpTarget::File(p.clone())),
            None => if self.pp_to_stdout {
                Some(PpTarget::Stdout)
            } else {
                None
            },
        }
    }

    /// Where the export file comes from: from the file, if there is a path, else from
    /// standard input, if that is asked for. Options that went through `validate` name a
    /// source.
    pub fn export_source(&self) -> (r: Option<ExportSource>)
        ensures
            match self.export_file_path {
                Some(p) => r matches Some(ExportSource::File(q)) && q@ == p@,
                None => if self.use_stdin {
                    r matches Some(ExportSource::Stdin)
                } else {
                    r is None
                },
            },
            self.fault() is None ==> r is Some,
    {
        match &self.export_file_path {
            Some(p) => Some(ExportSource::File(p.clone())),
            None => if self.use_stdin {
                Some(ExportSource::Stdin)
            } else {
                None
            },
        }
    }
}

} // verus!
