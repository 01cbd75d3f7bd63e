//! The configuration surface: one recognized option, the installation
//! directory the source location is derived from.

use vstd::prelude::*;
use vstd::string::StringExecFns;

verus! {

/// The resolved configuration. Loading and persisting the configuration
/// file is a collaborator's job; the core only consumes the resolved value.
pub struct Config {
    pub ignition_install_directory: String,
}

impl Default for Config {
    /// The documented default installation directory, used when no
    /// configuration is present.
    fn default() -> (c: Config)
        ensures
            c.ignition_install_directory@ == "C:\\Program Files\\Inductive Automation"@,
    {
        Config {
            ignition_install_directory: String::from_str("C:\\Program Files\\Inductive Automation"),
        }
    }
}

/// Derives the source location from the installation directory: the system
/// log store under it.
pub fn get_log_file_path(ignition_install_directory: &str) -> (p: String)
    ensures
        p@ == ignition_install_directory@ + "/Ignition/logs/system_logs.idb"@,
{
    let mut p = String::from_str(ignition_install_directory);
    p.append("/Ignition/logs/system_logs.idb");
    p
}

} // verus!
