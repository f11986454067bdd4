//! Which way of running an analyzer its extension names, and where its files lie.

use crate::config::parser::base_parser::same_text;
use crate::gateway::dispatcher::error::Error;
use vstd::prelude::*;
use vstd::string::*;

verus! {

/// The ways of running an analyzer.
#[derive(Debug, PartialEq, Eq, Clone, Copy)]
pub enum Mechanism {
    /// A Python module with a function `analyzer_main`.
    Python,
    /// A shared object with a function `analyzer_main`.
    SharedObject,
    /// A shell script that takes the arguments as its first parameter.
    Shell,
}

/// The way of running that an extension names: `py`, `so` or `sh`.
pub open spec fn mechanism_of(extension: Seq<char>) -> Option<Mechanism> {
    if extension == "py"@ {
        Some(Mechanism::Python)
    } else if extension == "so"@ {
        Some(Mechanism::SharedObject)
    } else if extension == "sh"@ {
        Some(Mechanism::Shell)
    } else {
        None
    }
}

/// The file of the shared object of the analyzer `name` under `dir`.
pub open spec fn shared_object_file(dir: Seq<char>, name: Seq<char>) -> Seq<char> {
    dir + "/lib"@ + name + ".so"@
}

/// The file of the shell script of the analyzer `name` under `dir`.
pub open spec fn shell_file(dir: Seq<char>, name: Seq<char>) -> Seq<char> {
    dir + "/"@ + name + ".sh"@
}

/// The output that stands for a shell script that failed with `message` on its error
/// stream.
pub open spec fn shell_failure(message: Seq<char>) -> Seq<char> {
    "{ \"error\": \""@ + message + "\" } "@
}

/// The way of running an analyzer with the extension `extension`.
pub fn mechanism(extension: &str) -> (result: Result<Mechanism, Error>)
    ensures
        match mechanism_of(extension@) {
            Some(m) => result == Ok::<Mechanism, Error>(m),
            None => result == Err::<Mechanism, Error>(Error::UndefinedExtensionError()),
        },
{
    if same_text(extension, "py") {
        Ok(Mechanism::Python)
    } else if same_text(extension, "so") {
        Ok(Mechanism::SharedObject)
    } else if same_text(extension, "sh") {
        Ok(Mechanism::Shell)
    } else {
        Err(Error::UndefinedExtensionError())
    }
}

/// The file of the shared object of the analyzer `script_name` under `script_dir`.
pub fn shared_object_path(script_dir: &str, script_name: &str) -> (path: String)
    ensures
        path@ == shared_object_file(script_dir@, script_name@),
{
    let mut path: String = String::from_str(script_dir);
    path.append("/lib");
    path.append(script_name);
    path.append(".so");
    path
}

/// The file of the shell script of the analyzer `script_name` under `script_dir`.
pub fn shell_path(script_dir: &str, script_name: &str) -> (path: String)
    ensures
        path@ == shell_file(script_dir@, script_name@),
{
    let mut path: String = String::from_str(script_dir);
    path.append("/");
    path.append(script_name);
    path.append(".sh");
    path
}

/// The output that stands for a shell script that failed with `message` on its error
/// stream.
pub fn shell_failure_output(message: &str) -> (output: String)
    ensures
        output@ == shell_failure(message@),
{
    let mut output: String = String::from_str("{ \"error\": \"");
    output.append(message);
    output.append("\" } ");
    output
}

} // verus!
