//! Build tasks: which `cargo` run builds a package of the workspace.
use vstd::prelude::*;

verus! {

/// A `cargo` run: the program, the package directory it runs in, and its arguments.
pub struct CargoBuild {
    pub program: String,
    pub package: String,
    pub args: Vec<String>,
}

/// The program that runs `cargo`: the one that the `CARGO` variable names, where it is set,
/// else `cargo`.
pub open spec fn cargo_program(cargo: Option<String>) -> Seq<char> {
    match cargo {
        Some(c) => c@,
        None => "cargo"@,
    }
}

/// The arguments of `cargo` that build a package: `build`, and `--release` in release mode.
pub open spec fn build_args(is_release: bool) -> Seq<Seq<char>> {
    if is_release {
        seq!["build"@, "--release"@]
    } else {
        seq!["build"@]
    }
}

/// The arguments of a run as character sequences.
pub open spec fn args_view(args: Seq<String>) -> Seq<Seq<char>> {
    args.map_values(|a: String| a@)
}

/// Build tools of the workspace.
pub struct XTask;

impl XTask {
    /// The `cargo` run that builds `package`, in release mode where `is_release` says so,
    /// with the program that `cargo` (the value of the `CARGO` variable) names.
    pub fn build(package: &str, is_release: bool, cargo: Option<String>) -> (r: CargoBuild)
        ensures
            r.program@ == cargo_program(cargo),
            r.package@ == package@,
            args_view(r.args@) == build_args(is_release),
    {
        let program = match cargo {
            Some(c) => c,
            None => "cargo".to_owned(),
        };
        let mut args: Vec<String> = Vec::new();
        args.push("build".to_owned());
        if is_release {
            args.push("--release".to_owned());
        }
        assert(args_view(args@) =~= build_args(is_release));
        CargoBuild { program, package: package.to_owned(), args }
    }
}

/// The `cargo` run that builds the `ashina` package, with the program that `cargo` (the
/// value of the `CARGO` variable) names.
pub fn build(is_release: bool, cargo: Option<String>) -> (r: CargoBuild)
    ensures
        r.program@ == cargo_program(cargo),
        r.package@ == "ashina"@,
        args_view(r.args@) == build_args(is_release),
{
    XTask::build("ashina", is_release, cargo)
}

} // verus!
