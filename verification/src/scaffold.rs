//! New projects: how the files of the template become the files of a
//! project.

use crate::text::{replace, replaced};
use vstd::prelude::*;

verus! {

/// The content of a template file for a project: every `{project_name}` in
/// it becomes the name of the project, and then every `{dfx_version}` the
/// version.
pub open spec fn rendered(content: Seq<char>, project_name: Seq<char>, dfx_version: Seq<char>) -> Seq<
    char,
> {
    replaced(replaced(content, "{project_name}"@, project_name), "{dfx_version}"@, dfx_version)
}

/// The content of a template file for a project.
pub fn render(content: &str, project_name: &str, dfx_version: &str) -> (out: String)
    ensures
        out@ == rendered(content@, project_name@, dfx_version@),
{
    let named = replace(content, "{project_name}", project_name);
    replace(named.as_str(), "{dfx_version}", dfx_version)
}

/// The path of a file of a project: the path of the template file with a
/// dot for every `__dot__`.
pub fn project_path(template_path: &str) -> (path: String)
    ensures
        path@ == replaced(template_path@, "__dot__"@, "."@),
{
    replace(template_path, "__dot__", ".")
}

} // verus!
