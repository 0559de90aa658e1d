//! The project registry around resolution: saved projects, the project in use, and the
//! rules for adding, changing and removing entries.

use crate::text::{trim, trimmed};
use vstd::prelude::*;

verus! {

/// Key under which the path of the project last selected is kept between runs.
pub const LAST_SELECTED_KEY: &'static str = "last_selected_project_path";

/// A saved project.
#[derive(Debug, Clone, PartialEq, Eq)]
pub struct Project {
    pub id: i64,
    pub name: String,
    pub path: String,
    pub created_at: Option<String>,
}

/// Path of the project in use, if one is selected. Every lookup runs in that repository.
#[derive(Debug, Clone, PartialEq, Eq)]
pub struct CurrentProject(pub Option<String>);

/// Why a registry request was turned down.
#[derive(Debug, Clone, Copy, PartialEq, Eq, Structural)]
pub enum RegistryError {
    /// No project is selected.
    NoProjectSelected,
    /// A project was to be added without a path.
    PathRequired,
    /// A project was to be changed, and neither a name nor a path was given.
    NothingToUpdate,
    /// No project has the id given.
    ProjectNotFound,
}

/// The text shown for each error.
pub open spec fn message_of(error: RegistryError) -> Seq<char> {
    match error {
        RegistryError::NoProjectSelected =>
            "No project selected. Choose a project on the Home page."@,
        RegistryError::PathRequired => "Path is required"@,
        RegistryError::NothingToUpdate => "Provide at least one of name or path to update"@,
        RegistryError::ProjectNotFound => "Project not found"@,
    }
}

impl RegistryError {
    /// The text shown for this error.
    pub fn message(&self) -> (r: String)
        ensures
            r@ == message_of(*self),
    {
        match self {
            RegistryError::NoProjectSelected => {
                "No project selected. Choose a project on the Home page.".to_owned()
            },
            RegistryError::PathRequired => "Path is required".to_owned(),
            RegistryError::NothingToUpdate => {
                "Provide at least one of name or path to update".to_owned()
            },
            RegistryError::ProjectNotFound => "Project not found".to_owned(),
        }
    }
}

/// The selection that a request to select `path` leaves: the path without the white space at
/// its ends, and none where nothing is left of it.
pub open spec fn selection_of(path: Option<Seq<char>>) -> Option<Seq<char>> {
    match path {
        Some(text) if trimmed(text).len() > 0 => Some(trimmed(text)),
        _ => None,
    }
}

impl Default for CurrentProject {
    /// No project selected.
    fn default() -> (r: CurrentProject)
        ensures
            r.0 is None,
    {
        CurrentProject(None)
    }
}

/// The path of the project in use, or `NoProjectSelected`.
pub fn require_project_path(state: &CurrentProject) -> (r: Result<String, RegistryError>)
    ensures
        match state.0 {
            Some(path) => r is Ok && r->Ok_0@ == path@,
            None => r == Err::<String, RegistryError>(RegistryError::NoProjectSelected),
        },
{
    match &state.0 {
        Some(path) => Ok(path.clone()),
        None => Err(RegistryError::NoProjectSelected),
    }
}

/// Selects `path` as the project in use, or none where `path` is absent or blank. Hands back
/// the new selection: where there is one, it is to be kept under `LAST_SELECTED_KEY`.
pub fn set_current_project(current: &mut CurrentProject, path: Option<String>) -> (r: Option<
    String,
>)
    ensures
        r.deep_view() == selection_of(path.deep_view()),
        final(current).0.deep_view() == selection_of(path.deep_view()),
{
    let selection = match path {
        None => None,
        Some(text) => {
            let kept = trim(text.as_str());
            if kept.as_str().is_empty() {
                None
            } else {
                Some(kept)
            }
        },
    };
    current.0 = selection.clone();
    selection
}

/// The path of the project in use, if any.
pub fn get_current_project_path(current: &CurrentProject) -> (r: Option<String>)
    ensures
        r.deep_view() == current.0.deep_view(),
{
    current.0.clone()
}

/// The greeting for `name`.
pub fn greet(name: &str) -> (r: String)
    ensures
        r@ == "Hello, "@ + name@ + "! You've been greeted from Rust!"@,
{
    let mut out = "Hello, ".to_owned();
    out.append(name);
    out.append("! You've been greeted from Rust!");
    out
}

/// What a ping of the store reports for the number that came back: it asked for 1.
pub fn db_ping(one: i32) -> (r: String)
    ensures
        r@ == (if one == 1 {
            "ok"@
        } else {
            "unexpected"@
        }),
{
    if one == 1 {
        "ok".to_owned()
    } else {
        "unexpected".to_owned()
    }
}

/// The project that a stored row stands for.
pub fn project_from_row(row: (i64, String, String, Option<String>)) -> (r: Project)
    ensures
        r.id == row.0,
        r.name == row.1,
        r.path == row.2,
        r.created_at == row.3,
{
    Project { id: row.0, name: row.1, path: row.2, created_at: row.3 }
}

/// The projects that stored rows stand for, in the order of the rows.
pub fn list_projects(rows: Vec<(i64, String, String, Option<String>)>) -> (r: Vec<Project>)
    ensures
        r.len() == rows.len(),
        forall|i: int|
            0 <= i < rows.len() ==> {
                &&& (#[trigger] r[i]).id == rows[i].0
                &&& r[i].name@ == rows[i].1@
                &&& r[i].path@ == rows[i].2@
                &&& r[i].created_at.deep_view() == rows[i].3.deep_view()
            },
{
    let mut out: Vec<Project> = Vec::new();
    let mut at: usize = 0;
    while at < rows.len()
        invariant
            at <= rows.len(),
            out.len() == at,
            forall|i: int|
                0 <= i < at ==> {
                    &&& (#[trigger] out[i]).id == rows[i].0
                    &&& out[i].name@ == rows[i].1@
                    &&& out[i].path@ == rows[i].2@
                    &&& out[i].created_at.deep_view() == rows[i].3.deep_view()
                },
        decreases rows.len() - at,
    {
        let row = &rows[at];
        out.push(
            Project {
                id: row.0,
                name: row.1.clone(),
                path: row.2.clone(),
                created_at: row.3.clone(),
            },
        );
        at = at + 1;
    }
    out
}

/// The last component of `path` as `std::path::Path::file_name` finds it on this machine,
/// where it is text. Nothing is claimed of it: what counts as a separator depends on the
/// machine.
#[verifier::external_body]
fn file_name_of(path: &str) -> (r: Option<String>) {
    match std::path::Path::new(path).file_name() {
        None => None,
        Some(name) => match name.to_str() {
            None => None,
            Some(text) => Some(text.to_owned()),
        },
    }
}

/// The name and the path under which a project is stored.
#[derive(Debug, Clone, PartialEq, Eq)]
pub struct ProjectEntry {
    pub name: String,
    pub path: String,
}

/// The name of a new project: the one given, else the last component of its path, else
/// `Project`.
pub open spec fn entry_name(name: Option<Seq<char>>, file_name: Option<Seq<char>>) -> Seq<char> {
    match (name, file_name) {
        (Some(given), _) => given,
        (None, Some(last)) => last,
        (None, None) => "Project"@,
    }
}

/// The entry for a new project once the last component of its path is known: `PathRequired`
/// where the path is blank, else the name by `entry_name` and the path without the white
/// space at its ends.
pub fn entry_from(path: &str, name: Option<String>, file_name: Option<String>) -> (r: Result<
    ProjectEntry,
    RegistryError,
>)
    ensures
        trimmed(path@).len() == 0 ==> r == Err::<ProjectEntry, RegistryError>(
            RegistryError::PathRequired,
        ),
        trimmed(path@).len() > 0 ==> r is Ok && r->Ok_0.path@ == trimmed(path@) && r->Ok_0.name@
            == entry_name(name.deep_view(), file_name.deep_view()),
{
    let name = match name {
        Some(given) => given,
        None => match file_name {
            Some(last) => last,
            None => "Project".to_owned(),
        },
    };
    let path = trim(path);
    if path.as_str().is_empty() {
        Err(RegistryError::PathRequired)
    } else {
        Ok(ProjectEntry { name, path })
    }
}

/// The entry under which to store a new project: `PathRequired` where the path is blank; else
/// the path without the white space at its ends, under the name given. Where no name is
/// given, the name is the last component of the path as this machine reads paths, or
/// `Project`.
pub fn add_project(path: String, name: Option<String>) -> (r: Result<ProjectEntry, RegistryError>)
    ensures
        trimmed(path@).len() == 0 ==> r == Err::<ProjectEntry, RegistryError>(
            RegistryError::PathRequired,
        ),
        trimmed(path@).len() > 0 ==> r is Ok && r->Ok_0.path@ == trimmed(path@),
        trimmed(path@).len() > 0 && name is Some ==> r->Ok_0.name@ == name->0@,
{
    let file_name = match &name {
        Some(_) => None,
        None => file_name_of(path.as_str()),
    };
    entry_from(path.as_str(), name, file_name)
}

/// What to change in a stored project.
#[derive(Debug, Clone, PartialEq, Eq)]
pub struct ProjectUpdate {
    pub name: Option<String>,
    pub path: Option<String>,
}

/// The changes to make to a stored project: `NothingToUpdate` where neither a name nor a path
/// is given; else the name as given and the path without the white space at its ends.
pub fn update_project(name: Option<String>, path: Option<String>) -> (r: Result<
    ProjectUpdate,
    RegistryError,
>)
    ensures
        name is None && path is None ==> r == Err::<ProjectUpdate, RegistryError>(
            RegistryError::NothingToUpdate,
        ),
        name is Some || path is Some ==> r is Ok && r->Ok_0.name.deep_view() == name.deep_view()
            && r->Ok_0.path.deep_view() == (match path {
            Some(text) => Some(trimmed(text@)),
            None => None,
        }),
{
    if name.is_none() && path.is_none() {
        return Err(RegistryError::NothingToUpdate);
    }
    let path = match path {
        Some(text) => Some(trim(text.as_str())),
        None => None,
    };
    Ok(ProjectUpdate { name, path })
}

/// The project read back after a change, or `ProjectNotFound` where no row has its id.
pub fn updated_project(row: Option<(i64, String, String, Option<String>)>) -> (r: Result<
    Project,
    RegistryError,
>)
    ensures
        match row {
            None => r == Err::<Project, RegistryError>(RegistryError::ProjectNotFound),
            Some(found) => r is Ok && r->Ok_0.id == found.0 && r->Ok_0.name == found.1
                && r->Ok_0.path == found.2 && r->Ok_0.created_at == found.3,
        },
{
    match row {
        None => Err(RegistryError::ProjectNotFound),
        Some(found) => Ok(project_from_row(found)),
    }
}

/// Whether a removal took effect: `ProjectNotFound` where it touched no row.
pub fn delete_project(rows_affected: u64) -> (r: Result<(), RegistryError>)
    ensures
        r == (if rows_affected == 0 {
            Err::<(), RegistryError>(RegistryError::ProjectNotFound)
        } else {
            Ok::<(), RegistryError>(())
        }),
{
    if rows_affected == 0 {
        Err(RegistryError::ProjectNotFound)
    } else {
        Ok(())
    }
}

} // verus!
