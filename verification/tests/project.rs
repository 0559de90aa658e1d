use branch_forest::project::{
    add_project, db_ping, delete_project, entry_from, get_current_project_path, greet,
    list_projects, project_from_row, require_project_path, set_current_project, update_project,
    updated_project, CurrentProject, Project, ProjectEntry, ProjectUpdate, RegistryError,
    LAST_SELECTED_KEY,
};

#[test]
fn key_of_last_selection() {
    assert_eq!(LAST_SELECTED_KEY, "last_selected_project_path");
}

#[test]
fn error_messages() {
    assert_eq!(RegistryError::NoProjectSelected.message(), "No project selected. Choose a project on the Home page.");
    assert_eq!(RegistryError::PathRequired.message(), "Path is required");
    assert_eq!(RegistryError::NothingToUpdate.message(), "Provide at least one of name or path to update");
    assert_eq!(RegistryError::ProjectNotFound.message(), "Project not found");
}

#[test]
fn default_selection_is_none() {
    assert_eq!(CurrentProject::default(), CurrentProject(None));
}

#[test]
fn require_project_path_of_selection() {
    assert_eq!(require_project_path(&CurrentProject(Some("/repo".to_string()))), Ok("/repo".to_string()));
}

#[test]
fn require_project_path_without_selection() {
    assert_eq!(require_project_path(&CurrentProject(None)), Err(RegistryError::NoProjectSelected));
}

#[test]
fn set_current_project_trims_the_path() {
    let mut current = CurrentProject::default();
    let kept = set_current_project(&mut current, Some("  /home/me/repo \n".to_string()));
    assert_eq!(kept, Some("/home/me/repo".to_string()));
    assert_eq!(current, CurrentProject(Some("/home/me/repo".to_string())));
    assert_eq!(get_current_project_path(&current), Some("/home/me/repo".to_string()));
}

#[test]
fn set_current_project_to_blank_or_nothing_clears_it() {
    let mut current = CurrentProject(Some("/repo".to_string()));
    assert_eq!(set_current_project(&mut current, Some("   ".to_string())), None);
    assert_eq!(current, CurrentProject(None));
    let mut current = CurrentProject(Some("/repo".to_string()));
    assert_eq!(set_current_project(&mut current, Some(String::new())), None);
    assert_eq!(current, CurrentProject(None));
    let mut current = CurrentProject(Some("/repo".to_string()));
    assert_eq!(set_current_project(&mut current, None), None);
    assert_eq!(get_current_project_path(&current), None);
}

#[test]
fn greeting() {
    assert_eq!(greet("Ada"), "Hello, Ada! You've been greeted from Rust!");
    assert_eq!(greet(""), "Hello, ! You've been greeted from Rust!");
}

#[test]
fn ping_answers() {
    assert_eq!(db_ping(1), "ok");
    assert_eq!(db_ping(0), "unexpected");
    assert_eq!(db_ping(-1), "unexpected");
    assert_eq!(db_ping(2), "unexpected");
}

#[test]
fn rows_become_projects() {
    let row = (7, "demo".to_string(), "/tmp/demo".to_string(), Some("2024-01-01 00:00:00".to_string()));
    assert_eq!(
        project_from_row(row.clone()),
        Project { id: 7, name: "demo".to_string(), path: "/tmp/demo".to_string(), created_at: Some("2024-01-01 00:00:00".to_string()) }
    );
    let rows = vec![row, (9, "other".to_string(), "/o".to_string(), None)];
    let projects = list_projects(rows);
    assert_eq!(projects.len(), 2);
    assert_eq!(projects[0].id, 7);
    assert_eq!(projects[1], Project { id: 9, name: "other".to_string(), path: "/o".to_string(), created_at: None });
    assert_eq!(list_projects(vec![]), vec![]);
}

#[test]
fn add_project_with_name() {
    assert_eq!(
        add_project(" /srv/code/app ".to_string(), Some("My App".to_string())),
        Ok(ProjectEntry { name: "My App".to_string(), path: "/srv/code/app".to_string() })
    );
}

#[test]
fn add_project_named_after_its_folder() {
    assert_eq!(
        add_project("/srv/code/app".to_string(), None),
        Ok(ProjectEntry { name: "app".to_string(), path: "/srv/code/app".to_string() })
    );
}

#[test]
fn add_project_without_folder_name() {
    assert_eq!(
        add_project("/".to_string(), None),
        Ok(ProjectEntry { name: "Project".to_string(), path: "/".to_string() })
    );
}

#[test]
fn add_project_without_path() {
    assert_eq!(add_project("   ".to_string(), Some("x".to_string())), Err(RegistryError::PathRequired));
    assert_eq!(add_project(String::new(), None), Err(RegistryError::PathRequired));
}

#[test]
fn entry_from_prefers_name_then_folder_then_default() {
    assert_eq!(
        entry_from("/a/b", Some("n".to_string()), Some("b".to_string())),
        Ok(ProjectEntry { name: "n".to_string(), path: "/a/b".to_string() })
    );
    assert_eq!(
        entry_from("/a/b ", None, Some("b".to_string())),
        Ok(ProjectEntry { name: "b".to_string(), path: "/a/b".to_string() })
    );
    assert_eq!(
        entry_from("/a/b", None, None),
        Ok(ProjectEntry { name: "Project".to_string(), path: "/a/b".to_string() })
    );
    assert_eq!(entry_from(" \t", None, Some("b".to_string())), Err(RegistryError::PathRequired));
}

#[test]
fn update_project_needs_something_to_change() {
    assert_eq!(update_project(None, None), Err(RegistryError::NothingToUpdate));
}

#[test]
fn update_project_trims_the_path_only() {
    assert_eq!(
        update_project(Some(" name ".to_string()), Some(" /p ".to_string())),
        Ok(ProjectUpdate { name: Some(" name ".to_string()), path: Some("/p".to_string()) })
    );
    assert_eq!(
        update_project(Some("n".to_string()), None),
        Ok(ProjectUpdate { name: Some("n".to_string()), path: None })
    );
    assert_eq!(
        update_project(None, Some("  ".to_string())),
        Ok(ProjectUpdate { name: None, path: Some(String::new()) })
    );
}

#[test]
fn updated_project_found_or_missing() {
    assert_eq!(updated_project(None), Err(RegistryError::ProjectNotFound));
    assert_eq!(
        updated_project(Some((3, "n".to_string(), "/p".to_string(), None))),
        Ok(Project { id: 3, name: "n".to_string(), path: "/p".to_string(), created_at: None })
    );
}

#[test]
fn delete_project_found_or_missing() {
    assert_eq!(delete_project(0), Err(RegistryError::ProjectNotFound));
    assert_eq!(delete_project(1), Ok(()));
    assert_eq!(delete_project(5), Ok(()));
}
