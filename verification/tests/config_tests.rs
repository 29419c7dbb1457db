use ferrocyanide::config::{get_config_path, project_config_from_yaml};

#[test]
fn test_get_config_path() {
    let project_dir = "/path/to/project";
    let config_path = get_config_path(project_dir);
    assert_eq!(config_path, "/path/to/project/config.yaml".to_string());
}

#[test]
fn test_read_config() {
    let config = "
project:
    title: Ferrocyanide
    description: A project about Ferrocyanide
";
    let config = project_config_from_yaml(config).unwrap();

    if let Some(project) = &config.project {
        assert_eq!(project.title, Some("Ferrocyanide".to_string()));
        assert_eq!(
            project.description,
            Some("A project about Ferrocyanide".to_string())
        );
    } else {
        panic!("Project config should be present");
    }
}

#[test]
fn test_read_config_root_dir() {
    let config = "
project:
    rootDir: /mysite
";
    let config = project_config_from_yaml(config).unwrap();
    assert_eq!(config.project.unwrap().root_dir, Some("/mysite".to_string()));
    assert!(config.nav.is_none());
}

#[test]
fn test_read_config_rejects_bad_project() {
    // the `project` key must hold a mapping
    assert!(project_config_from_yaml("project: 3").is_none());
}

#[test]
fn test_config_non_string_key_fails() {
    assert!(project_config_from_yaml("1: x").is_none());
    assert!(project_config_from_yaml("project:\n  1: x\n").is_none());
}

#[test]
fn test_read_config_nav() {
    let config = "
nav:
  - url: /about
    title: About
";
    let config = project_config_from_yaml(config).unwrap();
    let nav = config.nav.unwrap();
    assert_eq!(nav.len(), 1);
    assert!(nav[0].item.contains(&("url".to_string(), "/about".to_string())));
    assert!(nav[0].item.contains(&("title".to_string(), "About".to_string())));
}
