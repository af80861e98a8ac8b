use hhh::init::context::{CreateAction as ContextAction, InitContext as FullContext};
use hhh::init::{
    apply_project_type, check_git_status, check_project_type, dirty_work_tree_message, CreateAction, GitStatusCheck,
    InitContext, ProjectType,
};
use hhh::pkgs::pkg_json::PackageJsonStandard;
use hhh::string_map::StringMap;
use hhh::utils::config::HHHConfig;
use hhh::utils::monorepo::{search_step, workspace_file_path, SearchProgress, SearchStep, UpwardSearch};
use hhh::CommandContext;

fn package(dev: &[&str]) -> PackageJsonStandard {
    let mut dev_dependencies = StringMap::new();
    for d in dev {
        dev_dependencies.insert(d.to_string(), "^1.0.0".to_string());
    }
    PackageJsonStandard {
        name: Some("app".to_string()),
        version: None,
        description: None,
        keywords: None,
        homepage: None,
        author: None,
        dev_dependencies,
        dependencies: StringMap::new(),
    }
}

#[test]
fn init_report_of_a_new_context() {
    let c = InitContext::new();
    assert_eq!(
        c.to_report(),
        "\n          {\n            \"isPnpm\": false,\n            \"monorepoRoot\": \"\",\n            \"createAction\": \"\",\n          }\n        "
    );
}

#[test]
fn init_report_after_setters() {
    let mut c = InitContext::new();
    c.set_is_pnpm(true);
    c.set_pnpm_root_path(&"/repo".to_string());
    c.set_create_action(CreateAction::SubModernJSProject);
    assert_eq!(
        c.to_report(),
        "\n          {\n            \"isPnpm\": true,\n            \"monorepoRoot\": \"/repo\",\n            \"createAction\": \"sub-eden-project\",\n          }\n        "
    );
}

#[test]
fn context_report_with_config() {
    let mut c = FullContext::new();
    assert_eq!(
        c.to_report(),
        "\n          {\n            \"isPnpm\": false,\n            \"monorepoRoot\": \"\",\n            \"createAction\": \"\",\n            \"configExist\": \"false\",\n          }\n        "
    );
    c.set_config_exist(true);
    c.set_create_action(ContextAction::ModernJSProject);
    c.set_hhh_config(HHHConfig::default());
    c.set_is_pnpm(true);
    c.set_pnpm_root_path(&"/m".to_string());
    assert!(c.hhh.as_ref().unwrap().name.is_none());
    assert_eq!(c.config_exist, Some(true));
    assert_eq!(
        c.to_report(),
        "\n          {\n            \"isPnpm\": true,\n            \"monorepoRoot\": \"/m\",\n            \"createAction\": \"modern-js-project\",\n            \"configExist\": \"true\",\n          }\n        "
    );
}

#[test]
fn project_types() {
    let modern = package(&["@modern-js/app-tools"]);
    let other = package(&["typescript"]);
    assert!(matches!(check_project_type(true, Some(&modern), false), ProjectType::EmptyDir));
    assert!(matches!(check_project_type(false, None, false), ProjectType::NotNpmProject));
    assert!(matches!(check_project_type(false, None, true), ProjectType::NotSubProject));
    assert!(matches!(check_project_type(false, Some(&modern), false), ProjectType::ModernJSProject));
    assert!(matches!(check_project_type(false, Some(&modern), true), ProjectType::ModernJSSubProject));
    assert!(matches!(check_project_type(false, Some(&other), true), ProjectType::OtherNpmProject));
}

#[test]
fn git_status_verdicts() {
    assert!(matches!(check_git_status(true, "On branch main\nnothing to commit, working tree clean\n"), GitStatusCheck::Clean));
    assert!(matches!(check_git_status(true, "Changes not staged for commit"), GitStatusCheck::Dirty));
    assert!(matches!(check_git_status(false, "working tree clean"), GitStatusCheck::Failed));
    assert_eq!(dirty_work_tree_message(), "请先提交或者存储 Git 工作区内容");
}

#[test]
fn project_type_sets_action_or_gives_message() {
    let mut c = InitContext::new();
    assert_eq!(apply_project_type(&mut c, &ProjectType::ModernJSProject), None);
    assert!(c.to_report().contains("\"createAction\": \"modern-js-project\""));
    let mut d = InitContext::new();
    assert_eq!(apply_project_type(&mut d, &ProjectType::NotSubProject), Some("请在 ModernJS 子项目下执行该命令"));
    assert!(d.to_report().contains("\"createAction\": \"\""));
    assert!(apply_project_type(&mut d, &ProjectType::EmptyDir).unwrap().starts_with("当前目录不能为空目录"));
}

#[test]
fn search_steps_upwards() {
    assert!(matches!(search_step("/a/b", true), SearchStep::Found(d) if d == "/a/b"));
    assert!(matches!(search_step("/a/b", false), SearchStep::Ascend(p) if p == "/a"));
    assert!(matches!(search_step("/", false), SearchStep::Exhausted(d) if d == "/"));
    assert_eq!(workspace_file_path("/repo"), "/repo/pnpm-workspace.yaml");
}

#[test]
fn command_context_runs_in_global_env() {
    let c = CommandContext::new(std::path::PathBuf::from("/work"));
    assert!(c.run_in_global_env);
    assert_eq!(c.app_dir, std::path::PathBuf::from("/work"));
}

/// Answers the search with `marked` until it stops; gives the directories
/// looked in and the outcome.
fn walk(start: &str, marked: &[&str]) -> (Vec<String>, Result<String, String>) {
    let mut search = UpwardSearch::new(start);
    let mut seen = Vec::new();
    loop {
        let dir = search.dir().to_string();
        seen.push(dir.clone());
        match search.advance(marked.contains(&dir.as_str())) {
            SearchProgress::Found(d) => return (seen, Ok(d)),
            SearchProgress::Exhausted(d) => return (seen, Err(d)),
            SearchProgress::Searching(next) => search = next,
        }
    }
}

#[test]
fn upward_search_stops_at_nearest_marked_directory() {
    let (seen, outcome) = walk("/a/b/c", &["/a", "/"]);
    assert_eq!(seen, vec!["/a/b/c", "/a/b", "/a"]);
    assert_eq!(outcome, Ok(String::from("/a")));
    let (seen, outcome) = walk("/a/b", &["/a/b"]);
    assert_eq!(seen, vec!["/a/b"]);
    assert_eq!(outcome, Ok(String::from("/a/b")));
}

#[test]
fn upward_search_ends_at_the_root_when_nothing_is_marked() {
    let (seen, outcome) = walk("/a/b", &[]);
    assert_eq!(seen, vec!["/a/b", "/a", "/"]);
    assert_eq!(outcome, Err(String::from("/")));
    let (seen, outcome) = walk("x/y", &[]);
    assert_eq!(seen, vec!["x/y", "x", ""]);
    assert_eq!(outcome, Err(String::from("")));
}
