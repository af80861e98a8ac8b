//! The `init` command: deciding what kind of project a directory holds and
//! what is to be created there.
use vstd::prelude::*;

use crate::pkgs::pkg_json::PackageJsonStandard;
use crate::text::{concat_text, contains, contains_text, matches_at};

pub mod context;

verus! {

/// What `init` is to create.
pub enum CreateAction {
    ModernJSProject,
    SubModernJSProject,
}

/// What `init` has found out so far.
pub struct InitContext {
    is_pnpm: bool,
    monorepo_abs_path: String,
    create_action: Option<CreateAction>,
}

/// The state of an `InitContext`.
pub struct InitContextView {
    pub is_pnpm: bool,
    pub monorepo_abs_path: Seq<char>,
    pub create_action: Option<CreateAction>,
}

impl View for InitContext {
    type V = InitContextView;

    closed spec fn view(&self) -> InitContextView {
        InitContextView {
            is_pnpm: self.is_pnpm,
            monorepo_abs_path: self.monorepo_abs_path@,
            create_action: self.create_action,
        }
    }
}

/// `true` or `false`.
pub open spec fn bool_text(b: bool) -> Seq<char> {
    if b {
        "true"@
    } else {
        "false"@
    }
}

/// The text of a boolean.
pub fn bool_string(b: bool) -> (r: String)
    ensures
        r@ == bool_text(b),
{
    if b {
        String::from_str("true")
    } else {
        String::from_str("false")
    }
}

/// The name under which a create action is reported.
pub open spec fn create_action_text(a: Option<CreateAction>) -> Seq<char> {
    match a {
        Some(CreateAction::ModernJSProject) => "modern-js-project"@,
        Some(CreateAction::SubModernJSProject) => "sub-eden-project"@,
        None => ""@,
    }
}

/// The report of what `init` found: a JSON-like block of the three facts.
pub open spec fn init_report(v: InitContextView) -> Seq<char> {
    "\n          {\n            \"isPnpm\": "@ + bool_text(v.is_pnpm)
        + ",\n            \"monorepoRoot\": \""@ + v.monorepo_abs_path
        + "\",\n            \"createAction\": \""@ + create_action_text(v.create_action)
        + "\",\n          }\n        "@
}

impl InitContext {
    /// Nothing found yet: not a pnpm monorepo, no root, nothing to create.
    pub fn new() -> (r: Self)
        ensures
            r@ == (InitContextView {
                is_pnpm: false,
                monorepo_abs_path: Seq::empty(),
                create_action: None,
            }),
    {
        InitContext { is_pnpm: false, monorepo_abs_path: String::new(), create_action: None }
    }

    pub fn set_is_pnpm(&mut self, is_pnpm: bool)
        ensures
            final(self)@ == (InitContextView { is_pnpm, ..old(self)@ }),
    {
        self.is_pnpm = is_pnpm;
    }

    pub fn set_pnpm_root_path(&mut self, monorepo_abs_path: &String)
        ensures
            final(self)@ == (InitContextView {
                monorepo_abs_path: monorepo_abs_path@,
                ..old(self)@
            }),
    {
        self.monorepo_abs_path = monorepo_abs_path.clone();
    }

    pub fn set_create_action(&mut self, create_action: CreateAction)
        ensures
            final(self)@ == (InitContextView { create_action: Some(create_action), ..old(self)@ }),
    {
        self.create_action = Some(create_action);
    }

    /// The report of what was found, as `init_report` says.
    pub fn to_report(&self) -> (r: String)
        ensures
            r@ == init_report(self@),
    {
        let action = match self.create_action {
            Some(CreateAction::ModernJSProject) => "modern-js-project",
            Some(CreateAction::SubModernJSProject) => "sub-eden-project",
            None => "",
        };
        let s = concat_text("\n          {\n            \"isPnpm\": ", bool_string(self.is_pnpm).as_str());
        let s = concat_text(s.as_str(), ",\n            \"monorepoRoot\": \"");
        let s = concat_text(s.as_str(), self.monorepo_abs_path.as_str());
        let s = concat_text(s.as_str(), "\",\n            \"createAction\": \"");
        let s = concat_text(s.as_str(), action);
        concat_text(s.as_str(), "\",\n          }\n        ")
    }
}

/// The kinds of directory that `init` tells apart.
pub enum ProjectType {
    NotNpmProject,
    NotSubProject,
    ModernJSProject,
    ModernJSSubProject,
    EmptyDir,
    OtherNpmProject,
}

/// The kind of a directory: an empty one is `EmptyDir`; one without a
/// `package.json` is `NotSubProject` inside a monorepo and `NotNpmProject`
/// outside; one whose development dependencies hold `@modern-js/app-tools`
/// is `ModernJSSubProject` inside a monorepo and `ModernJSProject` outside;
/// any other is `OtherNpmProject`. `has_app_tools` is `None` where there is no
/// `package.json`, else whether it lists `@modern-js/app-tools`.
pub open spec fn project_type_of(is_empty_dir: bool, has_app_tools: Option<bool>, is_mono: bool) -> ProjectType {
    if is_empty_dir {
        ProjectType::EmptyDir
    } else {
        match has_app_tools {
            None => if is_mono {
                ProjectType::NotSubProject
            } else {
                ProjectType::NotNpmProject
            },
            Some(true) => if is_mono {
                ProjectType::ModernJSSubProject
            } else {
                ProjectType::ModernJSProject
            },
            Some(false) => ProjectType::OtherNpmProject,
        }
    }
}

/// Whether a `package.json` lists `@modern-js/app-tools` among its development
/// dependencies; `None` where there is none.
pub open spec fn app_tools_listed(pkg_json: Option<&PackageJsonStandard>) -> Option<bool> {
    match pkg_json {
        Some(p) => Some(p.dev_dependencies@.contains_key("@modern-js/app-tools"@)),
        None => None,
    }
}

/// The kind of a directory, from whether it is empty, its `package.json` (if
/// it has one), and whether it lies in a pnpm monorepo; as `project_type_of` says.
pub fn check_project_type(is_empty_dir: bool, pkg_json: Option<&PackageJsonStandard>, is_mono: bool) -> (r: ProjectType)
    ensures
        r == project_type_of(is_empty_dir, app_tools_listed(pkg_json), is_mono),
        is_empty_dir ==> r is EmptyDir,
        !is_empty_dir && pkg_json is None ==> (r is NotSubProject <==> is_mono) && (r is NotNpmProject
            <==> !is_mono),
        !is_empty_dir ==> (pkg_json matches Some(p) ==> (p.dev_dependencies@.contains_key(
            "@modern-js/app-tools"@,
        ) ==> (r is ModernJSSubProject <==> is_mono) && (r is ModernJSProject <==> !is_mono))),
        !is_empty_dir ==> (pkg_json matches Some(p) ==> (!p.dev_dependencies@.contains_key(
            "@modern-js/app-tools"@,
        ) ==> r is OtherNpmProject)),
{
    if is_empty_dir {
        return ProjectType::EmptyDir;
    }
    match pkg_json {
        None => {
            if is_mono {
                ProjectType::NotSubProject
            } else {
                ProjectType::NotNpmProject
            }
        },
        Some(pkg) => {
            if pkg.dev_dependencies.contains_key("@modern-js/app-tools") {
                if is_mono {
                    ProjectType::ModernJSSubProject
                } else {
                    ProjectType::ModernJSProject
                }
            } else {
                ProjectType::OtherNpmProject
            }
        },
    }
}

/// How a directory is classified: an empty one is `EmptyDir`, whatever else
/// holds; a non-empty one with a `package.json` that does not list
/// `@modern-js/app-tools` is another npm project, in a monorepo or not;
/// being in a monorepo only tells a ModernJS sub-project from a ModernJS
/// project, and a directory without `package.json` that is not a
/// sub-project from one that is not an npm project.
pub proof fn law_project_type(has_app_tools: Option<bool>, is_mono: bool)
    ensures
        project_type_of(true, has_app_tools, is_mono) is EmptyDir,
        project_type_of(false, Some(false), is_mono) is OtherNpmProject,
        project_type_of(false, Some(false), true) == project_type_of(false, Some(false), false),
        project_type_of(false, Some(true), is_mono) is ModernJSSubProject <==> is_mono,
        project_type_of(false, Some(true), is_mono) is ModernJSProject <==> !is_mono,
        project_type_of(false, None, is_mono) is NotSubProject <==> is_mono,
        project_type_of(false, None, is_mono) is NotNpmProject <==> !is_mono,
{
}

/// What `git status` in the monorepo root says of the work tree.
pub enum GitStatusCheck {
    /// The work tree is clean: `init` goes on.
    Clean,
    /// There are changes: `init` stops.
    Dirty,
    /// `git status` failed: `init` reports the error and goes on.
    Failed,
}

/// The verdict on `git status`: `Failed` where it did not succeed, `Clean`
/// where its output says `working tree clean`, else `Dirty`.
pub open spec fn git_status_of(success: bool, stdout: Seq<char>) -> GitStatusCheck {
    if !success {
        GitStatusCheck::Failed
    } else if contains_text(stdout, "working tree clean"@) {
        GitStatusCheck::Clean
    } else {
        GitStatusCheck::Dirty
    }
}

/// The verdict on `git status`, as `git_status_of` says.
pub fn check_git_status(success: bool, stdout: &str) -> (r: GitStatusCheck)
    ensures
        r == git_status_of(success, stdout@),
        !success <==> r is Failed,
        success ==> (r is Clean <==> exists|i: int|
            0 <= i && i + "working tree clean"@.len() <= stdout@.len() && #[trigger] stdout@.subrange(
                i,
                i + "working tree clean"@.len(),
            ) == "working tree clean"@),
{
    proof {
        let p = "working tree clean"@;
        assert forall|i: int|
            #![trigger matches_at(stdout@, p, i)]
            #![trigger stdout@.subrange(i, i + p.len())]
            matches_at(stdout@, p, i) <==> (0 <= i && i + p.len() <= stdout@.len() && stdout@.subrange(
                i,
                i + p.len(),
            ) == p) by {}
    }
    if !success {
        GitStatusCheck::Failed
    } else if contains(stdout, "working tree clean") {
        GitStatusCheck::Clean
    } else {
        GitStatusCheck::Dirty
    }
}

/// The message with which `init` stops on a work tree with changes.
pub fn dirty_work_tree_message() -> (r: &'static str)
    ensures
        r@ == "请先提交或者存储 Git 工作区内容"@,
{
    "请先提交或者存储 Git 工作区内容"
}

/// The message that `init` prints for a directory of kind `t`, where it
/// prints one.
pub open spec fn project_type_message(t: ProjectType) -> Option<Seq<char>> {
    match t {
        ProjectType::OtherNpmProject => Some("当前项目不是 ModernJS 项目，请在 ModernJS 项目执行命令"@),
        ProjectType::EmptyDir => Some("当前目录不能为空目录，请先通过 `npx @modern-js/create [目录]` 命令创建 ModernJS 项目，然后在项目下执行该命令!"@),
        ProjectType::NotNpmProject => Some("当前目录不是一个 NPM 项目，请先通过 `npx @modern-js/create [目录]` 命令创建 ModernJS 项目，然后在项目下执行该命令!"@),
        ProjectType::NotSubProject => Some("请在 ModernJS 子项目下执行该命令"@),
        _ => None,
    }
}

/// The create action for a directory of kind `t`, where it has one.
pub open spec fn project_type_action(t: ProjectType) -> Option<CreateAction> {
    match t {
        ProjectType::ModernJSSubProject => Some(CreateAction::SubModernJSProject),
        ProjectType::ModernJSProject => Some(CreateAction::ModernJSProject),
        _ => None,
    }
}

/// Records what a directory of kind `project_type` asks of `init`: a
/// ModernJS project (or sub-project) sets the create action; any other kind
/// leaves the context as it is and gives the message to print.
pub fn apply_project_type(context: &mut InitContext, project_type: &ProjectType) -> (r: Option<&'static str>)
    ensures
        match r {
            Some(m) => project_type_message(*project_type) == Some(m@),
            None => project_type_message(*project_type) is None,
        },
        match project_type_action(*project_type) {
            Some(a) => final(context)@ == (InitContextView { create_action: Some(a), ..old(context)@ }),
            None => final(context)@ == old(context)@,
        },
{
    match project_type {
        ProjectType::OtherNpmProject => Some("当前项目不是 ModernJS 项目，请在 ModernJS 项目执行命令"),
        ProjectType::EmptyDir => Some("当前目录不能为空目录，请先通过 `npx @modern-js/create [目录]` 命令创建 ModernJS 项目，然后在项目下执行该命令!"),
        ProjectType::NotNpmProject => Some("当前目录不是一个 NPM 项目，请先通过 `npx @modern-js/create [目录]` 命令创建 ModernJS 项目，然后在项目下执行该命令!"),
        ProjectType::ModernJSSubProject => {
            context.set_create_action(CreateAction::SubModernJSProject);
            None
        },
        ProjectType::ModernJSProject => {
            context.set_create_action(CreateAction::ModernJSProject);
            None
        },
        ProjectType::NotSubProject => Some("请在 ModernJS 子项目下执行该命令"),
    }
}

} // verus!
