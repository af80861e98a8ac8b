//! The context that the `init` command gathers, with the project's own
//! configuration.
use vstd::prelude::*;

use crate::init::{bool_string, bool_text};
use crate::text::concat_text;
use crate::utils::config::HHHConfig;

verus! {

/// What `init` is to create.
pub enum CreateAction {
    ModernJSProject,
    SubModernJSProject,
}

/// What `init` has found out, with the project's configuration.
pub struct InitContext {
    pub is_pnpm: bool,
    pub monorepo_abs_path: String,
    pub create_action: Option<CreateAction>,
    pub config_exist: Option<bool>,
    pub hhh: Option<HHHConfig>,
    pub links: (Option<String>, Option<String>, Option<String>),
}

/// The name under which a create action is reported.
pub open spec fn action_text(a: Option<CreateAction>) -> Seq<char> {
    match a {
        Some(CreateAction::ModernJSProject) => "modern-js-project"@,
        Some(CreateAction::SubModernJSProject) => "sub-modern-js-project"@,
        None => ""@,
    }
}

/// The report of the context: a JSON-like block of its four facts, where an
/// unknown `configExist` reads `false`.
pub open spec fn context_report(c: InitContext) -> Seq<char> {
    "\n          {\n            \"isPnpm\": "@ + bool_text(c.is_pnpm)
        + ",\n            \"monorepoRoot\": \""@ + c.monorepo_abs_path@
        + "\",\n            \"createAction\": \""@ + action_text(c.create_action)
        + "\",\n            \"configExist\": \""@ + bool_text(c.config_exist == Some(true))
        + "\",\n          }\n        "@
}

impl InitContext {
    /// Nothing found yet.
    pub fn new() -> (r: Self)
        ensures
            !r.is_pnpm,
            r.monorepo_abs_path@ == Seq::<char>::empty(),
            r.create_action is None,
            r.config_exist is None,
            r.hhh is None,
            r.links == (None::<String>, None::<String>, None::<String>),
    {
        InitContext {
            is_pnpm: false,
            monorepo_abs_path: String::new(),
            create_action: None,
            config_exist: None,
            hhh: None,
            links: (None, None, None),
        }
    }

    pub fn set_is_pnpm(&mut self, is_pnpm: bool)
        ensures
            *final(self) == (InitContext { is_pnpm, ..*old(self) }),
    {
        self.is_pnpm = is_pnpm;
    }

    pub fn set_pnpm_root_path(&mut self, monorepo_abs_path: &String)
        ensures
            final(self).monorepo_abs_path@ == monorepo_abs_path@,
            final(self).is_pnpm == old(self).is_pnpm,
            final(self).create_action == old(self).create_action,
            final(self).config_exist == old(self).config_exist,
            final(self).hhh == old(self).hhh,
            final(self).links == old(self).links,
    {
        self.monorepo_abs_path = monorepo_abs_path.clone();
    }

    pub fn set_create_action(&mut self, create_action: CreateAction)
        ensures
            *final(self) == (InitContext { create_action: Some(create_action), ..*old(self) }),
    {
        self.create_action = Some(create_action);
    }

    pub fn set_config_exist(&mut self, exist: bool)
        ensures
            *final(self) == (InitContext { config_exist: Some(exist), ..*old(self) }),
    {
        self.config_exist = Some(exist);
    }

    pub fn set_hhh_config(&mut self, hhh: HHHConfig)
        ensures
            *final(self) == (InitContext { hhh: Some(hhh), ..*old(self) }),
    {
        self.hhh = Some(hhh);
    }

    /// The report of the context, as `context_report` says.
    pub fn to_report(&self) -> (r: String)
        ensures
            r@ == context_report(*self),
    {
        let action = match self.create_action {
            Some(CreateAction::ModernJSProject) => "modern-js-project",
            Some(CreateAction::SubModernJSProject) => "sub-modern-js-project",
            None => "",
        };
        let config_exist = match self.config_exist {
            Some(true) => true,
            Some(false) => false,
            None => false,
        };
        let s = concat_text("\n          {\n            \"isPnpm\": ", bool_string(self.is_pnpm).as_str());
        let s = concat_text(s.as_str(), ",\n            \"monorepoRoot\": \"");
        let s = concat_text(s.as_str(), self.monorepo_abs_path.as_str());
        let s = concat_text(s.as_str(), "\",\n            \"createAction\": \"");
        let s = concat_text(s.as_str(), action);
        let s = concat_text(s.as_str(), "\",\n            \"configExist\": \"");
        let s = concat_text(s.as_str(), bool_string(config_exist).as_str());
        concat_text(s.as_str(), "\",\n          }\n        ")
    }
}

} // verus!
