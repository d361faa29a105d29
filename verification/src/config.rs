//! The effective configuration of one invocation, its field-wise merge, and
//! the update path. Each field falls back independently: local value if
//! present, else global value, else absent.

use crate::config_file::{
    config_text_spec, lines_err, num_field_of, parse_config, render_config, split_lines, token_of,
};
use crate::errors::{ConfigField, AppError};
use crate::time_entry::Project;
use vstd::prelude::*;

verus! {

/// The merged configuration a single invocation runs with.
#[derive(Debug)]
pub struct Config {
    /// Bearer credential; absence is a valid, unauthenticated state.
    pub api_token: Option<String>,
    /// Default workspace for new entries.
    pub workspace_id: Option<u64>,
    /// Default project for new entries.
    pub project_id: Option<u64>,
    /// Project lookup table for display enrichment; fetched per invocation
    /// and never persisted to the configuration file.
    pub projects: Option<Vec<Project>>,
}

impl Default for Config {
    fn default() -> (c: Config)
        ensures
            c.api_token is None,
            c.workspace_id is None,
            c.project_id is None,
            c.projects is None,
    {
        Config { api_token: None, workspace_id: None, project_id: None, projects: None }
    }
}

impl Config {
    /// Replaces the workspace id only when the new value is present; an
    /// absent value never overwrites.
    pub fn update_workspace_id(&mut self, workspace_id: Option<u64>)
        ensures
            final(self).workspace_id == (if workspace_id is Some {
                workspace_id
            } else {
                old(self).workspace_id
            }),
            final(self).api_token == old(self).api_token,
            final(self).project_id == old(self).project_id,
            final(self).projects == old(self).projects,
    {
        if workspace_id.is_some() {
            self.workspace_id = workspace_id;
        }
    }

    /// Replaces the project id only when the new value is present.
    pub fn update_project_id(&mut self, project_id: Option<u64>)
        ensures
            final(self).project_id == (if project_id is Some {
                project_id
            } else {
                old(self).project_id
            }),
            final(self).api_token == old(self).api_token,
            final(self).workspace_id == old(self).workspace_id,
            final(self).projects == old(self).projects,
    {
        if project_id.is_some() {
            self.project_id = project_id;
        }
    }

    /// Replaces the credential only when the new value is present.
    pub fn update_api_token(&mut self, api_token: Option<String>)
        ensures
            final(self).api_token == (if api_token is Some {
                api_token
            } else {
                old(self).api_token
            }),
            final(self).workspace_id == old(self).workspace_id,
            final(self).project_id == old(self).project_id,
            final(self).projects == old(self).projects,
    {
        if api_token.is_some() {
            self.api_token = api_token;
        }
    }

    /// The workspace and project a new entry starts with: the workspace must
    /// be configured, and an explicitly given project wins over the
    /// configured default.
    pub fn start_parameters(&self, project_id: Option<u64>) -> (r: Result<
        (u64, Option<u64>),
        AppError,
    >)
        ensures
            r is Ok <==> self.workspace_id is Some,
            r matches Ok(p) ==> p.0 == self.workspace_id->0 && p.1 == (if project_id is Some {
                project_id
            } else {
                self.project_id
            }),
            r matches Err(e) ==> e == AppError::MissingPrecondition(ConfigField::WorkspaceId),
    {
        match self.workspace_id {
            Some(w) => Ok(
                (
                    w,
                    if project_id.is_some() {
                        project_id
                    } else {
                        self.project_id
                    },
                ),
            ),
            None => Err(AppError::MissingPrecondition(ConfigField::WorkspaceId)),
        }
    }
}

/// Field-wise merge of a local override over a global base: for every field,
/// the local value wins when present, else the global value is kept, else
/// the field stays absent. Fields are resolved independently, never as an
/// all-or-nothing record.
pub fn merge_config(local: Config, global: Config) -> (r: Config)
    ensures
        r.api_token == (if local.api_token is Some {
            local.api_token
        } else {
            global.api_token
        }),
        r.workspace_id == (if local.workspace_id is Some {
            local.workspace_id
        } else {
            global.workspace_id
        }),
        r.project_id == (if local.project_id is Some {
            local.project_id
        } else {
            global.project_id
        }),
        r.projects == (if local.projects is Some {
            local.projects
        } else {
            global.projects
        }),
{
    Config {
        api_token: if local.api_token.is_some() {
            local.api_token
        } else {
            global.api_token
        },
        workspace_id: if local.workspace_id.is_some() {
            local.workspace_id
        } else {
            global.workspace_id
        },
        project_id: if local.project_id.is_some() {
            local.project_id
        } else {
            global.project_id
        },
        projects: if local.projects.is_some() {
            local.projects
        } else {
            global.projects
        },
    }
}

/// Resolves the effective configuration of one invocation from the global
/// layer's text and the optional local layer's text. A missing file is a
/// valid, all-empty layer; a malformed one is fatal, the global layer being
/// examined first. The merge is per field: local wins where present.
pub fn load_config(global_text: Option<&str>, local_text: Option<&str>) -> (r: Result<
    Config,
    AppError,
>)
    ensures
        r is Ok <==> (match global_text {
            Some(t) => lines_err(split_lines(t@)) is None,
            None => true,
        }) && (match local_text {
            Some(t) => lines_err(split_lines(t@)) is None,
            None => true,
        }),
        r matches Err(e) ==> {
            let ge = (match global_text {
                Some(t) => lines_err(split_lines(t@)),
                None => None,
            });
            let le = (match local_text {
                Some(t) => lines_err(split_lines(t@)),
                None => None,
            });
            if ge is Some {
                ge == Some(e)
            } else {
                le == Some(e)
            }
        },
        r matches Ok(c) ==> {
            let gtok = (match global_text {
                Some(t) => token_of(split_lines(t@)),
                None => None,
            });
            let gw = (match global_text {
                Some(t) => num_field_of(split_lines(t@), "WORKSPACE_ID"@),
                None => None,
            });
            let gp = (match global_text {
                Some(t) => num_field_of(split_lines(t@), "PROJECT_ID"@),
                None => None,
            });
            let ltok = (match local_text {
                Some(t) => token_of(split_lines(t@)),
                None => None,
            });
            let lw = (match local_text {
                Some(t) => num_field_of(split_lines(t@), "WORKSPACE_ID"@),
                None => None,
            });
            let lp = (match local_text {
                Some(t) => num_field_of(split_lines(t@), "PROJECT_ID"@),
                None => None,
            });
            &&& c.api_token.deep_view() == (if ltok is Some {
                ltok
            } else {
                gtok
            })
            &&& c.workspace_id == (if lw is Some {
                lw
            } else {
                gw
            })
            &&& c.project_id == (if lp is Some {
                lp
            } else {
                gp
            })
            &&& c.projects is None
        },
{
    let global = match global_text {
        Some(t) => match parse_config(t) {
            Ok(c) => c,
            Err(e) => {
                return Err(e);
            },
        },
        None => Config { api_token: None, workspace_id: None, project_id: None, projects: None },
    };
    let local = match local_text {
        Some(t) => match parse_config(t) {
            Ok(c) => c,
            Err(e) => {
                return Err(e);
            },
        },
        None => Config { api_token: None, workspace_id: None, project_id: None, projects: None },
    };
    Ok(merge_config(local, global))
}

/// Applies a partial update to one configuration layer's text and returns
/// the new text to persist. Fields absent from the delta never overwrite.
/// Setting the credential through the non-global path is rejected by
/// policy: the field is skipped and the second component of the result is
/// true so the caller can surface a warning; the update itself continues.
pub fn update_config(global: bool, new_config: Config, current_text: Option<&str>) -> (r: Result<
    (String, bool),
    AppError,
>)
    ensures
        r is Ok <==> (match current_text {
            Some(t) => lines_err(split_lines(t@)) is None,
            None => true,
        }),
        r matches Err(e) ==> (match current_text {
            Some(t) => lines_err(split_lines(t@)) == Some(e),
            None => false,
        }),
        r matches Ok(p) ==> {
            let btok = (match current_text {
                Some(t) => token_of(split_lines(t@)),
                None => None,
            });
            let bw = (match current_text {
                Some(t) => num_field_of(split_lines(t@), "WORKSPACE_ID"@),
                None => None,
            });
            let bp = (match current_text {
                Some(t) => num_field_of(split_lines(t@), "PROJECT_ID"@),
                None => None,
            });
            let tok = (if global && new_config.api_token is Some {
                new_config.api_token.deep_view()
            } else {
                btok
            });
            let w = (if new_config.workspace_id is Some {
                new_config.workspace_id
            } else {
                bw
            });
            let pj = (if new_config.project_id is Some {
                new_config.project_id
            } else {
                bp
            });
            &&& p.0@ == config_text_spec(tok, w, pj)
            &&& p.1 == (!global && new_config.api_token is Some)
        },
{
    let mut cur = match current_text {
        Some(t) => match parse_config(t) {
            Ok(c) => c,
            Err(e) => {
                return Err(e);
            },
        },
        None => Config { api_token: None, workspace_id: None, project_id: None, projects: None },
    };
    let mut warned = false;
    cur.update_workspace_id(new_config.workspace_id);
    cur.update_project_id(new_config.project_id);
    if global {
        cur.update_api_token(new_config.api_token);
    } else if new_config.api_token.is_some() {
        warned = true;
    }
    let text = render_config(&cur);
    Ok((text, warned))
}

} // verus!
