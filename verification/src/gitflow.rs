//! Branch-naming configuration of the git-flow helper.

use vstd::prelude::*;
use vstd::string::StringExecFns;

verus! {

/// Branch names and prefixes of a git-flow repository.
pub struct GitFlowConfig {
    pub main_branch: String,
    pub develop_branch: String,
    pub feature_prefix: String,
    pub release_prefix: String,
    pub hotfix_prefix: String,
    pub support_prefix: String,
    pub version_tag_prefix: String,
}

/// Whether a configuration carries the conventional defaults.
pub open spec fn is_default_config(c: &GitFlowConfig) -> bool {
    &&& c.main_branch@ == ("main")@
    &&& c.develop_branch@ == ("develop")@
    &&& c.feature_prefix@ == ("feature/")@
    &&& c.release_prefix@ == ("release/")@
    &&& c.hotfix_prefix@ == ("hotfix/")@
    &&& c.support_prefix@ == ("support/")@
    &&& c.version_tag_prefix@ == ("v")@
}

impl Default for GitFlowConfig {
    /// The conventional git-flow branch layout.
    fn default() -> (r: GitFlowConfig)
        ensures
            is_default_config(&r),
    {
        GitFlowConfig {
            main_branch: String::from_str("main"),
            develop_branch: String::from_str("develop"),
            feature_prefix: String::from_str("feature/"),
            release_prefix: String::from_str("release/"),
            hotfix_prefix: String::from_str("hotfix/"),
            support_prefix: String::from_str("support/"),
            version_tag_prefix: String::from_str("v"),
        }
    }
}

/// Where the configuration would live inside the repository.
pub fn get_config_path() -> (r: String)
    ensures
        r@ == (".git/gitflow-config.json")@,
{
    String::from_str(".git/gitflow-config.json")
}

/// The configuration in use: the defaults, with no file consulted.
pub fn load_config() -> (r: GitFlowConfig)
    ensures
        is_default_config(&r),
{
    GitFlowConfig::default()
}

/// Persisting the configuration is deliberately a no-op: the defaults are
/// authoritative.
pub fn save_config(config: &GitFlowConfig) {
    let _ = config;
}

} // verus!
