//! Process configuration: what it holds and where it is read from.
use vstd::prelude::*;
use crate::document::{params_view, Template as PageTemplate};
use crate::params::{lookup, lookup_param};
use crate::text::same_text;

verus! {

/// The configuration file read when none is named.
pub const DEFAULT_CONFIG: &'static str = "queuebot";

/// Environment variables with this prefix override the file.
pub const ENV_PREFIX: &'static str = "QUEUEBOT";

pub struct QueueBotConfig {
    pub mysql: MySqlConfig,
}

pub struct MySqlConfig {
    pub connection_url: String,
}

/// The layered sources of a configuration: a file, then the environment.
pub struct ConfigSources {
    pub file: String,
    pub env_prefix: String,
}

/// The sources for the configuration file `path`.
pub fn from_path(path: &str) -> (r: ConfigSources)
    ensures
        r.file@ == path@,
        r.env_prefix@ == ENV_PREFIX@,
{
    ConfigSources { file: path.to_string(), env_prefix: ENV_PREFIX.to_string() }
}

/// The sources for the default configuration file.
pub fn load_config() -> (r: ConfigSources)
    ensures
        r.file@ == DEFAULT_CONFIG@,
        r.env_prefix@ == ENV_PREFIX@,
{
    from_path(DEFAULT_CONFIG)
}

/// The configuration kept on the wiki itself.
pub struct OnWikiConfig {
    pub discussion_summary_icon_bindings: Vec<DiscussionSummaryIconBindings>,
}

/// A template that marks a vote, and the other templates that count as it.
pub struct DiscussionSummaryIconBindings {
    pub main: Template,
    pub alternatives: Vec<Template>,
}

/// A template pattern: a name and the parameters it asks for, `None`
/// asking that the parameter be absent.
pub struct Template {
    pub name: String,
    pub params: Vec<(String, Option<String>)>,
}

pub open spec fn wanted_view(ps: Seq<(String, Option<String>)>) -> Seq<(Seq<char>, Option<Seq<char>>)> {
    ps.map_values(|p: (String, Option<String>)| (p.0@, match p.1 { Some(v) => Some(v@), None => None }))
}

/// Whether the page template `t` has the pattern's name and, for each
/// wanted parameter, that value (or no such parameter).
pub open spec fn pattern_matches(name: Seq<char>, wanted: Seq<(Seq<char>, Option<Seq<char>>)>, t: PageTemplate) -> bool {
    t.name@ == name && forall|i: int| 0 <= i < wanted.len() ==> lookup(params_view(t.params@), #[trigger] wanted[i].0) == wanted[i].1
}

impl Template {
    pub fn matches(&self, other: &PageTemplate) -> (r: bool)
        ensures
            r == pattern_matches(self.name@, wanted_view(self.params@), *other),
    {
        if !same_text(self.name.as_str(), other.name.as_str()) {
            return false;
        }
        let ghost w = wanted_view(self.params@);
        let mut i: usize = 0;
        while i < self.params.len()
            invariant
                i <= self.params.len(),
                w == wanted_view(self.params@),
                other.name@ == self.name@,
                forall|m: int| 0 <= m < i ==> lookup(params_view(other.params@), #[trigger] w[m].0) == w[m].1,
            decreases self.params.len() - i,
        {
            let (k, v) = &self.params[i];
            assert(w[i as int].0 == k@);
            let found = lookup_param(&other.params, k.as_str());
            let same = match (found, v) {
                (Some(a), Some(b)) => same_text(a.as_str(), b.as_str()),
                (None, None) => true,
                _ => false,
            };
            if !same {
                return false;
            }
            i = i + 1;
        }
        true
    }
}

} // verus!
