//! Site configuration: the module / command / parameter hierarchy, auth
//! settings, lookups, and the help text generated from it.

use vstd::prelude::*;
use crate::ordmap::{OrdMap, lookup};
use crate::text::{CharClass, chars_of, str_eq, string_of, trim_end, trim_end_v};

verus! {

// ---------------------------------------------------------------------------
// Types and their models
// ---------------------------------------------------------------------------

/// How one parameter of a command is passed.
pub struct ParamConfig {
    pub required: bool,
    /// `path`, `query`, `body` or `header`.
    pub location: String,
    pub description: Option<String>,
    pub param_type: Option<String>,
    pub default: Option<String>,
}

pub struct ParamModel {
    pub required: bool,
    pub location: Seq<char>,
    pub description: Option<Seq<char>>,
    pub param_type: Option<Seq<char>>,
    pub default: Option<Seq<char>>,
}

impl DeepView for ParamConfig {
    type V = ParamModel;

    open spec fn deep_view(&self) -> ParamModel {
        ParamModel {
            required: self.required,
            location: self.location@,
            description: self.description.deep_view(),
            param_type: self.param_type.deep_view(),
            default: self.default.deep_view(),
        }
    }
}

/// One API call: HTTP method, path template, and its parameters.
pub struct EndpointConfig {
    pub method: String,
    pub path: String,
    pub summary: Option<String>,
    pub aliases: Vec<String>,
    pub params: OrdMap<ParamConfig>,
}

pub struct EndpointModel {
    pub method: Seq<char>,
    pub path: Seq<char>,
    pub summary: Option<Seq<char>>,
    pub aliases: Seq<Seq<char>>,
    pub params: Seq<(Seq<char>, ParamModel)>,
}

impl DeepView for EndpointConfig {
    type V = EndpointModel;

    open spec fn deep_view(&self) -> EndpointModel {
        EndpointModel {
            method: self.method@,
            path: self.path@,
            summary: self.summary.deep_view(),
            aliases: self.aliases.deep_view(),
            params: self.params@,
        }
    }
}

/// A named group of commands.
pub struct ModuleConfig {
    pub commands: OrdMap<EndpointConfig>,
}

pub struct ModuleModel {
    pub commands: Seq<(Seq<char>, EndpointModel)>,
}

impl DeepView for ModuleConfig {
    type V = ModuleModel;

    open spec fn deep_view(&self) -> ModuleModel {
        ModuleModel { commands: self.commands@ }
    }
}

/// Authentication settings of a site.
pub struct AuthConfig {
    /// `bearer_token`, `api_key`, `custom_header`, `script` or `none`.
    pub auth_type: String,
    pub token_env: Option<String>,
    pub header: Option<String>,
    pub prefix: Option<String>,
    /// For `script`: the command producing the headers.
    pub command: Option<String>,
    /// For `script`: environment variables handed to the command.
    pub env: Option<OrdMap<String>>,
}

pub struct AuthModel {
    pub auth_type: Seq<char>,
    pub token_env: Option<Seq<char>>,
    pub header: Option<Seq<char>>,
    pub prefix: Option<Seq<char>>,
    pub command: Option<Seq<char>>,
    pub env: Option<Seq<(Seq<char>, Seq<char>)>>,
}

impl DeepView for AuthConfig {
    type V = AuthModel;

    open spec fn deep_view(&self) -> AuthModel {
        AuthModel {
            auth_type: self.auth_type@,
            token_env: self.token_env.deep_view(),
            header: self.header.deep_view(),
            prefix: self.prefix.deep_view(),
            command: self.command.deep_view(),
            env: self.env.deep_view(),
        }
    }
}

/// Site-level settings.
pub struct SiteInfo {
    pub name: Option<String>,
    pub base_url: Option<String>,
    pub auth: Option<AuthConfig>,
    pub headers: Option<OrdMap<String>>,
}

pub struct SiteInfoModel {
    pub name: Option<Seq<char>>,
    pub base_url: Option<Seq<char>>,
    pub auth: Option<AuthModel>,
    pub headers: Option<Seq<(Seq<char>, Seq<char>)>>,
}

impl DeepView for SiteInfo {
    type V = SiteInfoModel;

    open spec fn deep_view(&self) -> SiteInfoModel {
        SiteInfoModel {
            name: self.name.deep_view(),
            base_url: self.base_url.deep_view(),
            auth: self.auth.deep_view(),
            headers: self.headers.deep_view(),
        }
    }
}

/// A whole site configuration file.
pub struct SiteConfig {
    pub site: Option<SiteInfo>,
    pub modules: OrdMap<ModuleConfig>,
}

pub struct SiteModel {
    pub site: Option<SiteInfoModel>,
    pub modules: Seq<(Seq<char>, ModuleModel)>,
}

impl DeepView for SiteConfig {
    type V = SiteModel;

    open spec fn deep_view(&self) -> SiteModel {
        SiteModel { site: self.site.deep_view(), modules: self.modules@ }
    }
}

// ---------------------------------------------------------------------------
// Lookups
// ---------------------------------------------------------------------------

/// The first command, in command-name order, that lists `a` among its aliases.
pub open spec fn first_with_alias(cmds: Seq<(Seq<char>, EndpointModel)>, a: Seq<char>) -> Option<
    EndpointModel,
>
    decreases cmds.len(),
{
    if cmds.len() == 0 {
        None
    } else if cmds[0].1.aliases.contains(a) {
        Some(cmds[0].1)
    } else {
        first_with_alias(cmds.drop_first(), a)
    }
}

/// The endpoint that `module command` names: the command of that name, or
/// else the first command carrying it as an alias.
pub open spec fn endpoint_of(cfg: SiteModel, module: Seq<char>, command: Seq<char>) -> Option<
    EndpointModel,
> {
    match lookup(cfg.modules, module) {
        None => None,
        Some(m) => match lookup(m.commands, command) {
            Some(e) => Some(e),
            None => first_with_alias(m.commands, command),
        },
    }
}

/// The number of commands over all modules.
pub open spec fn total_from(mods: Seq<(Seq<char>, ModuleModel)>) -> nat
    decreases mods.len(),
{
    if mods.len() == 0 {
        0
    } else {
        total_from(mods.drop_last()) + mods.last().1.commands.len()
    }
}

pub open spec fn default_base_url() -> Seq<char> {
    "https://api.github.com"@
}

/// The configured base URL without trailing slashes, or the default host.
pub open spec fn base_url_of(cfg: SiteModel) -> Seq<char> {
    match cfg.site {
        Some(s) => match s.base_url {
            Some(b) => trim_end(b, CharClass::Exactly('/')),
            None => default_base_url(),
        },
        None => default_base_url(),
    }
}

pub fn vec_contains(v: &Vec<String>, x: &str) -> (r: bool)
    ensures
        r == v.deep_view().contains(x@),
{
    let mut i: usize = 0;
    while i < v.len()
        invariant
            i <= v.len(),
            forall|j: int| 0 <= j < i ==> v.deep_view()[j] != x@,
        decreases v.len() - i,
    {
        if str_eq(v[i].as_str(), x) {
            assert(v.deep_view()[i as int] == x@);
            return true;
        }
        i = i + 1;
    }
    proof {
        if v.deep_view().contains(x@) {
            let j = choose|j: int| 0 <= j < v.deep_view().len() && v.deep_view()[j] == x@;
        }
    }
    false
}

fn find_by_alias<'a>(cmds: &'a OrdMap<EndpointConfig>, a: &str) -> (r: Option<&'a EndpointConfig>)
    ensures
        match r {
            Some(e) => first_with_alias(cmds@, a@) == Some(e.deep_view()),
            None => first_with_alias(cmds@, a@) is None,
        },
{
    let n = cmds.len();
    let mut i: usize = 0;
    assert(cmds@.skip(0) =~= cmds@);
    while i < n
        invariant
            n == cmds@.len(),
            i <= n,
            first_with_alias(cmds@, a@) == first_with_alias(cmds@.skip(i as int), a@),
        decreases n - i,
    {
        assert(cmds@.skip(i as int).drop_first() =~= cmds@.skip(i + 1));
        let ep = cmds.value_at(i);
        if vec_contains(&ep.aliases, a) {
            return Some(ep);
        }
        i = i + 1;
    }
    assert(cmds@.skip(i as int).len() == 0);
    None
}

impl SiteConfig {
    /// Endpoint for a module and a command name or alias.
    pub fn get_endpoint(&self, module: &str, command: &str) -> (r: Option<&EndpointConfig>)
        ensures
            match r {
                Some(e) => endpoint_of(self.deep_view(), module@, command@) == Some(
                    e.deep_view(),
                ),
                None => endpoint_of(self.deep_view(), module@, command@) is None,
            },
    {
        match self.modules.get(module) {
            None => None,
            Some(m) => match m.commands.get(command) {
                Some(e) => Some(e),
                None => find_by_alias(&m.commands, command),
            },
        }
    }

    /// Base URL with trailing slashes removed; `https://api.github.com`
    /// when none is configured.
    pub fn get_base_url(&self) -> (r: String)
        ensures
            r@ == base_url_of(self.deep_view()),
    {
        match &self.site {
            Some(s) => match &s.base_url {
                Some(b) => {
                    let v = chars_of(b.as_str());
                    let t = trim_end_v(&v, &CharClass::Exactly('/'));
                    string_of(&t)
                },
                None => String::from_str("https://api.github.com"),
            },
            None => String::from_str("https://api.github.com"),
        }
    }

    /// The site's auth settings, if any.
    pub fn get_auth(&self) -> (r: Option<&AuthConfig>)
        ensures
            r.deep_view() == (match self.site.deep_view() {
                Some(s) => s.auth,
                None => None,
            }),
    {
        match &self.site {
            Some(s) => s.auth.as_ref(),
            None => None,
        }
    }

    /// The site's static headers, if any.
    pub fn get_headers(&self) -> (r: Option<&OrdMap<String>>)
        ensures
            r.deep_view() == (match self.site.deep_view() {
                Some(s) => s.headers,
                None => None,
            }),
    {
        match &self.site {
            Some(s) => s.headers.as_ref(),
            None => None,
        }
    }
}

} // verus!
