//! Decisions of the command-line front end: typo suggestions, what a
//! module invocation asks for, and how a `generate` request is carried out.

use vstd::prelude::*;
use crate::cli::{
    RequestParts, distribute_params_with_config, first_missing, first_non_flag, fill_placeholders,
    missing_param_message, params_from, parse_extra_args, route, split_command_and_args,
    strip_control_flags, stripped, strs,
};
use crate::config::{AuthConfig, SiteConfig, SiteInfo, SiteModel, endpoint_of, total_from};
use crate::naming::{filename_for, site_name_to_filename};
use crate::presets::{Preset, PresetModel, clone_auth, clone_opt};
use crate::help::{command_help, module_help};
use crate::ordmap::{OrdMap, has_key};
use crate::text::{
    chars_of, decimal, decimal_v, join_path, join_path_v, push_str, spec_starts_with, starts_with,
    string_of, trim, unicode_upper, CharClass,
};

verus! {

// ---------------------------------------------------------------------------
// Edit distance
// ---------------------------------------------------------------------------

pub open spec fn min3(x: nat, y: nat, z: nat) -> nat {
    if x <= y && x <= z {
        x
    } else if y <= z {
        y
    } else {
        z
    }
}

/// The Levenshtein distance: the fewest single-character insertions,
/// deletions and substitutions that turn `a` into `b`.
pub open spec fn lev(a: Seq<char>, b: Seq<char>) -> nat
    decreases a.len() + b.len(),
{
    if a.len() == 0 {
        b.len()
    } else if b.len() == 0 {
        a.len()
    } else {
        min3(
            lev(a.drop_last(), b) + 1,
            lev(a, b.drop_last()) + 1,
            lev(a.drop_last(), b.drop_last()) + (if a.last() == b.last() {
                0nat
            } else {
                1nat
            }),
        )
    }
}

pub open spec fn max_len(a: Seq<char>, b: Seq<char>) -> nat {
    if a.len() >= b.len() {
        a.len()
    } else {
        b.len()
    }
}

/// The distance never exceeds the longer length.
pub proof fn lemma_lev_bound(a: Seq<char>, b: Seq<char>)
    ensures
        lev(a, b) <= max_len(a, b),
    decreases a.len() + b.len(),
{
    if a.len() > 0 && b.len() > 0 {
        lemma_lev_bound(a.drop_last(), b.drop_last());
    }
}

/// A string is at distance zero from itself.
pub proof fn law_lev_identity(a: Seq<char>)
    ensures
        lev(a, a) == 0,
    decreases a.len(),
{
    if a.len() > 0 {
        law_lev_identity(a.drop_last());
    }
}

/// The distance does not depend on the order of its arguments.
pub proof fn law_lev_symmetric(a: Seq<char>, b: Seq<char>)
    ensures
        lev(a, b) == lev(b, a),
    decreases a.len() + b.len(),
{
    if a.len() > 0 && b.len() > 0 {
        law_lev_symmetric(a.drop_last(), b);
        law_lev_symmetric(a, b.drop_last());
        law_lev_symmetric(a.drop_last(), b.drop_last());
    }
}

/// Edit distance between two strings, counted in characters.
pub fn levenshtein(a: &str, b: &str) -> (r: usize)
    ensures
        r == lev(a@, b@),
{
    let av = chars_of(a);
    let bv = chars_of(b);
    let n = av.len();
    let m = bv.len();
    if n == 0 {
        return m;
    }
    if m == 0 {
        return n;
    }
    // prev[k] holds the distance between a[..i] and b[..k + 1]
    let mut prev: Vec<u128> = Vec::new();
    let mut k: usize = 0;
    assert(av@.take(0) =~= Seq::<char>::empty());
    while k < m
        invariant
            k <= m,
            m == bv@.len(),
            av@.take(0) =~= Seq::<char>::empty(),
            prev@.len() == k,
            forall|q: int| 0 <= q < k ==> #[trigger] prev@[q] == lev(av@.take(0), bv@.take(q + 1)),
        decreases m - k,
    {
        assert(lev(av@.take(0), bv@.take(k + 1)) == bv@.take(k + 1).len());
        prev.push((k as u128) + 1);
        k = k + 1;
    }
    let mut i: usize = 0;
    while i < n
        invariant
            i <= n,
            n == av@.len(),
            m == bv@.len(),
            m > 0,
            prev@.len() == m,
            forall|q: int| 0 <= q < m ==> #[trigger] prev@[q] == lev(av@.take(i as int), bv@.take(q + 1)),
        decreases n - i,
    {
        let mut cur: Vec<u128> = Vec::new();
        // distance between a[..i + 1] and b[..j]
        let mut left: u128 = (i as u128) + 1;
        // distance between a[..i] and b[..j]
        let mut diag: u128 = i as u128;
        proof {
            assert(bv@.take(0) =~= Seq::<char>::empty());
            assert(av@.take(i + 1).len() == i + 1);
            assert(av@.take(i as int).len() == i);
        }
        let mut j: usize = 0;
        while j < m
            invariant
                i < n,
                j <= m,
                n == av@.len(),
                m == bv@.len(),
                prev@.len() == m,
                cur@.len() == j,
                forall|q: int| 0 <= q < m ==> #[trigger] prev@[q] == lev(av@.take(i as int), bv@.take(q + 1)),
                forall|q: int| 0 <= q < j ==> #[trigger] cur@[q] == lev(av@.take(i + 1), bv@.take(q + 1)),
                left == lev(av@.take(i + 1), bv@.take(j as int)),
                diag == lev(av@.take(i as int), bv@.take(j as int)),
            decreases m - j,
        {
            let ghost ai = av@.take(i + 1);
            let ghost bj = bv@.take(j + 1);
            let up = prev[j];
            proof {
                assert(ai.drop_last() =~= av@.take(i as int));
                assert(bj.drop_last() =~= bv@.take(j as int));
                assert(ai.last() == av@[i as int]);
                assert(bj.last() == bv@[j as int]);
                lemma_lev_bound(av@.take(i as int), bj);
                lemma_lev_bound(ai, bv@.take(j as int));
                lemma_lev_bound(av@.take(i as int), bv@.take(j as int));
            }
            let cost: u128 = if av[i] == bv[j] {
                0
            } else {
                1
            };
            let x = up + 1;
            let y = left + 1;
            let z = diag + cost;
            let v = if x <= y && x <= z {
                x
            } else if y <= z {
                y
            } else {
                z
            };
            assert(v == lev(ai, bj));
            cur.push(v);
            diag = up;
            left = v;
            j = j + 1;
        }
        prev = cur;
        i = i + 1;
    }
    proof {
        assert(av@.take(n as int) =~= av@);
        assert(bv@.take(m as int) =~= bv@);
        assert(prev@[m - 1] == lev(av@, bv@));
        lemma_lev_bound(av@, bv@);
    }
    prev[m - 1] as usize
}

// ---------------------------------------------------------------------------
// Typo suggestions
// ---------------------------------------------------------------------------

/// The built-in commands, in the order they are tried.
pub open spec fn builtin_names() -> Seq<Seq<char>> {
    seq![
        "generate"@,
        "presets"@,
        "list"@,
        "sites"@,
        "GET"@,
        "POST"@,
        "PUT"@,
        "PATCH"@,
        "DELETE"@,
    ]
}

/// Keeps `best` unless `name` is within distance 2 and strictly closer.
pub open spec fn pick(best: Option<(Seq<char>, nat)>, input: Seq<char>, name: Seq<char>) -> Option<
    (Seq<char>, nat),
> {
    let d = lev(input, name);
    if d <= 2 && (best is None || d < (best->0).1) {
        Some((name, d))
    } else {
        best
    }
}

pub open spec fn best_of(input: Seq<char>, names: Seq<Seq<char>>) -> Option<(Seq<char>, nat)>
    decreases names.len(),
{
    if names.len() == 0 {
        None
    } else {
        pick(best_of(input, names.drop_last()), input, names.last())
    }
}

/// The built-in command closest to `input` within distance 2, the first
/// listed on ties.
pub open spec fn suggestion(input: Seq<char>) -> Option<Seq<char>> {
    match best_of(input, builtin_names()) {
        Some(p) => Some(p.0),
        None => None,
    }
}

/// Suggests the built-in command a mistyped one was probably meant to be.
pub fn suggest_command(input: &str) -> (r: Option<&'static str>)
    ensures
        match r {
            Some(s) => suggestion(input@) == Some(s@),
            None => suggestion(input@) is None,
        },
{
    let builtins: [&'static str; 9] = [
        "generate",
        "presets",
        "list",
        "sites",
        "GET",
        "POST",
        "PUT",
        "PATCH",
        "DELETE",
    ];
    let ghost names = builtin_names();
    assert(names.len() == 9);
    assert(forall|k: int| 0 <= k < 9 ==> #[trigger] names[k] == builtins@[k]@);
    let mut best: Option<(&'static str, usize)> = None;
    let mut i: usize = 0;
    while i < 9
        invariant
            i <= 9,
            names == builtin_names(),
            names.len() == 9,
            forall|k: int| 0 <= k < 9 ==> #[trigger] names[k] == builtins@[k]@,
            match best {
                Some(b) => best_of(input@, names.take(i as int)) == Some((b.0@, b.1 as nat)),
                None => best_of(input@, names.take(i as int)) is None,
            },
        decreases 9 - i,
    {
        assert(names.take(i + 1).drop_last() =~= names.take(i as int));
        assert(names.take(i + 1).last() == builtins@[i as int]@);
        let name = builtins[i];
        let dist = levenshtein(input, name);
        let closer = match best {
            None => true,
            Some(b) => dist < b.1,
        };
        if dist <= 2 && closer {
            best = Some((name, dist));
        }
        i = i + 1;
    }
    assert(names.take(9) =~= names);
    match best {
        Some(b) => Some(b.0),
        None => None,
    }
}

/// A suggestion is within distance 2 of the input, and no built-in command
/// is closer.
pub proof fn law_suggestion_is_closest(input: Seq<char>)
    ensures
        suggestion(input) matches Some(s) ==> lev(input, s) <= 2 && builtin_names().contains(s)
            && forall|k: int|
            0 <= k < builtin_names().len() ==> lev(input, s) <= lev(input, #[trigger] builtin_names()[k]),
        suggestion(input) is None ==> forall|k: int|
            0 <= k < builtin_names().len() ==> lev(input, #[trigger] builtin_names()[k]) > 2,
{
    lemma_best_of(input, builtin_names());
}

proof fn lemma_best_of(input: Seq<char>, names: Seq<Seq<char>>)
    ensures
        best_of(input, names) matches Some(p) ==> p.1 == lev(input, p.0) && p.1 <= 2
            && names.contains(p.0) && forall|k: int|
            0 <= k < names.len() ==> p.1 <= lev(input, #[trigger] names[k]),
        best_of(input, names) is None ==> forall|k: int|
            0 <= k < names.len() ==> lev(input, #[trigger] names[k]) > 2,
    decreases names.len(),
{
    if names.len() > 0 {
        let init = names.drop_last();
        lemma_best_of(input, init);
        assert forall|k: int| 0 <= k < init.len() implies #[trigger] init[k] == names[k] by {}
        let b = best_of(input, names);
        if let Some(p) = b {
            if best_of(input, init) is Some && best_of(input, init) == b {
                let q = best_of(input, init)->0;
                assert(init.contains(q.0));
                let w = choose|w: int| 0 <= w < init.len() && init[w] == q.0;
                assert(names[w] == q.0);
            } else {
                assert(names[names.len() - 1] == names.last());
            }
            assert forall|k: int| 0 <= k < names.len() implies p.1 <= lev(input, #[trigger] names[k]) by {
                if k < names.len() - 1 {
                    assert(init[k] == names[k]);
                }
            }
        } else {
            assert forall|k: int| 0 <= k < names.len() implies lev(input, #[trigger] names[k]) > 2 by {
                if k < names.len() - 1 {
                    assert(init[k] == names[k]);
                }
            }
        }
    }
}

// ---------------------------------------------------------------------------
// Module invocations
// ---------------------------------------------------------------------------

pub open spec fn opt_view(s: Option<&str>) -> Option<Seq<char>> {
    match s {
        Some(x) => Some(x@),
        None => None,
    }
}

/// A flag given after the module wins over the one given before it.
pub open spec fn later_wins(after: Option<Seq<char>>, before: Option<Seq<char>>) -> Option<Seq<char>> {
    match after {
        Some(x) => Some(x),
        None => before,
    }
}

/// A module invocation with its control flags taken out.
pub struct Invocation {
    pub raw: bool,
    pub site: Option<String>,
    pub config_path: Option<String>,
    /// Empty when no command was given.
    pub command: String,
    pub params: OrdMap<String>,
}

/// Reads the arguments that follow a module name: control flags given
/// there override `raw`, `site` and `config_path` given before it; the first
/// argument not starting with `--` is the command; the arguments after it
/// are its parameters.
pub fn read_invocation(args: &[String], raw: bool, site: Option<&str>, config_path: Option<&str>) -> (r:
    Invocation)
    ensures
        ({
            let st = stripped(strs(args@));
            &&& r.raw == (raw || st.raw)
            &&& r.site.deep_view() == later_wins(st.site, opt_view(site))
            &&& r.config_path.deep_view() == later_wins(st.config, opt_view(config_path))
            &&& match first_non_flag(st.kept, 0) {
                Some(k) => r.command@ == st.kept[k] && r.params@ == params_from(
                    st.kept.skip(k + 1),
                    0,
                    Seq::empty(),
                ),
                None => r.command@ == Seq::<char>::empty() && r.params@ == params_from(
                    st.kept,
                    0,
                    Seq::empty(),
                ),
            }
        }),
{
    let (filtered, raw_flag, site_flag, config_flag) = strip_control_flags(args);
    let site2 = match site_flag {
        Some(s) => Some(s),
        None => match site {
            Some(s) => Some(String::from_str(s)),
            None => None,
        },
    };
    let config2 = match config_flag {
        Some(c) => Some(c),
        None => match config_path {
            Some(c) => Some(String::from_str(c)),
            None => None,
        },
    };
    assert(strs(filtered@) =~= filtered.deep_view());
    let (command, remaining) = split_command_and_args(filtered.as_slice());
    assert(strs(remaining@) =~= remaining.deep_view());
    let params = parse_extra_args(remaining.as_slice());
    Invocation { raw: raw || raw_flag, site: site2, config_path: config2, command, params }
}

/// What to do for a module invocation.
pub enum ModuleAction {
    /// Print this on standard output.
    Show(String),
    /// Print this on standard error; the invocation still succeeds.
    Warn(String),
    /// Print the line that no configuration was found (on standard error
    /// when `on_stderr`), then the preset list; exit with failure when
    /// `failed`.
    Onboard { on_stderr: bool, failed: bool },
    /// Print this on standard error and exit with failure.
    Fail(String),
    /// Send this request.
    Call(RequestParts),
}

/// What `distribute_params_with_config` hands back for a request that it
/// accepts.
pub open spec fn routed_request(parts: RequestParts, ep: crate::config::EndpointModel, params: Seq<(Seq<char>, Seq<char>)>) -> bool {
    let routes = route(ep.params, params);
    &&& parts.method@ == unicode_upper(ep.method)
    &&& parts.path@ == fill_placeholders(ep.path, routes.path)
    &&& parts.query@ == routes.query
    &&& parts.headers@ == routes.headers
    &&& crate::cli::body_of(parts.body) == (if routes.body.len() > 0 {
        Some(crate::cli::BodyModel::Fields(routes.body))
    } else {
        None
    })
}

pub open spec fn suggestion_text(module: Seq<char>, s: Seq<char>) -> Seq<char> {
    "Unknown command: '"@ + module + "'. Did you mean '"@ + s
        + "'?\nRun 'restie presets' to see available platforms."@
}

pub open spec fn not_found_text(cfg: SiteModel, module: Seq<char>, command: Seq<char>) -> Seq<char> {
    "Command '"@ + module + " "@ + command + "' not found in config.\nAvailable commands in module '"@
        + module + "':\n"@ + module_help(cfg, module)
}

pub open spec fn rejected_text(module: Seq<char>, command: Seq<char>, message: Seq<char>) -> Seq<char> {
    "Error: "@ + message + "\nRun 'restie "@ + module + " "@ + command
        + " --help' to see required parameters."@
}

/// The action for `module` with the invocation's command and parameters,
/// given the configuration found (if any): module help when no command is
/// given (or a typo suggestion, or the onboarding, without configuration);
/// command help for `--help`; otherwise the request, or why it cannot be made.
pub open spec fn module_action_ok(
    r: ModuleAction,
    module: Seq<char>,
    command: Seq<char>,
    params: Seq<(Seq<char>, Seq<char>)>,
    cfg: Option<SiteModel>,
) -> bool {
    if command.len() == 0 {
        match cfg {
            Some(c) => r matches ModuleAction::Show(t) && t@ == module_help(c, module),
            None => match suggestion(module) {
                Some(s) => r matches ModuleAction::Warn(t) && t@ == suggestion_text(module, s),
                None => r matches ModuleAction::Onboard { on_stderr, failed } && !on_stderr
                    && !failed,
            },
        }
    } else if has_key(params, "help"@) {
        match cfg {
            Some(c) => r matches ModuleAction::Show(t) && t@ == command_help(c, module, command),
            None => r matches ModuleAction::Onboard { on_stderr, failed } && !on_stderr && !failed,
        }
    } else {
        match cfg {
            None => r matches ModuleAction::Onboard { on_stderr, failed } && on_stderr && failed,
            Some(c) => match endpoint_of(c, module, command) {
                None => r matches ModuleAction::Fail(t) && t@ == not_found_text(c, module, command),
                Some(ep) => match first_missing(ep.params, route(ep.params, params).path) {
                    Some(m) => r matches ModuleAction::Fail(t) && t@ == rejected_text(
                        module,
                        command,
                        missing_param_message(m.0, m.1, ep.path),
                    ),
                    None => r matches ModuleAction::Call(parts) && routed_request(parts, ep, params),
                },
            },
        }
    }
}

/// Decides what a module invocation does.
pub fn module_action(module: &str, inv: &Invocation, config: Option<&SiteConfig>) -> (r: ModuleAction)
    ensures
        module_action_ok(
            r,
            module@,
            inv.command@,
            inv.params@,
            match config {
                Some(c) => Some(c.deep_view()),
                None => None,
            },
        ),
{
    if inv.command.as_str().is_empty() {
        proof {
            assert(inv.command@.len() == 0);
        }
        return match config {
            Some(cfg) => ModuleAction::Show(cfg.help_for_module(module)),
            None => match suggest_command(module) {
                Some(s) => {
                    let mut t = chars_of("Unknown command: '");
                    push_str(&mut t, module);
                    push_str(&mut t, "'. Did you mean '");
                    push_str(&mut t, s);
                    push_str(&mut t, "'?\nRun 'restie presets' to see available platforms.");
                    ModuleAction::Warn(string_of(&t))
                },
                None => ModuleAction::Onboard { on_stderr: false, failed: false },
            },
        };
    }
    if inv.params.contains_key("help") {
        return match config {
            Some(cfg) => ModuleAction::Show(cfg.help_for_command(module, inv.command.as_str())),
            None => ModuleAction::Onboard { on_stderr: false, failed: false },
        };
    }
    let cfg = match config {
        Some(c) => c,
        None => {
            return ModuleAction::Onboard { on_stderr: true, failed: true };
        },
    };
    let command = inv.command.as_str();
    match cfg.get_endpoint(module, command) {
        Some(ep) => match distribute_params_with_config(ep, &inv.params) {
            Ok(parts) => ModuleAction::Call(parts),
            Err(e) => {
                let mut t = chars_of("Error: ");
                push_str(&mut t, e.as_str());
                push_str(&mut t, "\nRun 'restie ");
                push_str(&mut t, module);
                push_str(&mut t, " ");
                push_str(&mut t, command);
                push_str(&mut t, " --help' to see required parameters.");
                ModuleAction::Fail(string_of(&t))
            },
        },
        None => {
            let mut t = chars_of("Command '");
            push_str(&mut t, module);
            push_str(&mut t, " ");
            push_str(&mut t, command);
            push_str(&mut t, "' not found in config.\nAvailable commands in module '");
            push_str(&mut t, module);
            push_str(&mut t, "':\n");
            let h = cfg.help_for_module(module);
            push_str(&mut t, h.as_str());
            ModuleAction::Fail(string_of(&t))
        },
    }
}

// ---------------------------------------------------------------------------
// Generating a configuration
// ---------------------------------------------------------------------------

/// Starts with `http://` or `https://`.
pub open spec fn url_like(s: Seq<char>) -> bool {
    spec_starts_with(s, "http://"@) || spec_starts_with(s, "https://"@)
}

pub fn is_url_like(s: &str) -> (b: bool)
    ensures
        b == url_like(s@),
{
    let v = chars_of(s);
    let http = chars_of("http://");
    let https = chars_of("https://");
    starts_with(&v, &http) || starts_with(&v, &https)
}

/// Whether a `generate` source stands on its own (a spec URL or an existing
/// file), so that no preset catalog is needed.
pub fn looks_like_spec_source(s: &str, exists: bool) -> (b: bool)
    ensures
        b == (url_like(s@) || exists),
{
    is_url_like(s) || exists
}

/// How a `generate` request is carried out.
pub enum GeneratePlan {
    /// A preset signed by a script and without a usable spec: write the
    /// site and its auth only.
    RawOnly(Preset),
    /// Read the spec at `source` (a URL, or else a file).
    FromSpec { source: String, site_name_hint: Option<String>, auth: Option<AuthConfig> },
    /// Neither a preset nor a spec: fail with this message.
    Unknown(String),
}

pub open spec fn unknown_source_text(from: Seq<char>, catalog_empty: bool) -> Seq<char> {
    "Error: unknown preset '"@ + from + "'.\n"@ + if catalog_empty {
        "No preset catalog is available yet, so no presets exist to match.\nFetch one with 'restie presets update'."@
    } else {
        "Run 'restie presets' to see available presets."@
    }
}

/// Plans `generate <from>` given the preset of that name (if any), whether
/// `from` is an existing file, and whether the catalog is empty.
pub fn plan_generate(from: &str, preset: Option<Preset>, from_exists: bool, catalog_empty: bool) -> (r:
    GeneratePlan)
    ensures
        match preset {
            Some(p) => if crate::presets::script_auth(p.deep_view()) {
                r matches GeneratePlan::RawOnly(q) && q.deep_view() == p.deep_view()
            } else {
                r matches GeneratePlan::FromSpec { source, site_name_hint, auth } && source@
                    == p.deep_view().openapi_url && site_name_hint.deep_view() == Some(
                    p.deep_view().name,
                ) && auth.deep_view() == p.deep_view().default_auth
            },
            None => if url_like(from@) || from_exists {
                r matches GeneratePlan::FromSpec { source, site_name_hint, auth } && source@
                    == from@ && site_name_hint is None && auth is None
            } else {
                r matches GeneratePlan::Unknown(m) && m@ == unknown_source_text(from@, catalog_empty)
            },
        },
{
    match preset {
        Some(p) => {
            if crate::presets::is_script_auth(&p) {
                GeneratePlan::RawOnly(p)
            } else {
                GeneratePlan::FromSpec {
                    source: p.openapi_url,
                    site_name_hint: Some(p.name),
                    auth: p.default_auth,
                }
            }
        },
        None => {
            if is_url_like(from) || from_exists {
                GeneratePlan::FromSpec {
                    source: String::from_str(from),
                    site_name_hint: None,
                    auth: None,
                }
            } else {
                let mut m = chars_of("Error: unknown preset '");
                push_str(&mut m, from);
                push_str(&mut m, "'.\n");
                if catalog_empty {
                    push_str(
                        &mut m,
                        "No preset catalog is available yet, so no presets exist to match.\nFetch one with 'restie presets update'.",
                    );
                } else {
                    push_str(&mut m, "Run 'restie presets' to see available presets.");
                }
                GeneratePlan::Unknown(string_of(&m))
            }
        },
    }
}

/// The error for a spec that is empty or blank, which would otherwise
/// surface later as "no endpoints".
pub fn blank_spec_error(source: &str, content: &str) -> (r: Option<String>)
    ensures
        match r {
            Some(m) => trim(content@, CharClass::Whitespace).len() == 0 && m@ == "Error: OpenAPI spec at '"@
                + source@ + "' is empty \u{2014} nothing to generate from."@,
            None => trim(content@, CharClass::Whitespace).len() > 0,
        },
{
    let v = chars_of(content);
    let t = crate::text::trim_v(&v, &CharClass::Whitespace);
    if t.len() == 0 {
        let mut m = chars_of("Error: OpenAPI spec at '");
        push_str(&mut m, source);
        push_str(&mut m, "' is empty \u{2014} nothing to generate from.");
        Some(string_of(&m))
    } else {
        None
    }
}

impl SiteConfig {
    /// The number of commands over all modules.
    pub fn command_count(&self) -> (n: u128)
        ensures
            n == total_from(self.modules@),
    {
        let m = self.modules.len();
        let mut total: u128 = 0;
        let mut i: usize = 0;
        while i < m
            invariant
                m == self.modules@.len(),
                i <= m,
                total == total_from(self.modules@.take(i as int)),
                total <= i * (usize::MAX as int),
            decreases m - i,
        {
            assert(self.modules@.take(i + 1).drop_last() =~= self.modules@.take(i as int));
            let c = self.modules.value_at(i).commands.len();
            assert(total + c <= (i + 1) * (usize::MAX as int)) by (nonlinear_arith)
                requires
                    total <= i * (usize::MAX as int),
                    c <= usize::MAX,
            ;
            assert((i + 1) * (usize::MAX as int) <= u128::MAX) by (nonlinear_arith)
                requires
                    i < usize::MAX,
                    usize::MAX <= u64::MAX,
            ;
            total = total + c as u128;
            i = i + 1;
        }
        assert(self.modules@.take(m as int) =~= self.modules@);
        total
    }
}

/// The site's auth replaced by a preset's, when the preset has one.
pub fn with_preset_auth(config: SiteConfig, auth: Option<AuthConfig>) -> (r: SiteConfig)
    ensures
        r.modules@ == config.modules@,
        match auth {
            Some(a) => match config.site {
                Some(s) => r.site.deep_view() == Some(
                    crate::config::SiteInfoModel { auth: Some(a.deep_view()), ..s.deep_view() },
                ),
                None => r.site is None,
            },
            None => r.site.deep_view() == config.site.deep_view(),
        },
{
    match auth {
        None => config,
        Some(a) => {
            let SiteConfig { site, modules } = config;
            let site = match site {
                Some(s) => {
                    let SiteInfo { name, base_url, auth: _, headers } = s;
                    Some(SiteInfo { name, base_url, auth: Some(a), headers })
                },
                None => None,
            };
            SiteConfig { site, modules }
        },
    }
}

/// The site name a generated configuration is saved under: `--name`, else
/// the preset's name, else one derived from the API title (or `site`).
pub open spec fn chosen_site_name(
    name_override: Option<Seq<char>>,
    hint: Option<Seq<char>>,
    title: Option<Seq<char>>,
) -> Seq<char> {
    match name_override {
        Some(n) => n,
        None => match hint {
            Some(h) => h,
            None => filename_for(
                match title {
                    Some(t) => t,
                    None => "site"@,
                },
            ),
        },
    }
}

pub fn choose_site_name(
    config: &SiteConfig,
    name_override: Option<String>,
    hint: Option<String>,
) -> (r: String)
    ensures
        r@ == chosen_site_name(
            name_override.deep_view(),
            hint.deep_view(),
            match config.site.deep_view() {
                Some(s) => s.name,
                None => None,
            },
        ),
{
    match name_override {
        Some(n) => n,
        None => match hint {
            Some(h) => h,
            None => {
                let title: &str = match &config.site {
                    Some(s) => match &s.name {
                        Some(t) => t.as_str(),
                        None => "site",
                    },
                    None => "site",
                };
                site_name_to_filename(title)
            },
        },
    }
}

/// The default file a site configuration is written to.
pub fn default_output_path(config_dir: &str, site_name: &str) -> (r: String)
    ensures
        r@ == join_path(config_dir@, site_name@ + ".yaml"@),
{
    let mut file = chars_of(site_name);
    push_str(&mut file, ".yaml");
    let f = string_of(&file);
    join_path_v(config_dir, f.as_str())
}

pub open spec fn no_endpoints_text() -> Seq<char> {
    "Error: OpenAPI spec produced 0 endpoints \u{2014} nothing to generate.\nCheck that the URL points to a valid OpenAPI spec and the --filter is correct."@
}

/// Refuses to write a configuration without any command.
pub fn empty_config_error(total: u128) -> (r: Option<String>)
    ensures
        r is Some <==> total == 0,
        r matches Some(m) ==> m@ == no_endpoints_text(),
{
    if total == 0 {
        Some(
            String::from_str(
                "Error: OpenAPI spec produced 0 endpoints \u{2014} nothing to generate.\nCheck that the URL points to a valid OpenAPI spec and the --filter is correct.",
            ),
        )
    } else {
        None
    }
}

/// The error for an output path that names a directory.
pub fn directory_output_error(out_path: &str) -> (r: String)
    ensures
        r@ == "Error: output path '"@ + out_path@ + "' is a directory. Use --output <file>.yaml"@,
{
    let mut m = chars_of("Error: output path '");
    push_str(&mut m, out_path);
    push_str(&mut m, "' is a directory. Use --output <file>.yaml");
    string_of(&m)
}

/// What a successful `generate` reports.
pub fn generated_message(out_path: &str, site_name: &str, modules: usize, endpoints: u128) -> (r:
    String)
    ensures
        r@ == "Generated "@ + out_path@ + " (site: "@ + site_name@ + ", "@ + decimal(modules as nat)
            + " modules, "@ + decimal(endpoints as nat) + " endpoints)"@,
{
    let mut m = chars_of("Generated ");
    push_str(&mut m, out_path);
    push_str(&mut m, " (site: ");
    push_str(&mut m, site_name);
    push_str(&mut m, ", ");
    let d = decimal_v(modules as u128);
    crate::text::append_chars(&mut m, &d);
    push_str(&mut m, " modules, ");
    let e = decimal_v(endpoints);
    crate::text::append_chars(&mut m, &e);
    push_str(&mut m, " endpoints)");
    string_of(&m)
}

/// The configuration written for a raw-only preset: site name (`--name`,
/// else the preset's), its base URL (or a placeholder host), its auth, and
/// no commands; also the site name.
pub fn raw_site_config(preset: &Preset, name_override: Option<String>) -> (r: (SiteConfig, String))
    ensures
        r.0.modules@.len() == 0,
        r.1@ == match name_override.deep_view() {
            Some(n) => n,
            None => preset.name@,
        },
        r.0.site.deep_view() == Some(
            crate::config::SiteInfoModel {
                name: Some(r.1@),
                base_url: Some(
                    match preset.base_url.deep_view() {
                        Some(b) => b,
                        None => "https://example.com"@,
                    },
                ),
                auth: preset.default_auth.deep_view(),
                headers: None,
            },
        ),
{
    let site_name = match name_override {
        Some(n) => n,
        None => preset.name.clone(),
    };
    let base_url = match &preset.base_url {
        Some(b) => b.clone(),
        None => String::from_str("https://example.com"),
    };
    let auth = match &preset.default_auth {
        Some(a) => Some(clone_auth(a)),
        None => None,
    };
    let config = SiteConfig {
        site: Some(
            SiteInfo { name: Some(site_name.clone()), base_url: Some(base_url), auth, headers: None },
        ),
        modules: OrdMap::new(),
    };
    (config, site_name)
}

/// What writing a raw-only configuration reports.
pub fn raw_generated_message(out_path: &str, site_name: &str) -> (r: String)
    ensures
        r@ == "Generated "@ + out_path@ + " (site: "@ + site_name@
            + ", raw-only \u{2014} no commands)\nCall it in raw mode: restie --site "@ + site_name@
            + " <METHOD> /path?a=1&b=2\nEdit site.base_url in ~/.config/restie/"@ + site_name@
            + ".yaml, or the signing script under ~/.config/restie/presets/auth/, if your product's host differs."@,
{
    let mut m = chars_of("Generated ");
    push_str(&mut m, out_path);
    push_str(&mut m, " (site: ");
    push_str(&mut m, site_name);
    push_str(&mut m, ", raw-only \u{2014} no commands)\nCall it in raw mode: restie --site ");
    push_str(&mut m, site_name);
    push_str(&mut m, " <METHOD> /path?a=1&b=2\nEdit site.base_url in ~/.config/restie/");
    push_str(&mut m, site_name);
    push_str(
        &mut m,
        ".yaml, or the signing script under ~/.config/restie/presets/auth/, if your product's host differs.",
    );
    string_of(&m)
}

} // verus!
