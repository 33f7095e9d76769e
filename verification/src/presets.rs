//! The platform preset catalog: its schema, validation of untrusted
//! catalogs, lookups, and the two-layer resolution (fetched catalog with a
//! local override merged on top).

use vstd::prelude::*;
use crate::config::{AuthConfig, AuthModel};
use crate::ordmap::{
    OrdMap, has_key, insert_sorted, key_lt, lemma_insert_sorted_keys, lemma_insert_sorted_lookup,
    lemma_insert_sorted_sorted, lookup, sorted_keys,
};
use crate::text::{
    CharClass, chars_of, decimal, decimal_v, push_str, spec_starts_with, split_on, split_on_v,
    starts_with, str_eq, string_of, trim, trim_v, views, pad_right, utf8_len,
};

verus! {

/// Newest catalog schema this build understands.
pub const SCHEMA_VERSION: u32 = 1;

/// Oldest catalog schema this build still understands.
pub const MIN_SCHEMA_VERSION: u32 = 1;

// ---------------------------------------------------------------------------
// Catalog schema
// ---------------------------------------------------------------------------

/// One platform preset.
pub struct Preset {
    /// Short id used on the command line, e.g. `github`. Unique in a catalog.
    pub name: String,
    /// Human-readable title of the platform.
    pub display_name: String,
    /// OpenAPI spec location; empty for raw-only (script-auth) presets.
    pub openapi_url: String,
    /// Request base URL of a raw-only preset.
    pub base_url: Option<String>,
    /// Auth settings written into generated site configs.
    pub default_auth: Option<AuthConfig>,
    /// One-line summary.
    pub description: String,
}

pub struct PresetModel {
    pub name: Seq<char>,
    pub display_name: Seq<char>,
    pub openapi_url: Seq<char>,
    pub base_url: Option<Seq<char>>,
    pub default_auth: Option<AuthModel>,
    pub description: Seq<char>,
}

impl DeepView for Preset {
    type V = PresetModel;

    open spec fn deep_view(&self) -> PresetModel {
        PresetModel {
            name: self.name@,
            display_name: self.display_name@,
            openapi_url: self.openapi_url@,
            base_url: self.base_url.deep_view(),
            default_auth: self.default_auth.deep_view(),
            description: self.description@,
        }
    }
}

/// A whole catalog file.
pub struct PresetCatalog {
    pub schema_version: u32,
    /// Signing scripts to fetch alongside the catalog.
    pub scripts: Vec<String>,
    pub presets: Vec<Preset>,
}

pub struct CatalogModel {
    pub schema_version: u32,
    pub scripts: Seq<Seq<char>>,
    pub presets: Seq<PresetModel>,
}

impl DeepView for PresetCatalog {
    type V = CatalogModel;

    open spec fn deep_view(&self) -> CatalogModel {
        CatalogModel {
            schema_version: self.schema_version,
            scripts: self.scripts.deep_view(),
            presets: self.presets.deep_view(),
        }
    }
}

// ---------------------------------------------------------------------------
// Copies
// ---------------------------------------------------------------------------

pub fn clone_string_map(m: &OrdMap<String>) -> (r: OrdMap<String>)
    ensures
        r@ == m@,
{
    let mut r: OrdMap<String> = OrdMap::new();
    let n = m.len();
    let mut i: usize = 0;
    while i < n
        invariant
            n == m@.len(),
            i <= n,
            crate::ordmap::sorted_keys(m@),
            r@ == m@.take(i as int),
        decreases n - i,
    {
        let k = m.key_at(i).clone();
        let v = m.value_at(i).clone();
        let ghost t = m@.take(i as int);
        proof {
            crate::ordmap::lemma_key_lt_irreflexive(k@);
            if t.len() > 0 {
                assert(crate::ordmap::key_lt(m@[i - 1].0, m@[i as int].0));
                assert(t.last() == m@[i - 1]);
                assert(insert_sorted(t, k@, v@) == t.push((k@, v@)));
            } else {
                assert(insert_sorted(t, k@, v@) == seq![(k@, v@)]);
                assert(seq![(k@, v@)] =~= t.push((k@, v@)));
            }
            assert(m@.take(i + 1) =~= t.push(m@[i as int]));
        }
        r.insert(k, v);
        i = i + 1;
    }
    assert(m@.take(n as int) =~= m@);
    r
}

pub fn clone_auth(a: &AuthConfig) -> (r: AuthConfig)
    ensures
        r.deep_view() == a.deep_view(),
{
    AuthConfig {
        auth_type: a.auth_type.clone(),
        token_env: clone_opt(&a.token_env),
        header: clone_opt(&a.header),
        prefix: clone_opt(&a.prefix),
        command: clone_opt(&a.command),
        env: match &a.env {
            Some(m) => Some(clone_string_map(m)),
            None => None,
        },
    }
}

pub fn clone_opt(o: &Option<String>) -> (r: Option<String>)
    ensures
        r.deep_view() == o.deep_view(),
{
    match o {
        Some(s) => Some(s.clone()),
        None => None,
    }
}

pub fn clone_preset(p: &Preset) -> (r: Preset)
    ensures
        r.deep_view() == p.deep_view(),
{
    Preset {
        name: p.name.clone(),
        display_name: p.display_name.clone(),
        openapi_url: p.openapi_url.clone(),
        base_url: clone_opt(&p.base_url),
        default_auth: match &p.default_auth {
            Some(a) => Some(clone_auth(a)),
            None => None,
        },
        description: p.description.clone(),
    }
}

// ---------------------------------------------------------------------------
// Validation
// ---------------------------------------------------------------------------

/// A non-blank `http://` or `https://` URL.
pub open spec fn http_url(s: Seq<char>) -> bool {
    trim(s, CharClass::Whitespace).len() > 0 && (spec_starts_with(s, "http://"@)
        || spec_starts_with(s, "https://"@))
}

/// Whether a string is a non-empty http(s) URL.
pub fn is_http_url(s: &str) -> (b: bool)
    ensures
        b == http_url(s@),
{
    let v = chars_of(s);
    let t = trim_v(&v, &CharClass::Whitespace);
    let http = chars_of("http://");
    let https = chars_of("https://");
    t.len() > 0 && (starts_with(&v, &http) || starts_with(&v, &https))
}

/// A raw-only preset: its auth comes from a signing script.
pub open spec fn script_auth(p: PresetModel) -> bool {
    match p.default_auth {
        Some(a) => a.auth_type == "script"@,
        None => false,
    }
}

pub fn is_script_auth(p: &Preset) -> (b: bool)
    ensures
        b == script_auth(p.deep_view()),
{
    match &p.default_auth {
        Some(a) => str_eq(a.auth_type.as_str(), "script"),
        None => false,
    }
}

/// A path that is absolute or climbs out with a `..` component.
pub open spec fn escaping_path(s: Seq<char>) -> bool {
    spec_starts_with(s, "/"@) || split_on(s, '/').contains(".."@)
}

/// The error for an unsafe script path, if `command` is one.
pub open spec fn script_path_error(owner: Seq<char>, command: Seq<char>) -> Option<Seq<char>> {
    if trim(command, CharClass::Whitespace).len() == 0 || escaping_path(command) {
        Some(
            owner + " has an unsafe script path '"@ + command
                + "' (must be relative, no '..')"@,
        )
    } else {
        None
    }
}

fn has_parent_segment(v: &Vec<char>) -> (b: bool)
    ensures
        b == split_on(v@, '/').contains(".."@),
{
    let parts = split_on_v(v, '/');
    let dd = chars_of("..");
    let mut i: usize = 0;
    while i < parts.len()
        invariant
            i <= parts.len(),
            dd@ == ".."@,
            views(parts@) == split_on(v@, '/'),
            forall|j: int| 0 <= j < i ==> views(parts@)[j] != ".."@,
        decreases parts.len() - i,
    {
        if crate::text::seq_eq(&parts[i], &dd) {
            assert(views(parts@)[i as int] == ".."@);
            return true;
        }
        i = i + 1;
    }
    false
}

/// Rejects blank and absolute script paths and paths with a `..` component.
pub fn validate_script_path(owner: &str, command: &str) -> (r: Result<(), String>)
    ensures
        match script_path_error(owner@, command@) {
            Some(e) => r matches Err(m) && m@ == e,
            None => r is Ok,
        },
{
    let v = chars_of(command);
    let slash = chars_of("/");
    let blank = trim_v(&v, &CharClass::Whitespace).len() == 0;
    let escapes = starts_with(&v, &slash) || has_parent_segment(&v);
    if blank || escapes {
        let mut m = chars_of(owner);
        push_str(&mut m, " has an unsafe script path '");
        push_str(&mut m, command);
        push_str(&mut m, "' (must be relative, no '..')");
        return Err(string_of(&m));
    }
    Ok(())
}

/// A blank key in an environment map.
pub open spec fn has_blank_key(env: Seq<(Seq<char>, Seq<char>)>) -> bool {
    exists|i: int| 0 <= i < env.len() && trim(#[trigger] env[i].0, CharClass::Whitespace).len() == 0
}

/// The error for an auth block of catalog preset `preset`, if any.
pub open spec fn auth_error(preset: Seq<char>, auth: AuthModel) -> Option<Seq<char>> {
    let cmd_error = if auth.auth_type == "script"@ {
        match auth.command {
            None => Some("preset '"@ + preset + "' uses script auth but has no 'command'"@),
            Some(c) => script_path_error(preset, c),
        }
    } else {
        None
    };
    match cmd_error {
        Some(e) => Some(e),
        None => match auth.env {
            Some(env) => if has_blank_key(env) {
                Some("preset '"@ + preset + "' has an empty env var name"@)
            } else {
                None
            },
            None => None,
        },
    }
}

fn blank_key(env: &OrdMap<String>) -> (b: bool)
    ensures
        b == has_blank_key(env@),
{
    let n = env.len();
    let mut i: usize = 0;
    while i < n
        invariant
            n == env@.len(),
            i <= n,
            forall|j: int| 0 <= j < i ==> trim(#[trigger] env@[j].0, CharClass::Whitespace).len() > 0,
        decreases n - i,
    {
        let k = chars_of(env.key_at(i).as_str());
        if trim_v(&k, &CharClass::Whitespace).len() == 0 {
            return true;
        }
        i = i + 1;
    }
    false
}

/// Guard rails for an auth block that came from a catalog: a script command
/// must be present and a safe relative path, and env var names not blank.
pub fn validate_auth(preset: &str, auth: &AuthConfig) -> (r: Result<(), String>)
    ensures
        match auth_error(preset@, auth.deep_view()) {
            Some(e) => r matches Err(m) && m@ == e,
            None => r is Ok,
        },
{
    if str_eq(auth.auth_type.as_str(), "script") {
        match &auth.command {
            None => {
                let mut m = chars_of("preset '");
                push_str(&mut m, preset);
                push_str(&mut m, "' uses script auth but has no 'command'");
                return Err(string_of(&m));
            },
            Some(c) => {
                match validate_script_path(preset, c.as_str()) {
                    Err(e) => return Err(e),
                    Ok(()) => {},
                }
            },
        }
    }
    match &auth.env {
        Some(env) => {
            if blank_key(env) {
                let mut m = chars_of("preset '");
                push_str(&mut m, preset);
                push_str(&mut m, "' has an empty env var name");
                return Err(string_of(&m));
            }
        },
        None => {},
    }
    Ok(())
}

/// The first problem with preset `p`, given the names of the presets before it.
pub open spec fn preset_error(p: PresetModel, earlier: Seq<Seq<char>>) -> Option<Seq<char>> {
    if trim(p.name, CharClass::Whitespace).len() == 0 {
        Some("preset with an empty 'name'"@)
    } else if earlier.contains(p.name) {
        Some("duplicate preset name '"@ + p.name + "'"@)
    } else if trim(p.display_name, CharClass::Whitespace).len() == 0 {
        Some("preset '"@ + p.name + "' has an empty 'display_name'"@)
    } else if trim(p.description, CharClass::Whitespace).len() == 0 {
        Some("preset '"@ + p.name + "' has an empty 'description'"@)
    } else if p.default_auth is Some && auth_error(p.name, p.default_auth.unwrap()) is Some {
        auth_error(p.name, p.default_auth.unwrap())
    } else if script_auth(p) {
        match p.base_url {
            Some(b) => if http_url(b) {
                whitespace_url_error(p)
            } else {
                Some("preset '"@ + p.name + "' base_url must be an http(s) URL, got '"@ + b + "'"@)
            },
            None => Some(
                "preset '"@ + p.name
                    + "' uses script auth but has no 'base_url' (raw-only presets need the API host)"@,
            ),
        }
    } else if !http_url(p.openapi_url) {
        Some(
            "preset '"@ + p.name + "' openapi_url must be a non-empty http(s) URL, got '"@
                + p.openapi_url + "'"@,
        )
    } else {
        whitespace_url_error(p)
    }
}

/// The spec URL may hold no whitespace.
pub open spec fn whitespace_url_error(p: PresetModel) -> Option<Seq<char>> {
    if exists|i: int| 0 <= i < p.openapi_url.len() && crate::text::spec_is_ws(#[trigger] p.openapi_url[i]) {
        Some("preset '"@ + p.name + "' openapi_url must not contain whitespace"@)
    } else {
        None
    }
}

/// The names of presets, in order.
pub open spec fn preset_names(s: Seq<PresetModel>) -> Seq<Seq<char>> {
    s.map_values(|q: PresetModel| q.name)
}

/// The first problem among `presets[i..]`.
pub open spec fn presets_error_from(presets: Seq<PresetModel>, i: int) -> Option<Seq<char>>
    decreases presets.len() - i,
{
    if i < 0 || i >= presets.len() {
        None
    } else {
        let earlier = preset_names(presets.take(i));
        match preset_error(presets[i], earlier) {
            Some(e) => Some(e),
            None => presets_error_from(presets, i + 1),
        }
    }
}

/// The first unsafe path in the scripts manifest from index `i`.
pub open spec fn scripts_error_from(scripts: Seq<Seq<char>>, i: int) -> Option<Seq<char>>
    decreases scripts.len() - i,
{
    if i < 0 || i >= scripts.len() {
        None
    } else {
        match script_path_error("scripts manifest"@, scripts[i]) {
            Some(e) => Some(e),
            None => scripts_error_from(scripts, i + 1),
        }
    }
}

pub open spec fn schema_error(v: u32) -> Option<Seq<char>> {
    if v < MIN_SCHEMA_VERSION || v > SCHEMA_VERSION {
        Some(
            "unsupported preset catalog schema_version "@ + decimal(v as nat)
                + " (this build supports "@ + decimal(MIN_SCHEMA_VERSION as nat) + "..="@
                + decimal(SCHEMA_VERSION as nat) + ")"@,
        )
    } else {
        None
    }
}

/// The first problem with a catalog, checked in the order: schema version,
/// each preset in turn, then the scripts manifest.
pub open spec fn catalog_error(c: CatalogModel) -> Option<Seq<char>> {
    match schema_error(c.schema_version) {
        Some(e) => Some(e),
        None => match presets_error_from(c.presets, 0) {
            Some(e) => Some(e),
            None => scripts_error_from(c.scripts, 0),
        },
    }
}

fn contains_ws(v: &Vec<char>) -> (b: bool)
    ensures
        b == exists|i: int| 0 <= i < v@.len() && crate::text::spec_is_ws(#[trigger] v@[i]),
{
    let mut i: usize = 0;
    while i < v.len()
        invariant
            i <= v.len(),
            forall|j: int| 0 <= j < i ==> !crate::text::spec_is_ws(#[trigger] v@[j]),
        decreases v.len() - i,
    {
        if crate::text::is_ws(v[i]) {
            return true;
        }
        i = i + 1;
    }
    false
}

fn msg2(a: &str, b: &str, c: &str) -> (r: String)
    ensures
        r@ == a@ + b@ + c@,
{
    let mut m = chars_of(a);
    push_str(&mut m, b);
    push_str(&mut m, c);
    string_of(&m)
}

fn check_preset(p: &Preset, earlier: &Vec<String>) -> (r: Result<(), String>)
    ensures
        match preset_error(p.deep_view(), earlier.deep_view()) {
            Some(e) => r matches Err(m) && m@ == e,
            None => r is Ok,
        },
{
    let name = chars_of(p.name.as_str());
    if trim_v(&name, &CharClass::Whitespace).len() == 0 {
        return Err(String::from_str("preset with an empty 'name'"));
    }
    let mut k: usize = 0;
    while k < earlier.len()
        invariant
            trim(p.name@, CharClass::Whitespace).len() != 0,
            k <= earlier.len(),
            forall|j: int| 0 <= j < k ==> earlier.deep_view()[j] != p.name@,
        decreases earlier.len() - k,
    {
        if str_eq(earlier[k].as_str(), p.name.as_str()) {
            assert(earlier.deep_view()[k as int] == p.name@);
            assert(earlier.deep_view().contains(p.name@));
            assert(trim(p.deep_view().name, CharClass::Whitespace).len() != 0);
            assert(preset_error(p.deep_view(), earlier.deep_view()) == Some(
                "duplicate preset name '"@ + p.name@ + "'"@,
            ));
            return Err(msg2("duplicate preset name '", p.name.as_str(), "'"));
        }
        k = k + 1;
    }
    assert(!earlier.deep_view().contains(p.name@));
    let dn = chars_of(p.display_name.as_str());
    if trim_v(&dn, &CharClass::Whitespace).len() == 0 {
        return Err(msg2("preset '", p.name.as_str(), "' has an empty 'display_name'"));
    }
    let desc = chars_of(p.description.as_str());
    if trim_v(&desc, &CharClass::Whitespace).len() == 0 {
        return Err(msg2("preset '", p.name.as_str(), "' has an empty 'description'"));
    }
    match &p.default_auth {
        Some(a) => {
            match validate_auth(p.name.as_str(), a) {
                Err(e) => return Err(e),
                Ok(()) => {},
            }
        },
        None => {},
    }
    if is_script_auth(p) {
        match &p.base_url {
            Some(b) => {
                if !is_http_url(b.as_str()) {
                    let mut m = chars_of("preset '");
                    push_str(&mut m, p.name.as_str());
                    push_str(&mut m, "' base_url must be an http(s) URL, got '");
                    push_str(&mut m, b.as_str());
                    push_str(&mut m, "'");
                    return Err(string_of(&m));
                }
            },
            None => {
                return Err(
                    msg2(
                        "preset '",
                        p.name.as_str(),
                        "' uses script auth but has no 'base_url' (raw-only presets need the API host)",
                    ),
                );
            },
        }
    } else if !is_http_url(p.openapi_url.as_str()) {
        let mut m = chars_of("preset '");
        push_str(&mut m, p.name.as_str());
        push_str(&mut m, "' openapi_url must be a non-empty http(s) URL, got '");
        push_str(&mut m, p.openapi_url.as_str());
        push_str(&mut m, "'");
        return Err(string_of(&m));
    }
    let url = chars_of(p.openapi_url.as_str());
    if contains_ws(&url) {
        assert(p.deep_view().openapi_url == url@);
        let ghost w = choose|i: int| 0 <= i < url@.len() && crate::text::spec_is_ws(#[trigger] url@[i]);
        assert(crate::text::spec_is_ws(p.deep_view().openapi_url[w]));
        assert(whitespace_url_error(p.deep_view()) is Some);
        return Err(msg2("preset '", p.name.as_str(), "' openapi_url must not contain whitespace"));
    }
    Ok(())
}

fn schema_message(v: u32) -> (r: String)
    ensures
        r@ == "unsupported preset catalog schema_version "@ + decimal(v as nat)
            + " (this build supports "@ + decimal(MIN_SCHEMA_VERSION as nat) + "..="@
            + decimal(SCHEMA_VERSION as nat) + ")"@,
{
    let mut m = chars_of("unsupported preset catalog schema_version ");
    let d = decimal_v(v as u128);
    crate::text::append_chars(&mut m, &d);
    push_str(&mut m, " (this build supports ");
    let lo = decimal_v(MIN_SCHEMA_VERSION as u128);
    crate::text::append_chars(&mut m, &lo);
    push_str(&mut m, "..=");
    let hi = decimal_v(SCHEMA_VERSION as u128);
    crate::text::append_chars(&mut m, &hi);
    push_str(&mut m, ")");
    string_of(&m)
}

/// Checks a catalog read from untrusted input: a supported schema version,
/// unique non-blank preset names, non-blank titles and descriptions, safe
/// auth blocks, the URL each kind of preset needs, and safe script paths.
/// Hands the catalog back when it passes; otherwise the first problem found.
pub fn validate_catalog(catalog: PresetCatalog) -> (r: Result<PresetCatalog, String>)
    ensures
        match catalog_error(catalog.deep_view()) {
            Some(e) => r matches Err(m) && m@ == e,
            None => r matches Ok(c) && c.deep_view() == catalog.deep_view(),
        },
{
    if catalog.schema_version < MIN_SCHEMA_VERSION || catalog.schema_version > SCHEMA_VERSION {
        return Err(schema_message(catalog.schema_version));
    }
    let ghost pm = catalog.presets.deep_view();
    let mut seen: Vec<String> = Vec::new();
    let mut i: usize = 0;
    assert(seen.deep_view() =~= preset_names(pm.take(0)));
    while i < catalog.presets.len()
        invariant
            schema_error(catalog.schema_version) is None,
            pm == catalog.presets.deep_view(),
            i <= catalog.presets.len(),
            seen.deep_view() == preset_names(pm.take(i as int)),
            presets_error_from(pm, 0) == presets_error_from(pm, i as int),
        decreases catalog.presets.len() - i,
    {
        let p = &catalog.presets[i];
        assert(p.deep_view() == pm[i as int]);
        match check_preset(p, &seen) {
            Err(e) => {
                assert(presets_error_from(pm, i as int) == preset_error(pm[i as int], preset_names(pm.take(i as int))));
                assert(catalog_error(catalog.deep_view()) == presets_error_from(pm, 0));
                return Err(e);
            },
            Ok(()) => {},
        }
        let ghost before = seen.deep_view();
        seen.push(p.name.clone());
        assert(seen.deep_view() =~= before.push(p.name@));
        assert(preset_names(pm.take(i + 1)) =~= preset_names(pm.take(i as int)).push(pm[i as int].name));
        i = i + 1;
    }
    let ghost sm = catalog.scripts.deep_view();
    let mut j: usize = 0;
    while j < catalog.scripts.len()
        invariant
            schema_error(catalog.schema_version) is None,
            presets_error_from(catalog.presets.deep_view(), 0) is None,
            sm == catalog.scripts.deep_view(),
            j <= catalog.scripts.len(),
            scripts_error_from(sm, 0) == scripts_error_from(sm, j as int),
        decreases catalog.scripts.len() - j,
    {
        assert(sm[j as int] == catalog.scripts@[j as int]@);
        match validate_script_path("scripts manifest", catalog.scripts[j].as_str()) {
            Err(e) => return Err(e),
            Ok(()) => {},
        }
        j = j + 1;
    }
    Ok(catalog)
}

/// An empty catalog, in effect before the first successful fetch.
pub fn empty_catalog() -> (c: PresetCatalog)
    ensures
        c.schema_version == SCHEMA_VERSION,
        c.scripts@.len() == 0,
        c.presets@.len() == 0,
{
    PresetCatalog { schema_version: SCHEMA_VERSION, scripts: Vec::new(), presets: Vec::new() }
}

// ---------------------------------------------------------------------------
// Lookups
// ---------------------------------------------------------------------------

/// The first preset named `n`.
pub open spec fn first_named(s: Seq<PresetModel>, n: Seq<char>) -> Option<PresetModel>
    decreases s.len(),
{
    if s.len() == 0 {
        None
    } else if s[0].name == n {
        Some(s[0])
    } else {
        first_named(s.drop_first(), n)
    }
}

fn find_index(presets: &Vec<Preset>, name: &str) -> (r: Option<usize>)
    ensures
        match r {
            Some(i) => i < presets.len() && first_named(presets.deep_view(), name@) == Some(
                presets.deep_view()[i as int],
            ),
            None => first_named(presets.deep_view(), name@) is None,
        },
{
    let ghost pm = presets.deep_view();
    let mut i: usize = 0;
    assert(pm.skip(0) =~= pm);
    while i < presets.len()
        invariant
            pm == presets.deep_view(),
            i <= presets.len(),
            first_named(pm, name@) == first_named(pm.skip(i as int), name@),
        decreases presets.len() - i,
    {
        assert(pm.skip(i as int).drop_first() =~= pm.skip(i + 1));
        assert(pm[i as int] == presets@[i as int].deep_view());
        if str_eq(presets[i].name.as_str(), name) {
            return Some(i);
        }
        i = i + 1;
    }
    None
}

/// Looks a preset up by name in an explicit catalog.
pub fn find_preset_in(catalog: &PresetCatalog, name: &str) -> (r: Option<Preset>)
    ensures
        r.deep_view() == first_named(catalog.deep_view().presets, name@),
{
    match find_index(&catalog.presets, name) {
        Some(i) => Some(clone_preset(&catalog.presets[i])),
        None => None,
    }
}

/// Name to display-name, later presets winning on a repeated name.
pub open spec fn titles(s: Seq<PresetModel>) -> Seq<(Seq<char>, Seq<char>)>
    decreases s.len(),
{
    if s.len() == 0 {
        Seq::empty()
    } else {
        insert_sorted(titles(s.drop_last()), s.last().name, s.last().display_name)
    }
}

/// Preset names mapped to their display names, in name order.
pub fn preset_list_in(catalog: &PresetCatalog) -> (r: OrdMap<String>)
    ensures
        r@ == titles(catalog.deep_view().presets),
{
    let ghost pm = catalog.presets.deep_view();
    let mut m: OrdMap<String> = OrdMap::new();
    let mut i: usize = 0;
    while i < catalog.presets.len()
        invariant
            pm == catalog.presets.deep_view(),
            i <= catalog.presets.len(),
            m@ == titles(pm.take(i as int)),
        decreases catalog.presets.len() - i,
    {
        assert(pm.take(i + 1).drop_last() =~= pm.take(i as int));
        assert(pm[i as int] == catalog.presets@[i as int].deep_view());
        m.insert(catalog.presets[i].name.clone(), catalog.presets[i].display_name.clone());
        i = i + 1;
    }
    assert(pm.take(catalog.presets.len() as int) =~= pm);
    m
}

// ---------------------------------------------------------------------------
// Sorted string sets
// ---------------------------------------------------------------------------

/// The keys of an entry sequence.
pub open spec fn keys_of<V>(s: Seq<(Seq<char>, V)>) -> Seq<Seq<char>> {
    s.map_values(|e: (Seq<char>, V)| e.0)
}

/// The distinct items, sorted.
pub open spec fn item_set(items: Seq<Seq<char>>) -> Seq<(Seq<char>, bool)>
    decreases items.len(),
{
    if items.len() == 0 {
        Seq::empty()
    } else {
        insert_sorted(item_set(items.drop_last()), items.last(), true)
    }
}

fn add_items(set: &mut OrdMap<bool>, items: &Vec<String>)
    ensures
        final(set)@ == item_set_from(old(set)@, items.deep_view()),
{
    let ghost start = set@;
    let ghost iv = items.deep_view();
    let mut i: usize = 0;
    while i < items.len()
        invariant
            iv == items.deep_view(),
            i <= items.len(),
            set@ == item_set_from(start, iv.take(i as int)),
        decreases items.len() - i,
    {
        assert(iv.take(i + 1).drop_last() =~= iv.take(i as int));
        assert(iv[i as int] == items@[i as int]@);
        set.insert(items[i].clone(), true);
        i = i + 1;
    }
    assert(iv.take(items.len() as int) =~= iv);
}

/// `acc` with the items added.
pub open spec fn item_set_from(acc: Seq<(Seq<char>, bool)>, items: Seq<Seq<char>>) -> Seq<
    (Seq<char>, bool),
>
    decreases items.len(),
{
    if items.len() == 0 {
        acc
    } else {
        insert_sorted(item_set_from(acc, items.drop_last()), items.last(), true)
    }
}

fn set_keys(set: &OrdMap<bool>) -> (r: Vec<String>)
    ensures
        r.deep_view() == keys_of(set@),
{
    let mut r: Vec<String> = Vec::new();
    let n = set.len();
    let mut i: usize = 0;
    while i < n
        invariant
            n == set@.len(),
            i <= n,
            r.deep_view() == keys_of(set@.take(i as int)),
        decreases n - i,
    {
        let ghost before = r.deep_view();
        r.push(set.key_at(i).clone());
        assert(r.deep_view() =~= before.push(set@[i as int].0));
        assert(keys_of(set@.take(i + 1)) =~= keys_of(set@.take(i as int)).push(set@[i as int].0));
        i = i + 1;
    }
    assert(set@.take(n as int) =~= set@);
    r
}

// ---------------------------------------------------------------------------
// Merging a local override over a base catalog
// ---------------------------------------------------------------------------

/// Base presets in order, each replaced by the first overlay preset of the
/// same name when there is one.
pub open spec fn replaced(base: Seq<PresetModel>, overlay: Seq<PresetModel>) -> Seq<PresetModel>
    decreases base.len(),
{
    if base.len() == 0 {
        Seq::empty()
    } else {
        replaced(base.drop_last(), overlay).push(
            match first_named(overlay, base.last().name) {
                Some(o) => o,
                None => base.last(),
            },
        )
    }
}

/// Overlay presets, in order, whose names the base does not use.
pub open spec fn appended(base: Seq<PresetModel>, overlay: Seq<PresetModel>) -> Seq<PresetModel>
    decreases overlay.len(),
{
    if overlay.len() == 0 {
        Seq::empty()
    } else if preset_names(base).contains(overlay.last().name) {
        appended(base, overlay.drop_last())
    } else {
        appended(base, overlay.drop_last()).push(overlay.last())
    }
}

/// The merge of an override over a base catalog: base order kept with
/// same-named presets replaced wholesale, new names appended in overlay
/// order, script manifests unioned and sorted, the higher schema version.
pub open spec fn merged(base: CatalogModel, overlay: CatalogModel) -> CatalogModel {
    CatalogModel {
        schema_version: if base.schema_version >= overlay.schema_version {
            base.schema_version
        } else {
            overlay.schema_version
        },
        scripts: keys_of(item_set(base.scripts + overlay.scripts)),
        presets: replaced(base.presets, overlay.presets) + appended(base.presets, overlay.presets),
    }
}

proof fn lemma_item_set_from_concat(a: Seq<Seq<char>>, b: Seq<Seq<char>>)
    ensures
        item_set_from(item_set(a), b) == item_set(a + b),
    decreases b.len(),
{
    if b.len() == 0 {
        assert(a + b =~= a);
    } else {
        lemma_item_set_from_concat(a, b.drop_last());
        assert((a + b).drop_last() =~= a + b.drop_last());
        assert((a + b).last() == b.last());
    }
}

proof fn lemma_item_set_from_empty(a: Seq<Seq<char>>)
    ensures
        item_set_from(Seq::empty(), a) == item_set(a),
    decreases a.len(),
{
    if a.len() > 0 {
        lemma_item_set_from_empty(a.drop_last());
    }
}

/// Merges a local-override catalog on top of a base catalog.
pub fn merge_catalog(base: &PresetCatalog, overlay: &PresetCatalog) -> (r: PresetCatalog)
    ensures
        r.deep_view() == merged(base.deep_view(), overlay.deep_view()),
{
    let ghost bm = base.presets.deep_view();
    let ghost om = overlay.presets.deep_view();
    let mut presets: Vec<Preset> = Vec::new();
    let mut i: usize = 0;
    while i < base.presets.len()
        invariant
            bm == base.presets.deep_view(),
            om == overlay.presets.deep_view(),
            i <= base.presets.len(),
            presets.deep_view() == replaced(bm.take(i as int), om),
        decreases base.presets.len() - i,
    {
        assert(bm.take(i + 1).drop_last() =~= bm.take(i as int));
        assert(bm[i as int] == base.presets@[i as int].deep_view());
        let p = &base.presets[i];
        let ghost before = presets.deep_view();
        let chosen = match find_index(&overlay.presets, p.name.as_str()) {
            Some(j) => clone_preset(&overlay.presets[j]),
            None => clone_preset(p),
        };
        presets.push(chosen);
        assert(presets.deep_view() =~= before.push(chosen.deep_view()));
        i = i + 1;
    }
    assert(bm.take(base.presets.len() as int) =~= bm);
    let ghost first_part = presets.deep_view();
    let mut j: usize = 0;
    while j < overlay.presets.len()
        invariant
            bm == base.presets.deep_view(),
            om == overlay.presets.deep_view(),
            first_part == replaced(bm, om),
            j <= overlay.presets.len(),
            presets.deep_view() == first_part + appended(bm, om.take(j as int)),
        decreases overlay.presets.len() - j,
    {
        assert(om.take(j + 1).drop_last() =~= om.take(j as int));
        assert(om[j as int] == overlay.presets@[j as int].deep_view());
        let o = &overlay.presets[j];
        let in_base = find_index(&base.presets, o.name.as_str());
        proof {
            lemma_first_named_in_names(bm, o.name@);
        }
        if in_base.is_none() {
            let ghost before = presets.deep_view();
            let c = clone_preset(o);
            presets.push(c);
            assert(presets.deep_view() =~= before.push(c.deep_view()));
            assert(first_part + appended(bm, om.take(j + 1)) =~= (first_part + appended(
                bm,
                om.take(j as int),
            )).push(om[j as int]));
        }
        j = j + 1;
    }
    assert(om.take(overlay.presets.len() as int) =~= om);
    let mut set: OrdMap<bool> = OrdMap::new();
    add_items(&mut set, &base.scripts);
    proof {
        lemma_item_set_from_empty(base.scripts.deep_view());
    }
    add_items(&mut set, &overlay.scripts);
    proof {
        lemma_item_set_from_concat(base.scripts.deep_view(), overlay.scripts.deep_view());
    }
    let scripts = set_keys(&set);
    let schema_version = if base.schema_version >= overlay.schema_version {
        base.schema_version
    } else {
        overlay.schema_version
    };
    PresetCatalog { schema_version, scripts, presets }
}

proof fn lemma_first_named_in_names(s: Seq<PresetModel>, n: Seq<char>)
    ensures
        (first_named(s, n) is Some) == preset_names(s).contains(n),
    decreases s.len(),
{
    if s.len() > 0 {
        lemma_first_named_in_names(s.drop_first(), n);
        if s[0].name == n {
            assert(preset_names(s)[0] == n);
        } else {
            assert(preset_names(s.drop_first()) =~= preset_names(s).drop_first());
            if preset_names(s).contains(n) {
                let k = choose|k: int| 0 <= k < preset_names(s).len() && preset_names(s)[k] == n;
                assert(k > 0);
                assert(preset_names(s.drop_first())[k - 1] == n);
            }
            if preset_names(s.drop_first()).contains(n) {
                let k = choose|k: int|
                    0 <= k < preset_names(s.drop_first()).len() && preset_names(s.drop_first())[k]
                        == n;
                assert(preset_names(s)[k + 1] == n);
            }
        }
    }
}

// ---------------------------------------------------------------------------
// Script files a catalog needs
// ---------------------------------------------------------------------------

/// The command of a script-auth preset that names one.
pub open spec fn script_command_of(p: PresetModel) -> Option<Seq<char>> {
    match p.default_auth {
        Some(a) => if a.auth_type == "script"@ {
            a.command
        } else {
            None
        },
        None => None,
    }
}

/// The commands of the script-auth presets, in order.
pub open spec fn script_commands(s: Seq<PresetModel>) -> Seq<Seq<char>>
    decreases s.len(),
{
    if s.len() == 0 {
        Seq::empty()
    } else {
        let rest = script_commands(s.drop_last());
        match script_command_of(s.last()) {
            Some(c) => rest.push(c),
            None => rest,
        }
    }
}

/// Every signing script a catalog needs on disk: the commands of its
/// script-auth presets and its `scripts:` manifest, distinct and sorted.
pub fn required_script_paths(catalog: &PresetCatalog) -> (r: Vec<String>)
    ensures
        r.deep_view() == keys_of(
            item_set(script_commands(catalog.deep_view().presets) + catalog.deep_view().scripts),
        ),
{
    let ghost pm = catalog.presets.deep_view();
    let mut commands: Vec<String> = Vec::new();
    let mut i: usize = 0;
    while i < catalog.presets.len()
        invariant
            pm == catalog.presets.deep_view(),
            i <= catalog.presets.len(),
            commands.deep_view() == script_commands(pm.take(i as int)),
        decreases catalog.presets.len() - i,
    {
        assert(pm.take(i + 1).drop_last() =~= pm.take(i as int));
        assert(pm[i as int] == catalog.presets@[i as int].deep_view());
        match &catalog.presets[i].default_auth {
            Some(a) => {
                if str_eq(a.auth_type.as_str(), "script") {
                    match &a.command {
                        Some(c) => {
                            let ghost before = commands.deep_view();
                            commands.push(c.clone());
                            assert(commands.deep_view() =~= before.push(c@));
                        },
                        None => {},
                    }
                }
            },
            None => {},
        }
        i = i + 1;
    }
    assert(pm.take(catalog.presets.len() as int) =~= pm);
    let mut set: OrdMap<bool> = OrdMap::new();
    add_items(&mut set, &commands);
    proof {
        lemma_item_set_from_empty(commands.deep_view());
    }
    add_items(&mut set, &catalog.scripts);
    proof {
        lemma_item_set_from_concat(commands.deep_view(), catalog.scripts.deep_view());
    }
    set_keys(&set)
}

// ---------------------------------------------------------------------------
// Laws of merging and validation
// ---------------------------------------------------------------------------

/// No name occurs twice.
pub open spec fn distinct(s: Seq<Seq<char>>) -> bool {
    forall|i: int, j: int| 0 <= i < j < s.len() ==> s[i] != s[j]
}

proof fn lemma_first_named_found(s: Seq<PresetModel>, n: Seq<char>)
    ensures
        first_named(s, n) matches Some(x) ==> x.name == n && s.contains(x),
    decreases s.len(),
{
    if s.len() > 0 && s[0].name != n {
        lemma_first_named_found(s.drop_first(), n);
        if first_named(s.drop_first(), n) is Some {
            let x = first_named(s.drop_first(), n).unwrap();
            let k = choose|k: int| 0 <= k < s.drop_first().len() && s.drop_first()[k] == x;
            assert(s[k + 1] == x);
        }
    } else if s.len() > 0 {
        assert(s[0] == s[0]);
    }
}

proof fn lemma_first_named_unique(s: Seq<PresetModel>, k: int)
    requires
        distinct(preset_names(s)),
        0 <= k < s.len(),
    ensures
        first_named(s, s[k].name) == Some(s[k]),
    decreases s.len(),
{
    if k > 0 {
        assert(preset_names(s)[0] != preset_names(s)[k]);
        let t = s.drop_first();
        assert(preset_names(t) =~= preset_names(s).drop_first());
        assert(t[k - 1] == s[k]);
        lemma_first_named_unique(t, k - 1);
    }
}

proof fn lemma_replaced(base: Seq<PresetModel>, overlay: Seq<PresetModel>)
    ensures
        replaced(base, overlay).len() == base.len(),
        forall|i: int|
            0 <= i < base.len() ==> (#[trigger] replaced(base, overlay)[i]) == (match first_named(
                overlay,
                base[i].name,
            ) {
                Some(o) => o,
                None => base[i],
            }),
        preset_names(replaced(base, overlay)) == preset_names(base),
    decreases base.len(),
{
    if base.len() > 0 {
        lemma_replaced(base.drop_last(), overlay);
        lemma_first_named_found(overlay, base.last().name);
        let r = replaced(base, overlay);
        assert forall|i: int| 0 <= i < base.len() implies (#[trigger] r[i]) == (match first_named(
            overlay,
            base[i].name,
        ) {
            Some(o) => o,
            None => base[i],
        }) by {
            if i < base.len() - 1 {
                assert(r[i] == replaced(base.drop_last(), overlay)[i]);
                assert(base.drop_last()[i] == base[i]);
            }
        }
        assert(preset_names(r) =~= preset_names(base)) by {
            assert forall|i: int| 0 <= i < base.len() implies preset_names(r)[i] == preset_names(
                base,
            )[i] by {
                lemma_first_named_found(overlay, base[i].name);
            }
        }
    } else {
        assert(preset_names(replaced(base, overlay)) =~= preset_names(base));
    }
}

proof fn lemma_appended(base: Seq<PresetModel>, overlay: Seq<PresetModel>)
    ensures
        forall|k: int|
            0 <= k < appended(base, overlay).len() ==> overlay.contains(
                #[trigger] appended(base, overlay)[k],
            ) && !preset_names(base).contains(appended(base, overlay)[k].name),
        forall|k: int|
            0 <= k < overlay.len() && !preset_names(base).contains(#[trigger] overlay[k].name)
                ==> appended(base, overlay).contains(overlay[k]),
        distinct(preset_names(overlay)) ==> distinct(preset_names(appended(base, overlay))),
    decreases overlay.len(),
{
    if overlay.len() > 0 {
        let od = overlay.drop_last();
        let ad = appended(base, od);
        lemma_appended(base, od);
        let a = appended(base, overlay);
        assert forall|k: int| 0 <= k < a.len() implies overlay.contains(#[trigger] a[k])
            && !preset_names(base).contains(a[k].name) by {
            if k < ad.len() {
                assert(a[k] == ad[k]);
                let w = choose|w: int| 0 <= w < od.len() && od[w] == ad[k];
                assert(overlay[w] == od[w]);
            } else {
                assert(a[k] == overlay.last());
                assert(overlay[overlay.len() - 1] == overlay.last());
            }
        }
        assert forall|k: int|
            0 <= k < overlay.len() && !preset_names(base).contains(
                #[trigger] overlay[k].name,
            ) implies a.contains(overlay[k]) by {
            if k < overlay.len() - 1 {
                assert(od[k] == overlay[k]);
                let w = choose|w: int| 0 <= w < ad.len() && ad[w] == od[k];
                assert(a[w] == ad[w]);
            } else {
                assert(a[a.len() - 1] == overlay[k]);
            }
        }
        if distinct(preset_names(overlay)) {
            assert(distinct(preset_names(od))) by {
                assert forall|i: int, j: int| 0 <= i < j < preset_names(od).len() implies preset_names(
                    od,
                )[i] != preset_names(od)[j] by {
                    assert(preset_names(od)[i] == preset_names(overlay)[i]);
                    assert(preset_names(od)[j] == preset_names(overlay)[j]);
                }
            }
            if !preset_names(base).contains(overlay.last().name) {
                assert forall|i: int, j: int|
                    0 <= i < j < preset_names(a).len() implies preset_names(a)[i] != preset_names(
                        a,
                    )[j] by {
                    if j == a.len() - 1 {
                        assert(a[i] == ad[i]);
                        let w = choose|w: int| 0 <= w < od.len() && od[w] == ad[i];
                        assert(preset_names(overlay)[w] != preset_names(overlay)[overlay.len()
                            - 1]);
                    } else {
                        assert(a[i] == ad[i]);
                        assert(a[j] == ad[j]);
                        assert(preset_names(ad)[i] != preset_names(ad)[j]);
                    }
                }
            }
        }
    }
}

/// What merging a local override promises: base order is kept and each base
/// preset keeps its place, replaced wholesale by the override's preset of the
/// same name when there is one; every override preset ends up in the result;
/// and with unique names on both sides, names stay unique.
pub proof fn law_merge_override_replaces_and_appends(base: CatalogModel, overlay: CatalogModel)
    requires
        distinct(preset_names(base.presets)),
        distinct(preset_names(overlay.presets)),
    ensures
        ({
            let m = merged(base, overlay).presets;
            &&& m.len() >= base.presets.len()
            &&& forall|i: int|
                0 <= i < base.presets.len() ==> (#[trigger] m[i]).name == base.presets[i].name
            &&& forall|i: int|
                0 <= i < base.presets.len() && !preset_names(overlay.presets).contains(
                    base.presets[i].name,
                ) ==> #[trigger] m[i] == base.presets[i]
            &&& forall|k: int|
                0 <= k < overlay.presets.len() ==> m.contains(#[trigger] overlay.presets[k])
            &&& distinct(preset_names(m))
        }),
{
    let b = base.presets;
    let o = overlay.presets;
    let r = replaced(b, o);
    let a = appended(b, o);
    let m = r + a;
    lemma_replaced(b, o);
    lemma_appended(b, o);
    assert forall|i: int| 0 <= i < b.len() implies (#[trigger] m[i]).name == b[i].name by {
        assert(m[i] == r[i]);
        assert(preset_names(r)[i] == preset_names(b)[i]);
    }
    assert forall|i: int|
        0 <= i < b.len() && !preset_names(o).contains(b[i].name) implies #[trigger] m[i]
        == b[i] by {
        assert(m[i] == r[i]);
        lemma_first_named_in_names(o, b[i].name);
    }
    assert forall|k: int| 0 <= k < o.len() implies m.contains(#[trigger] o[k]) by {
        if preset_names(b).contains(o[k].name) {
            let i = choose|i: int| 0 <= i < preset_names(b).len() && preset_names(b)[i] == o[k].name;
            lemma_first_named_unique(o, k);
            assert(m[i] == r[i]);
        } else {
            let w = choose|w: int| 0 <= w < a.len() && a[w] == o[k];
            assert(m[r.len() + w] == a[w]);
        }
    }
    assert forall|i: int, j: int| 0 <= i < j < preset_names(m).len() implies preset_names(m)[i]
        != preset_names(m)[j] by {
        if j < r.len() {
            assert(preset_names(m)[i] == preset_names(r)[i]);
            assert(preset_names(m)[j] == preset_names(r)[j]);
        } else if i >= r.len() {
            assert(m[i] == a[i - r.len()]);
            assert(m[j] == a[j - r.len()]);
            assert(preset_names(a)[i - r.len()] != preset_names(a)[j - r.len()]);
        } else {
            assert(m[i] == r[i]);
            assert(m[j] == a[j - r.len()]);
            assert(preset_names(r)[i] == preset_names(b)[i]);
            assert(!preset_names(b).contains(a[j - r.len()].name));
        }
    }
}

/// Merging an override with no presets and no scripts leaves the base
/// presets as they are.
pub proof fn law_merge_empty_override(base: CatalogModel, overlay: CatalogModel)
    requires
        overlay.presets.len() == 0,
    ensures
        merged(base, overlay).presets == base.presets,
{
    lemma_replaced(base.presets, overlay.presets);
    assert(appended(base.presets, overlay.presets) =~= Seq::<PresetModel>::empty());
    assert forall|i: int| 0 <= i < base.presets.len() implies replaced(
        base.presets,
        overlay.presets,
    )[i] == base.presets[i] by {
    }
    assert(replaced(base.presets, overlay.presets) + appended(base.presets, overlay.presets)
        =~= base.presets);
}

proof fn lemma_presets_error_from_distinct(ps: Seq<PresetModel>, i: int)
    requires
        0 <= i <= ps.len(),
        distinct(preset_names(ps.take(i))),
        presets_error_from(ps, i) is None,
    ensures
        distinct(preset_names(ps)),
    decreases ps.len() - i,
{
    if i < ps.len() {
        let earlier = preset_names(ps.take(i));
        assert(!earlier.contains(ps[i].name));
        let nx = preset_names(ps.take(i + 1));
        assert(nx =~= earlier.push(ps[i].name));
        assert forall|a: int, b: int| 0 <= a < b < nx.len() implies #[trigger] nx[a] != #[trigger] nx[b] by {
            if b == i {
                assert(earlier[a] == nx[a]);
            } else {
                assert(earlier[a] == nx[a]);
                assert(earlier[b] == nx[b]);
            }
        }
        lemma_presets_error_from_distinct(ps, i + 1);
    } else {
        assert(ps.take(i) =~= ps);
    }
}

proof fn lemma_scripts_error_from_safe(sc: Seq<Seq<char>>, i: int)
    requires
        0 <= i <= sc.len(),
        scripts_error_from(sc, i) is None,
    ensures
        forall|k: int| i <= k < sc.len() ==> script_path_error("scripts manifest"@, #[trigger] sc[k]) is None,
    decreases sc.len() - i,
{
    if i < sc.len() {
        lemma_scripts_error_from_safe(sc, i + 1);
    }
}

/// A catalog that passes validation has a supported schema version, unique
/// preset names, and only safe relative paths in its scripts manifest.
pub proof fn law_validated_catalog_is_safe(c: CatalogModel)
    requires
        catalog_error(c) is None,
    ensures
        MIN_SCHEMA_VERSION <= c.schema_version <= SCHEMA_VERSION,
        distinct(preset_names(c.presets)),
        forall|k: int|
            0 <= k < c.scripts.len() ==> !escaping_path(#[trigger] c.scripts[k]) && trim(
                c.scripts[k],
                CharClass::Whitespace,
            ).len() > 0,
{
    assert(preset_names(c.presets.take(0)) =~= Seq::<Seq<char>>::empty());
    lemma_presets_error_from_distinct(c.presets, 0);
    lemma_scripts_error_from_safe(c.scripts, 0);
}

/// A script path an update may write: not blank, relative, without `..`.
pub open spec fn safe_script_path(s: Seq<char>) -> bool {
    trim(s, CharClass::Whitespace).len() > 0 && !escaping_path(s)
}

proof fn lemma_presets_each_valid(ps: Seq<PresetModel>, i: int)
    requires
        0 <= i <= ps.len(),
        presets_error_from(ps, i) is None,
    ensures
        forall|k: int|
            i <= k < ps.len() ==> preset_error(#[trigger] ps[k], preset_names(ps.take(k))) is None,
    decreases ps.len() - i,
{
    if i < ps.len() {
        lemma_presets_each_valid(ps, i + 1);
    }
}

proof fn lemma_script_commands_safe(ps: Seq<PresetModel>)
    requires
        forall|k: int|
            0 <= k < ps.len() && #[trigger] script_command_of(ps[k]) is Some ==> safe_script_path(
                script_command_of(ps[k]).unwrap(),
            ),
    ensures
        forall|j: int|
            0 <= j < script_commands(ps).len() ==> safe_script_path(#[trigger] script_commands(ps)[j]),
    decreases ps.len(),
{
    if ps.len() > 0 {
        let d = ps.drop_last();
        assert forall|k: int| 0 <= k < d.len() && #[trigger] script_command_of(d[k]) is Some implies safe_script_path(
            script_command_of(d[k]).unwrap(),
        ) by {
            assert(d[k] == ps[k]);
        }
        lemma_script_commands_safe(d);
        let rest = script_commands(d);
        let all = script_commands(ps);
        assert(ps[ps.len() - 1] == ps.last());
        match script_command_of(ps.last()) {
            Some(c) => {
                assert(all == rest.push(c));
                assert(safe_script_path(c));
                assert forall|j: int| 0 <= j < all.len() implies safe_script_path(#[trigger] all[j]) by {
                    if j < rest.len() {
                        assert(all[j] == rest[j]);
                    }
                }
            },
            None => {
                assert(all == rest);
            },
        }
    }
}

proof fn lemma_item_set_keys(items: Seq<Seq<char>>)
    ensures
        forall|k: int| 0 <= k < item_set(items).len() ==> items.contains(#[trigger] item_set(items)[k].0),
    decreases items.len(),
{
    if items.len() > 0 {
        let d = items.drop_last();
        lemma_item_set_keys(d);
        lemma_insert_sorted_keys(item_set(d), items.last(), true);
        let r = item_set(items);
        assert forall|k: int| 0 <= k < r.len() implies items.contains(#[trigger] r[k].0) by {
            if r[k].0 != items.last() {
                assert(has_key(item_set(d), r[k].0));
                let w = choose|w: int| 0 <= w < item_set(d).len() && #[trigger] item_set(d)[w].0 == r[k].0;
                assert(d.contains(item_set(d)[w].0));
                let x = choose|x: int| 0 <= x < d.len() && d[x] == item_set(d)[w].0;
                assert(items[x] == d[x]);
            } else {
                assert(items[items.len() - 1] == items.last());
            }
        }
    }
}

/// What validation guarantees of one preset: non-blank name, title and
/// description; a script-auth preset has a safe script command and an
/// http(s) base URL; any other has an http(s) spec URL; no spec URL holds
/// whitespace.
pub open spec fn preset_well_formed(p: PresetModel) -> bool {
    &&& trim(p.name, CharClass::Whitespace).len() > 0
    &&& trim(p.display_name, CharClass::Whitespace).len() > 0
    &&& trim(p.description, CharClass::Whitespace).len() > 0
    &&& script_auth(p) ==> script_command_of(p) is Some && safe_script_path(
        script_command_of(p).unwrap(),
    ) && p.base_url is Some && http_url(p.base_url.unwrap())
    &&& !script_auth(p) ==> http_url(p.openapi_url)
    &&& forall|i: int| 0 <= i < p.openapi_url.len() ==> !crate::text::spec_is_ws(#[trigger] p.openapi_url[i])
}

/// Every preset of a catalog that passes validation is well formed: see
/// `preset_well_formed`.
pub proof fn law_validated_presets_well_formed(c: CatalogModel)
    requires
        catalog_error(c) is None,
    ensures
        forall|k: int| 0 <= k < c.presets.len() ==> preset_well_formed(#[trigger] c.presets[k]),
{
    lemma_presets_each_valid(c.presets, 0);
    assert forall|k: int| 0 <= k < c.presets.len() implies preset_well_formed(#[trigger] c.presets[k]) by {
        let p = c.presets[k];
        assert(preset_error(p, preset_names(c.presets.take(k))) is None);
        if script_auth(p) {
            let a = p.default_auth.unwrap();
            assert(auth_error(p.name, a) is None);
        }
    }
}

/// Every script file an update of a validated catalog writes has a safe
/// path: not blank, relative, and without `..`, so it stays inside the cache.
pub proof fn law_staged_scripts_are_safe(c: CatalogModel)
    requires
        catalog_error(c) is None,
    ensures
        forall|k: int|
            0 <= k < keys_of(item_set(script_commands(c.presets) + c.scripts)).len()
                ==> safe_script_path(
                #[trigger] keys_of(item_set(script_commands(c.presets) + c.scripts))[k],
            ),
{
    lemma_presets_each_valid(c.presets, 0);
    assert forall|k: int| 0 <= k < c.presets.len() && #[trigger] script_command_of(c.presets[k]) is Some implies safe_script_path(
        script_command_of(c.presets[k]).unwrap(),
    ) by {
        let p = c.presets[k];
        assert(preset_error(p, preset_names(c.presets.take(k))) is None);
        let a = p.default_auth.unwrap();
        assert(auth_error(p.name, a) is None);
        assert(script_path_error(p.name, a.command.unwrap()) is None);
    }
    lemma_script_commands_safe(c.presets);
    lemma_scripts_error_from_safe(c.scripts, 0);
    let items = script_commands(c.presets) + c.scripts;
    assert forall|j: int| 0 <= j < items.len() implies safe_script_path(#[trigger] items[j]) by {
        if j >= script_commands(c.presets).len() {
            let m = j - script_commands(c.presets).len();
            assert(items[j] == c.scripts[m]);
            assert(script_path_error("scripts manifest"@, c.scripts[m]) is None);
        }
    }
    lemma_item_set_keys(items);
    let ks = keys_of(item_set(items));
    assert forall|k: int| 0 <= k < ks.len() implies safe_script_path(#[trigger] ks[k]) by {
        assert(ks[k] == item_set(items)[k].0);
        assert(items.contains(item_set(items)[k].0));
        let x = choose|x: int| 0 <= x < items.len() && items[x] == item_set(items)[k].0;
        assert(safe_script_path(items[x]));
    }
}

// ---------------------------------------------------------------------------
// Where presets come from
// ---------------------------------------------------------------------------

/// Default presets repository (raw-file base URL, no trailing slash).
pub const DEFAULT_PRESETS_REPO: &'static str = "https://raw.githubusercontent.com/samxxu/restie-presets/main";

pub open spec fn repo_not_configured_message() -> Seq<char> {
    "presets repository URL is not configured.\nPass `restie presets update --repo <raw-base-url>` or set the RESTIE_PRESETS_REPO environment variable."@
}

/// The presets repository in effect: an explicit non-blank `repo` first, then
/// a non-blank `RESTIE_PRESETS_REPO` value `env_repo`, then the built-in
/// default; each trimmed of surrounding whitespace.
pub open spec fn repo_base_of(repo: Option<Seq<char>>, env_repo: Option<Seq<char>>) -> Result<
    Seq<char>,
    Seq<char>,
> {
    if repo is Some && trim(repo.unwrap(), CharClass::Whitespace).len() > 0 {
        Ok(trim(repo.unwrap(), CharClass::Whitespace))
    } else if env_repo is Some && trim(env_repo.unwrap(), CharClass::Whitespace).len() > 0 {
        Ok(trim(env_repo.unwrap(), CharClass::Whitespace))
    } else if trim(DEFAULT_PRESETS_REPO@, CharClass::Whitespace).len() > 0 {
        Ok(trim(DEFAULT_PRESETS_REPO@, CharClass::Whitespace))
    } else {
        Err(repo_not_configured_message())
    }
}

fn trimmed_nonblank(s: &str) -> (r: Option<String>)
    ensures
        match r {
            Some(t) => trim(s@, CharClass::Whitespace).len() > 0 && t@ == trim(
                s@,
                CharClass::Whitespace,
            ),
            None => trim(s@, CharClass::Whitespace).len() == 0,
        },
{
    let v = chars_of(s);
    let t = trim_v(&v, &CharClass::Whitespace);
    if t.len() > 0 {
        Some(string_of(&t))
    } else {
        None
    }
}

/// Resolves the presets repository base URL from `--repo` and the
/// `RESTIE_PRESETS_REPO` environment variable's value.
pub fn resolve_repo_base(repo: Option<&str>, env_repo: Option<&str>) -> (r: Result<String, String>)
    ensures
        match repo_base_of(repo.deep_view(), env_repo.deep_view()) {
            Ok(b) => r matches Ok(s) && s@ == b,
            Err(e) => r matches Err(s) && s@ == e,
        },
{
    match repo {
        Some(t) => match trimmed_nonblank(t) {
            Some(x) => return Ok(x),
            None => {},
        },
        None => {},
    }
    match env_repo {
        Some(t) => match trimmed_nonblank(t) {
            Some(x) => return Ok(x),
            None => {},
        },
        None => {},
    }
    match trimmed_nonblank(DEFAULT_PRESETS_REPO) {
        Some(x) => Ok(x),
        None => Err(
            String::from_str(
                "presets repository URL is not configured.\nPass `restie presets update --repo <raw-base-url>` or set the RESTIE_PRESETS_REPO environment variable.",
            ),
        ),
    }
}

/// The repository an update would use right now, given the value of
/// `RESTIE_PRESETS_REPO` (if set).
pub fn default_repo_base(env_repo: Option<&str>) -> (r: Result<String, String>)
    ensures
        match repo_base_of(None, env_repo.deep_view()) {
            Ok(b) => r matches Ok(s) && s@ == b,
            Err(e) => r matches Err(s) && s@ == e,
        },
{
    resolve_repo_base(None, env_repo)
}

/// An explicit non-blank repository always wins, and whatever is chosen is
/// free of surrounding whitespace.
pub proof fn law_repo_base_precedence(repo: Option<Seq<char>>, env_repo: Option<Seq<char>>)
    ensures
        repo is Some && trim(repo.unwrap(), CharClass::Whitespace).len() > 0 ==> repo_base_of(
            repo,
            env_repo,
        ) == Ok::<Seq<char>, Seq<char>>(trim(repo.unwrap(), CharClass::Whitespace)),
        (repo is None || trim(repo.unwrap(), CharClass::Whitespace).len() == 0) && env_repo is Some
            && trim(env_repo.unwrap(), CharClass::Whitespace).len() > 0 ==> repo_base_of(
            repo,
            env_repo,
        ) == Ok::<Seq<char>, Seq<char>>(trim(env_repo.unwrap(), CharClass::Whitespace)),
{
}

/// The presets cache directory inside the config directory.
pub fn cache_dir(config_dir: &str) -> (r: String)
    ensures
        r@ == crate::text::join_path(config_dir@, "presets"@),
{
    crate::text::join_path_v(config_dir, "presets")
}

/// The fetched catalog: `presets/catalog.yaml` in the config directory.
pub fn cache_catalog_path(config_dir: &str) -> (r: String)
    ensures
        r@ == crate::text::join_path(crate::text::join_path(config_dir@, "presets"@), "catalog.yaml"@),
{
    let d = cache_dir(config_dir);
    crate::text::join_path_v(d.as_str(), "catalog.yaml")
}

/// The hand-written override: `presets/catalog.local.yaml` in the config
/// directory, a different file from the fetched catalog.
pub fn local_override_path(config_dir: &str) -> (r: String)
    ensures
        r@ == crate::text::join_path(
            crate::text::join_path(config_dir@, "presets"@),
            "catalog.local.yaml"@,
        ),
{
    let d = cache_dir(config_dir);
    crate::text::join_path_v(d.as_str(), "catalog.local.yaml")
}

/// Where the base catalog came from.
#[derive(Debug, Clone, Copy, PartialEq, Eq, Structural)]
pub enum CatalogSource {
    /// Nothing fetched yet.
    Empty,
    /// A catalog fetched by an update and cached locally.
    Remote,
}

/// The catalog in effect for a run.
pub struct Effective {
    /// Base catalog with any local override merged in.
    pub catalog: PresetCatalog,
    /// Where the base catalog came from.
    pub source: CatalogSource,
    /// How many presets the local override contributed.
    pub local_overrides: usize,
    pub description: String,
}

/// The description of where the base catalog came from.
pub open spec fn base_description(cached_path: Option<Seq<char>>) -> Seq<char> {
    match cached_path {
        Some(p) => "remote cache ("@ + p + ")"@,
        None => "no catalog fetched yet"@,
    }
}

/// Resolves the catalog in effect from a usable fetched catalog (with the
/// path it was read from) and a usable local override: the override is
/// merged over the fetched catalog, or over an empty one when nothing was
/// fetched.
pub fn effective(
    cached: Option<(PresetCatalog, String)>,
    overlay: Option<PresetCatalog>,
    override_path: &str,
) -> (r: Effective)
    ensures
        r.source == (if cached is Some {
            CatalogSource::Remote
        } else {
            CatalogSource::Empty
        }),
        ({
            let base_desc = base_description(
                match cached {
                    Some(c) => Some(c.1@),
                    None => None,
                },
            );
            let base = match cached {
                Some(c) => c.0.deep_view(),
                None => CatalogModel {
                    schema_version: SCHEMA_VERSION,
                    scripts: Seq::empty(),
                    presets: Seq::empty(),
                },
            };
            match overlay {
                Some(o) => {
                    &&& r.catalog.deep_view() == merged(base, o.deep_view())
                    &&& r.local_overrides == o.presets@.len()
                    &&& r.description@ == base_desc + " + "@ + decimal(o.presets@.len() as nat)
                        + " preset(s) from local override ("@ + override_path@ + ")"@
                },
                None => {
                    &&& r.catalog.deep_view() == base
                    &&& r.local_overrides == 0
                    &&& r.description@ == base_desc
                },
            }
        }),
{
    let (base, source, base_desc) = match cached {
        Some((catalog, path)) => {
            let mut d = chars_of("remote cache (");
            push_str(&mut d, path.as_str());
            push_str(&mut d, ")");
            (catalog, CatalogSource::Remote, d)
        },
        None => {
            let c = empty_catalog();
            assert(c.deep_view().scripts =~= Seq::<Seq<char>>::empty());
            assert(c.deep_view().presets =~= Seq::<PresetModel>::empty());
            (c, CatalogSource::Empty, chars_of("no catalog fetched yet"))
        },
    };
    match overlay {
        Some(o) => {
            let catalog = merge_catalog(&base, &o);
            let n = o.presets.len();
            let mut d = base_desc;
            push_str(&mut d, " + ");
            let nd = decimal_v(n as u128);
            crate::text::append_chars(&mut d, &nd);
            push_str(&mut d, " preset(s) from local override (");
            push_str(&mut d, override_path);
            push_str(&mut d, ")");
            Effective { local_overrides: n, catalog, source, description: string_of(&d) }
        },
        None => Effective {
            catalog: base,
            source,
            local_overrides: 0,
            description: string_of(&base_desc),
        },
    }
}

/// The catalog used for lookups and listings.
pub fn effective_catalog(eff: &Effective) -> (r: &PresetCatalog)
    ensures
        r.deep_view() == eff.catalog.deep_view(),
{
    &eff.catalog
}

/// Whether the base catalog was fetched or is still empty.
pub fn effective_source(eff: &Effective) -> (r: CatalogSource)
    ensures
        r == eff.source,
{
    eff.source
}

/// How many presets the local override contributed.
pub fn effective_local_overrides(eff: &Effective) -> (r: usize)
    ensures
        r == eff.local_overrides,
{
    eff.local_overrides
}

/// Human-readable description of where the catalog came from.
pub fn effective_description(eff: &Effective) -> (r: &str)
    ensures
        r@ == eff.description@,
{
    eff.description.as_str()
}

/// All presets of the catalog in effect.
pub fn all_presets(eff: &Effective) -> (r: Vec<Preset>)
    ensures
        r.deep_view() == eff.catalog.deep_view().presets,
{
    let src = &eff.catalog.presets;
    let mut r: Vec<Preset> = Vec::new();
    let mut i: usize = 0;
    while i < src.len()
        invariant
            i <= src.len(),
            r.deep_view() == src.deep_view().take(i as int),
        decreases src.len() - i,
    {
        let ghost before = r.deep_view();
        let c = clone_preset(&src[i]);
        r.push(c);
        assert(r.deep_view() =~= before.push(c.deep_view()));
        assert(src.deep_view().take(i + 1) =~= src.deep_view().take(i as int).push(
            src@[i as int].deep_view(),
        ));
        i = i + 1;
    }
    assert(src.deep_view().take(src.len() as int) =~= src.deep_view());
    r
}

/// Looks a preset up by name in the catalog in effect.
pub fn find_preset(eff: &Effective, name: &str) -> (r: Option<Preset>)
    ensures
        r.deep_view() == first_named(eff.catalog.deep_view().presets, name@),
{
    find_preset_in(&eff.catalog, name)
}

/// Preset names mapped to display names, for the catalog in effect.
pub fn preset_list(eff: &Effective) -> (r: OrdMap<String>)
    ensures
        r@ == titles(eff.catalog.deep_view().presets),
{
    preset_list_in(&eff.catalog)
}

/// The display name of the last preset named `q`, if any.
pub open spec fn title_of(s: Seq<PresetModel>, q: Seq<char>) -> Option<Seq<char>>
    decreases s.len(),
{
    if s.len() == 0 {
        None
    } else if s.last().name == q {
        Some(s.last().display_name)
    } else {
        title_of(s.drop_last(), q)
    }
}

proof fn lemma_titles_lookup(s: Seq<PresetModel>)
    ensures
        sorted_keys(titles(s)),
        forall|q: Seq<char>| #[trigger] lookup(titles(s), q) == title_of(s, q),
    decreases s.len(),
{
    if s.len() > 0 {
        let d = s.drop_last();
        lemma_titles_lookup(d);
        lemma_insert_sorted_sorted(titles(d), s.last().name, s.last().display_name);
        assert forall|q: Seq<char>| #[trigger] lookup(titles(s), q) == title_of(s, q) by {
            lemma_insert_sorted_lookup(titles(d), s.last().name, s.last().display_name, q);
        }
    }
}

proof fn lemma_title_of(s: Seq<PresetModel>, q: Seq<char>)
    ensures
        (title_of(s, q) is Some) == preset_names(s).contains(q),
        distinct(preset_names(s)) ==> forall|i: int|
            0 <= i < s.len() && #[trigger] s[i].name == q ==> title_of(s, q) == Some(s[i].display_name),
    decreases s.len(),
{
    if s.len() > 0 {
        let d = s.drop_last();
        lemma_title_of(d, q);
        assert(preset_names(s) =~= preset_names(d).push(s.last().name));
        if distinct(preset_names(s)) {
            assert(distinct(preset_names(d))) by {
                assert forall|a: int, b: int| 0 <= a < b < preset_names(d).len() implies preset_names(d)[a]
                    != preset_names(d)[b] by {
                    assert(preset_names(d)[a] == preset_names(s)[a]);
                    assert(preset_names(d)[b] == preset_names(s)[b]);
                }
            }
            assert forall|i: int| 0 <= i < s.len() && #[trigger] s[i].name == q implies title_of(s, q)
                == Some(s[i].display_name) by {
                if i < s.len() - 1 {
                    assert(d[i] == s[i]);
                    assert(preset_names(s)[i] == s[i].name);
                    assert(preset_names(s)[s.len() - 1] == s.last().name);
                }
            }
        }
        if preset_names(d).contains(q) {
            let j = choose|j: int| 0 <= j < preset_names(d).len() && preset_names(d)[j] == q;
            assert(preset_names(s)[j] == q);
        }
        if s.last().name == q {
            assert(preset_names(s)[s.len() - 1] == q);
        }
        if preset_names(s).contains(q) && s.last().name != q {
            let j = choose|j: int| 0 <= j < preset_names(s).len() && preset_names(s)[j] == q;
            assert(j < s.len() - 1);
            assert(preset_names(d)[j] == q);
        }
    }
}

/// The preset list maps exactly the catalog's preset names, in name order;
/// with unique names, each to that preset's display name.
pub proof fn law_preset_list_titles(s: Seq<PresetModel>)
    ensures
        sorted_keys(titles(s)),
        forall|q: Seq<char>| (#[trigger] lookup(titles(s), q) is Some) == preset_names(s).contains(q),
        distinct(preset_names(s)) ==> forall|i: int|
            0 <= i < s.len() ==> lookup(titles(s), #[trigger] s[i].name) == Some(s[i].display_name),
{
    lemma_titles_lookup(s);
    assert forall|q: Seq<char>| (#[trigger] lookup(titles(s), q) is Some) == preset_names(s).contains(q) by {
        lemma_title_of(s, q);
    }
    if distinct(preset_names(s)) {
        assert forall|i: int| 0 <= i < s.len() implies lookup(titles(s), #[trigger] s[i].name) == Some(
            s[i].display_name,
        ) by {
            lemma_title_of(s, s[i].name);
        }
    }
}

proof fn lemma_item_set_sorted_and_complete(items: Seq<Seq<char>>)
    ensures
        sorted_keys(item_set(items)),
        forall|x: Seq<char>| items.contains(x) ==> #[trigger] has_key(item_set(items), x),
    decreases items.len(),
{
    if items.len() > 0 {
        let d = items.drop_last();
        lemma_item_set_sorted_and_complete(d);
        lemma_insert_sorted_sorted(item_set(d), items.last(), true);
        lemma_insert_sorted_keys(item_set(d), items.last(), true);
        assert forall|x: Seq<char>| items.contains(x) implies #[trigger] has_key(item_set(items), x) by {
            let j = choose|j: int| 0 <= j < items.len() && items[j] == x;
            if j < items.len() - 1 {
                assert(d[j] == x);
                assert(d.contains(x));
                assert(has_key(item_set(d), x));
                let w = choose|w: int| 0 <= w < item_set(d).len() && #[trigger] item_set(d)[w].0 == x;
                assert(has_key(insert_sorted(item_set(d), items.last(), true), item_set(d)[w].0));
            }
        }
    }
}

/// The scripts of a merged catalog are those of both catalogs, each once,
/// in increasing order; its schema version is the higher of the two.
pub proof fn law_merge_scripts_and_version(base: CatalogModel, overlay: CatalogModel)
    ensures
        forall|a: int, b: int|
            0 <= a < b < merged(base, overlay).scripts.len() ==> key_lt(
                #[trigger] merged(base, overlay).scripts[a],
                #[trigger] merged(base, overlay).scripts[b],
            ),
        forall|x: Seq<char>|
            #[trigger] merged(base, overlay).scripts.contains(x) == (base.scripts.contains(x)
                || overlay.scripts.contains(x)),
        merged(base, overlay).schema_version >= base.schema_version,
        merged(base, overlay).schema_version >= overlay.schema_version,
        merged(base, overlay).schema_version == base.schema_version
            || merged(base, overlay).schema_version == overlay.schema_version,
{
    let items = base.scripts + overlay.scripts;
    let set = item_set(items);
    let ks = keys_of(set);
    lemma_item_set_sorted_and_complete(items);
    lemma_item_set_keys(items);
    assert forall|a: int, b: int| 0 <= a < b < ks.len() implies key_lt(#[trigger] ks[a], #[trigger] ks[b]) by {
        assert(ks[a] == set[a].0);
        assert(ks[b] == set[b].0);
    }
    assert forall|x: Seq<char>| #[trigger] ks.contains(x) == (base.scripts.contains(x) || overlay.scripts.contains(x)) by {
        if ks.contains(x) {
            let k = choose|k: int| 0 <= k < ks.len() && ks[k] == x;
            assert(ks[k] == set[k].0);
            assert(items.contains(set[k].0));
            let j = choose|j: int| 0 <= j < items.len() && items[j] == x;
            if j < base.scripts.len() {
                assert(items[j] == base.scripts[j]);
            } else {
                assert(items[j] == overlay.scripts[j - base.scripts.len()]);
            }
        }
        if base.scripts.contains(x) || overlay.scripts.contains(x) {
            if base.scripts.contains(x) {
                let j = choose|j: int| 0 <= j < base.scripts.len() && base.scripts[j] == x;
                assert(items[j] == x);
            } else {
                let j = choose|j: int| 0 <= j < overlay.scripts.len() && overlay.scripts[j] == x;
                assert(items[j + base.scripts.len()] == x);
            }
            assert(items.contains(x));
            assert(has_key(set, x));
            let w = choose|w: int| 0 <= w < set.len() && #[trigger] set[w].0 == x;
            assert(ks[w] == x);
        }
    }
}

/// With neither a fetched catalog nor an override, the catalog in effect is
/// empty, so no preset can be found.
pub proof fn law_nothing_fetched_nothing_found(name: Seq<char>)
    ensures
        first_named(Seq::<PresetModel>::empty(), name) is None,
        titles(Seq::<PresetModel>::empty()).len() == 0,
{
}

// ---------------------------------------------------------------------------
// Updates
// ---------------------------------------------------------------------------

/// Summary of a successful update.
pub struct UpdateSummary {
    pub preset_count: usize,
    pub script_count: usize,
    pub catalog_url: String,
}

/// Outcome of the first-run bootstrap.
pub enum Bootstrap {
    /// A usable catalog was already cached; nothing was fetched.
    AlreadyCached,
    /// Nothing was cached, so a catalog was fetched.
    Fetched(UpdateSummary),
    /// Nothing was cached and the fetch failed.
    Failed(String),
}

/// URL of a file of the presets repository: `base/rel`.
pub fn repo_file_url(base: &str, rel: &str) -> (r: String)
    ensures
        r@ == base@ + "/"@ + rel@,
{
    let mut v = chars_of(base);
    push_str(&mut v, "/");
    push_str(&mut v, rel);
    string_of(&v)
}

/// The repository base without trailing slashes.
pub fn repo_root(base: &str) -> (r: String)
    ensures
        r@ == crate::text::trim_end(base@, CharClass::Exactly('/')),
{
    let v = chars_of(base);
    let t = crate::text::trim_end_v(&v, &CharClass::Exactly('/'));
    string_of(&t)
}

/// What an update reports: presets in the catalog, scripts staged, and the
/// catalog's URL.
pub fn update_summary(catalog: &PresetCatalog, staged: usize, root: &str) -> (r: UpdateSummary)
    ensures
        r.preset_count == catalog.presets@.len(),
        r.script_count == staged,
        r.catalog_url@ == root@ + "/"@ + "catalog.yaml"@,
{
    UpdateSummary {
        preset_count: catalog.presets.len(),
        script_count: staged,
        catalog_url: repo_file_url(root, "catalog.yaml"),
    }
}

// ---------------------------------------------------------------------------
// Listing
// ---------------------------------------------------------------------------

/// The first key of `env` containing `kw`.
pub open spec fn first_key_containing(env: Seq<(Seq<char>, Seq<char>)>, kw: Seq<char>) -> Option<
    Seq<char>,
>
    decreases env.len(),
{
    if env.len() == 0 {
        None
    } else if crate::text::spec_contains(env[0].0, kw) {
        Some(env[0].0)
    } else {
        first_key_containing(env.drop_first(), kw)
    }
}

/// The credential-looking variable to show for a script-auth preset: the
/// first key (in name order) containing `SECRET_ID`, else `ACCESS_KEY_ID`,
/// `API_KEY`, `TOKEN`, `SECRET`, else the first key.
pub open spec fn env_key_display(env: Seq<(Seq<char>, Seq<char>)>) -> Seq<char> {
    if first_key_containing(env, "SECRET_ID"@) is Some {
        first_key_containing(env, "SECRET_ID"@).unwrap()
    } else if first_key_containing(env, "ACCESS_KEY_ID"@) is Some {
        first_key_containing(env, "ACCESS_KEY_ID"@).unwrap()
    } else if first_key_containing(env, "API_KEY"@) is Some {
        first_key_containing(env, "API_KEY"@).unwrap()
    } else if first_key_containing(env, "TOKEN"@) is Some {
        first_key_containing(env, "TOKEN"@).unwrap()
    } else if first_key_containing(env, "SECRET"@) is Some {
        first_key_containing(env, "SECRET"@).unwrap()
    } else if env.len() > 0 {
        env[0].0
    } else {
        "-"@
    }
}

/// The "Env Variable" column for a preset's auth.
pub open spec fn env_display(auth: Option<AuthModel>) -> Seq<char> {
    match auth {
        None => "-"@,
        Some(a) => match a.token_env {
            Some(t) => t,
            None => match a.env {
                Some(env) => env_key_display(env),
                None => "-"@,
            },
        },
    }
}

fn key_containing(env: &OrdMap<String>, kw: &str) -> (r: Option<String>)
    ensures
        r.deep_view() == first_key_containing(env@, kw@),
{
    let k = chars_of(kw);
    let n = env.len();
    let mut i: usize = 0;
    assert(env@.skip(0) =~= env@);
    while i < n
        invariant
            n == env@.len(),
            i <= n,
            k@ == kw@,
            first_key_containing(env@, kw@) == first_key_containing(env@.skip(i as int), kw@),
        decreases n - i,
    {
        assert(env@.skip(i as int).drop_first() =~= env@.skip(i + 1));
        let key = env.key_at(i);
        let kv = chars_of(key.as_str());
        if crate::text::contains(&kv, &k) {
            return Some(key.clone());
        }
        i = i + 1;
    }
    None
}

/// The env var to display for a preset: the token variable, else the most
/// credential-like script variable, else `-`.
pub fn preset_env_display(auth: Option<&AuthConfig>) -> (r: String)
    ensures
        r@ == env_display(auth.deep_view()),
{
    let a = match auth {
        Some(a) => a,
        None => return String::from_str("-"),
    };
    match &a.token_env {
        Some(t) => return t.clone(),
        None => {},
    }
    match &a.env {
        Some(env) => {
            match key_containing(env, "SECRET_ID") {
                Some(k) => return k,
                None => {},
            }
            match key_containing(env, "ACCESS_KEY_ID") {
                Some(k) => return k,
                None => {},
            }
            match key_containing(env, "API_KEY") {
                Some(k) => return k,
                None => {},
            }
            match key_containing(env, "TOKEN") {
                Some(k) => return k,
                None => {},
            }
            match key_containing(env, "SECRET") {
                Some(k) => return k,
                None => {},
            }
            if env.len() > 0 {
                env.key_at(0).clone()
            } else {
                String::from_str("-")
            }
        },
        None => String::from_str("-"),
    }
}

// ---------------------------------------------------------------------------
// The preset table
// ---------------------------------------------------------------------------

pub open spec fn max_nat(a: nat, b: nat) -> nat {
    if a >= b {
        a
    } else {
        b
    }
}

/// The "Auth Type" column of a preset.
pub open spec fn auth_label(p: PresetModel) -> Seq<char> {
    match p.default_auth {
        Some(a) => a.auth_type,
        None => "none"@,
    }
}

/// Column widths, in bytes as `str::len` counts, at least the heading's.
pub open spec fn name_width(ps: Seq<PresetModel>) -> nat
    decreases ps.len(),
{
    if ps.len() == 0 {
        4
    } else {
        max_nat(name_width(ps.drop_last()), utf8_len(ps.last().name))
    }
}

pub open spec fn auth_width(ps: Seq<PresetModel>) -> nat
    decreases ps.len(),
{
    if ps.len() == 0 {
        9
    } else {
        max_nat(auth_width(ps.drop_last()), utf8_len(auth_label(ps.last())))
    }
}

pub open spec fn env_width(ps: Seq<PresetModel>) -> nat
    decreases ps.len(),
{
    if ps.len() == 0 {
        12
    } else {
        max_nat(env_width(ps.drop_last()), utf8_len(env_display(ps.last().default_auth)))
    }
}

/// A table line: three columns padded to their width plus two, then the
/// last column.
pub open spec fn table_row(
    c1: Seq<char>,
    c2: Seq<char>,
    c3: Seq<char>,
    last: Seq<char>,
    w1: nat,
    w2: nat,
    w3: nat,
) -> Seq<char> {
    "  "@ + pad_right(c1, w1 + 2) + " "@ + pad_right(c2, w2 + 2) + " "@ + pad_right(c3, w3 + 2)
        + " "@ + last + "\n"@
}

pub open spec fn preset_rows(ps: Seq<PresetModel>, w1: nat, w2: nat, w3: nat) -> Seq<char>
    decreases ps.len(),
{
    if ps.len() == 0 {
        Seq::empty()
    } else {
        preset_rows(ps.drop_last(), w1, w2, w3) + table_row(
            ps.last().name,
            auth_label(ps.last()),
            env_display(ps.last().default_auth),
            ps.last().description,
            w1,
            w2,
            w3,
        )
    }
}

/// What is shown when no preset is available: where presets come from and
/// how to get some.
pub open spec fn no_presets_text(override_path: Seq<char>) -> Seq<char> {
    "No presets available yet.\n\nPreset data lives in the presets repository, not in the RESTie binary,\nso the list can be updated without a new RESTie release.\n\nFetch it:\n  restie presets update\n\nUse a different repository:\n  restie presets update --repo <raw-base-url>\n  export RESTIE_PRESETS_REPO=<raw-base-url>   # default for future runs\n\nAdd your own without a repo:\n"@ + "  "@ + override_path + "\n\nOr skip presets entirely and generate from any OpenAPI spec:\n  restie generate --from <url-or-path>\n"@
}

/// The preset listing: a table of name, auth type, credential variable and
/// description, then usage and where the catalog came from.
pub open spec fn presets_overview_text(
    ps: Seq<PresetModel>,
    description: Seq<char>,
    catalog_len: nat,
    override_path: Seq<char>,
) -> Seq<char> {
    if ps.len() == 0 {
        no_presets_text(override_path)
    } else {
        let w1 = name_width(ps);
        let w2 = auth_width(ps);
        let w3 = env_width(ps);
        "Available platform presets:\n\n"@ + table_row(
            "Name"@,
            "Auth Type"@,
            "Env Variable"@,
            "Description"@,
            w1,
            w2,
            w3,
        ) + table_row("----"@, "---------"@, "------------"@, "-----------"@, w1, w2, w3)
            + preset_rows(ps, w1, w2, w3) + "\nUsage:\n  restie generate <preset>           Generate config for a preset\n  restie generate --from <url>      Generate from custom OpenAPI spec\n  restie generate --from <url> --filter <path>   Filter by path substring\n"@ + "\nCatalog: schema v"@ + decimal(
            SCHEMA_VERSION as nat,
        ) + " \u{2014} "@ + description + " ("@ + decimal(catalog_len) + " presets)\n"@
            + "Refresh/expand presets anytime: restie presets update\n"@
            + "Add or override presets locally: "@ + override_path
            + " (never overwritten by update)\n"@
    }
}

fn append_row(
    out: &mut Vec<char>,
    c1: &str,
    c2: &str,
    c3: &str,
    last: &str,
    w1: u128,
    w2: u128,
    w3: u128,
)
    requires
        w1 + 2 <= u128::MAX,
        w2 + 2 <= u128::MAX,
        w3 + 2 <= u128::MAX,
    ensures
        final(out)@ == old(out)@ + table_row(c1@, c2@, c3@, last@, w1 as nat, w2 as nat, w3 as nat),
{
    let ghost pre = out@;
    push_str(out, "  ");
    let v1 = chars_of(c1);
    crate::text::pad_right_wide(out, &v1, w1 + 2);
    push_str(out, " ");
    let v2 = chars_of(c2);
    crate::text::pad_right_wide(out, &v2, w2 + 2);
    push_str(out, " ");
    let v3 = chars_of(c3);
    crate::text::pad_right_wide(out, &v3, w3 + 2);
    push_str(out, " ");
    push_str(out, last);
    push_str(out, "\n");
    assert(out@ =~= pre + table_row(c1@, c2@, c3@, last@, w1 as nat, w2 as nat, w3 as nat));
}

fn byte_len(s: &str) -> (r: u128)
    ensures
        r == utf8_len(s@),
        r <= 4 * (usize::MAX as int),
{
    let v = chars_of(s);
    let l = v.len();
    assert(v@.len() == l);
    crate::text::utf8_len_v(&v)
}

/// The text `restie presets` prints for the catalog in effect.
pub fn presets_overview(
    all: &Vec<Preset>,
    description: &str,
    catalog_len: usize,
    override_path: &str,
) -> (r: String)
    ensures
        r@ == presets_overview_text(all.deep_view(), description@, catalog_len as nat, override_path@),
{
    let ghost ps = all.deep_view();
    if all.len() == 0 {
        let mut out = chars_of("No presets available yet.\n\nPreset data lives in the presets repository, not in the RESTie binary,\nso the list can be updated without a new RESTie release.\n\nFetch it:\n  restie presets update\n\nUse a different repository:\n  restie presets update --repo <raw-base-url>\n  export RESTIE_PRESETS_REPO=<raw-base-url>   # default for future runs\n\nAdd your own without a repo:\n");
        push_str(&mut out, "  ");
        push_str(&mut out, override_path);
        push_str(&mut out, "\n\nOr skip presets entirely and generate from any OpenAPI spec:\n  restie generate --from <url-or-path>\n");
        return string_of(&out);
    }
    let mut w1: u128 = 4;
    let mut w2: u128 = 9;
    let mut w3: u128 = 12;
    let mut i: usize = 0;
    while i < all.len()
        invariant
            i <= all.len(),
            ps == all.deep_view(),
            w1 == name_width(ps.take(i as int)),
            w2 == auth_width(ps.take(i as int)),
            w3 == env_width(ps.take(i as int)),
            w1 <= 4 * (usize::MAX as int) + 12,
            w2 <= 4 * (usize::MAX as int) + 12,
            w3 <= 4 * (usize::MAX as int) + 12,
        decreases all.len() - i,
    {
        assert(ps.take(i + 1).drop_last() =~= ps.take(i as int));
        assert(ps.take(i + 1).last() == all@[i as int].deep_view());
        let p = &all[i];
        let n = byte_len(p.name.as_str());
        if n > w1 {
            w1 = n;
        }
        let label: &str = match &p.default_auth {
            Some(a) => a.auth_type.as_str(),
            None => "none",
        };
        let a = byte_len(label);
        if a > w2 {
            w2 = a;
        }
        let env = preset_env_display(p.default_auth.as_ref());
        let e = byte_len(env.as_str());
        if e > w3 {
            w3 = e;
        }
        i = i + 1;
    }
    assert(ps.take(all.len() as int) =~= ps);
    let mut out = chars_of("Available platform presets:\n\n");
    append_row(&mut out, "Name", "Auth Type", "Env Variable", "Description", w1, w2, w3);
    append_row(&mut out, "----", "---------", "------------", "-----------", w1, w2, w3);
    let ghost rows_start = out@;
    let mut j: usize = 0;
    while j < all.len()
        invariant
            j <= all.len(),
            ps == all.deep_view(),
            w1 + 2 <= u128::MAX,
            w2 + 2 <= u128::MAX,
            w3 + 2 <= u128::MAX,
            out@ == rows_start + preset_rows(ps.take(j as int), w1 as nat, w2 as nat, w3 as nat),
        decreases all.len() - j,
    {
        assert(ps.take(j + 1).drop_last() =~= ps.take(j as int));
        assert(ps.take(j + 1).last() == all@[j as int].deep_view());
        let p = &all[j];
        let label: &str = match &p.default_auth {
            Some(a) => a.auth_type.as_str(),
            None => "none",
        };
        let env = preset_env_display(p.default_auth.as_ref());
        append_row(
            &mut out,
            p.name.as_str(),
            label,
            env.as_str(),
            p.description.as_str(),
            w1,
            w2,
            w3,
        );
        j = j + 1;
    }
    assert(ps.take(all.len() as int) =~= ps);
    push_str(&mut out, "\nUsage:\n  restie generate <preset>           Generate config for a preset\n  restie generate --from <url>      Generate from custom OpenAPI spec\n  restie generate --from <url> --filter <path>   Filter by path substring\n");
    push_str(&mut out, "\nCatalog: schema v");
    let sv = decimal_v(SCHEMA_VERSION as u128);
    crate::text::append_chars(&mut out, &sv);
    push_str(&mut out, " \u{2014} ");
    push_str(&mut out, description);
    push_str(&mut out, " (");
    let cl = decimal_v(catalog_len as u128);
    crate::text::append_chars(&mut out, &cl);
    push_str(&mut out, " presets)\n");
    push_str(&mut out, "Refresh/expand presets anytime: restie presets update\n");
    push_str(&mut out, "Add or override presets locally: ");
    push_str(&mut out, override_path);
    push_str(&mut out, " (never overwritten by update)\n");
    string_of(&out)
}

// ---------------------------------------------------------------------------
// Fetch failures
// ---------------------------------------------------------------------------

/// An actionable message for a request to `url` that failed to complete:
/// a timeout, a failed connection, or anything else with its `detail`.
pub fn network_error_text(url: &str, timed_out: bool, connect_failed: bool, detail: &str) -> (r: String)
    ensures
        r@ == if timed_out {
            "timed out fetching "@ + url@ + "\n  The host is slow or unreachable from here."@
        } else if connect_failed {
            "could not connect to "@ + url@
                + "\n  Check your network, or a proxy RESTie cannot use (HTTPS_PROXY / ALL_PROXY). Both http(s):// and socks5h:// proxies work."@
        } else {
            "failed to fetch "@ + url@ + ": "@ + detail@
        },
{
    let mut m: Vec<char>;
    if timed_out {
        m = chars_of("timed out fetching ");
        push_str(&mut m, url);
        push_str(&mut m, "\n  The host is slow or unreachable from here.");
    } else if connect_failed {
        m = chars_of("could not connect to ");
        push_str(&mut m, url);
        push_str(
            &mut m,
            "\n  Check your network, or a proxy RESTie cannot use (HTTPS_PROXY / ALL_PROXY). Both http(s):// and socks5h:// proxies work.",
        );
    } else {
        m = chars_of("failed to fetch ");
        push_str(&mut m, url);
        push_str(&mut m, ": ");
        push_str(&mut m, detail);
    }
    string_of(&m)
}

/// An actionable message for a response body from `url` that could not be
/// read: a timeout, an interrupted transfer, or anything else with its
/// `detail`.
pub fn body_error_text(url: &str, timed_out: bool, interrupted: bool, detail: &str) -> (r: String)
    ensures
        r@ == if timed_out {
            "timed out reading the response body from "@ + url@
        } else if interrupted {
            "the transfer from "@ + url@
                + " was interrupted before the body finished\n  Retry: the catalog is small, so this is usually a flaky link rather than the host being down."@
        } else {
            "could not read the response body from "@ + url@ + ": "@ + detail@
        },
{
    let mut m: Vec<char>;
    if timed_out {
        m = chars_of("timed out reading the response body from ");
        push_str(&mut m, url);
    } else if interrupted {
        m = chars_of("the transfer from ");
        push_str(&mut m, url);
        push_str(
            &mut m,
            " was interrupted before the body finished\n  Retry: the catalog is small, so this is usually a flaky link rather than the host being down.",
        );
    } else {
        m = chars_of("could not read the response body from ");
        push_str(&mut m, url);
        push_str(&mut m, ": ");
        push_str(&mut m, detail);
    }
    string_of(&m)
}

/// The error for a fetch answered with a failure status.
pub fn http_status_error(status: &str, url: &str) -> (r: String)
    ensures
        r@ == "HTTP "@ + status@ + " from "@ + url@,
{
    let mut m = chars_of("HTTP ");
    push_str(&mut m, status);
    push_str(&mut m, " from ");
    push_str(&mut m, url);
    string_of(&m)
}

/// The error for a downloaded catalog that fails validation; nothing is
/// applied then.
pub fn invalid_download_error(reason: &str) -> (r: String)
    ensures
        r@ == "downloaded catalog is invalid (not applied): "@ + reason@,
{
    let mut m = chars_of("downloaded catalog is invalid (not applied): ");
    push_str(&mut m, reason);
    string_of(&m)
}

} // verus!
