//! Conversion of an OpenAPI description into a site configuration: one
//! module per first tag, one command per operation, named from its summary.

use vstd::prelude::*;
use vstd::set_lib::{lemma_int_range, lemma_len_subset, lemma_map_size, lemma_map_size_bound, set_int_range};
use crate::config::{
    EndpointConfig, EndpointModel, ModuleConfig, ModuleModel, ParamConfig, ParamModel, SiteConfig,
    SiteInfo, SiteInfoModel, SiteModel, total_from,
};
use crate::json::{
    JsonValue, bool_of, default_text, default_to_string, field, first_item, get_bool, get_field,
    get_first_item, get_items, get_members, get_str, items_of, member, members_of, opt, resolve,
    resolve_ref, str_of,
};
use crate::naming::{
    command_name, derive_fallback_name, fallback_name, strip_module_prefix,
    summary_to_command_name, without_module_prefix,
};
use crate::ordmap::{
    OrdMap, has_key, insert_sorted, key_lt, lemma_insert_sorted_lookup,
    lemma_insert_sorted_new_len, lemma_insert_sorted_sorted, lemma_insert_sorted_split,
    lemma_key_lt_irreflexive, lemma_key_lt_transitive, lemma_lookup_index, lemma_lookup_none,
    lookup, sorted_keys,
};
use crate::text::{
    CharClass, append_chars, chars_of, decimal, decimal_v, push_str, spec_contains, str_eq,
    string_of, to_upper, trim_end, trim_end_v, trim_start, unicode_upper,
};

verus! {

// ---------------------------------------------------------------------------
// Parameters
// ---------------------------------------------------------------------------

/// `v`, or what its `$ref` member points at when it has one.
pub open spec fn deref(spec: JsonValue, v: Option<JsonValue>) -> Option<JsonValue> {
    match str_of(field(v, "$ref"@)) {
        Some(r) => resolve(spec, r, 0),
        None => v,
    }
}

/// The parameter an entry of a `parameters` array declares, if it has a
/// name: location `query` and not required unless it says otherwise; type
/// and default read from its (dereferenced) schema.
pub open spec fn param_of(spec: JsonValue, p: JsonValue) -> Option<(Seq<char>, ParamModel)> {
    let param = deref(spec, Some(p));
    match str_of(field(param, "name"@)) {
        None => None,
        Some(name) => {
            let schema = deref(spec, field(param, "schema"@));
            Some(
                (
                    name,
                    ParamModel {
                        required: bool_of(field(param, "required"@)) == Some(true),
                        location: match str_of(field(param, "in"@)) {
                            Some(l) => l,
                            None => "query"@,
                        },
                        description: str_of(field(param, "description"@)),
                        param_type: str_of(field(schema, "type"@)),
                        default: default_text(field(schema, "default"@)),
                    },
                ),
            )
        },
    }
}

/// Adds a parameter unless one of that name is already there.
pub open spec fn add_param(
    acc: Seq<(Seq<char>, ParamModel)>,
    entry: Option<(Seq<char>, ParamModel)>,
) -> Seq<(Seq<char>, ParamModel)> {
    match entry {
        Some(e) => if has_key(acc, e.0) {
            acc
        } else {
            insert_sorted(acc, e.0, e.1)
        },
        None => acc,
    }
}

/// The parameters of a `parameters` array added in order, first one wins.
pub open spec fn add_params(
    acc: Seq<(Seq<char>, ParamModel)>,
    spec: JsonValue,
    items: Seq<JsonValue>,
) -> Seq<(Seq<char>, ParamModel)>
    decreases items.len(),
{
    if items.len() == 0 {
        acc
    } else {
        add_param(add_params(acc, spec, items.drop_last()), param_of(spec, items.last()))
    }
}

/// The schema of a request body: that of `application/json` content, or
/// else of the first content type listed; dereferenced.
pub open spec fn body_schema(spec: JsonValue, request_body: Option<JsonValue>) -> Option<JsonValue> {
    let sv = match members_of(field(request_body, "content"@)) {
        None => None,
        Some(content) => match member(content, "application/json"@) {
            Some(ct) => field(Some(ct), "schema"@),
            None => if content.len() > 0 {
                field(Some(content[0].1), "schema"@)
            } else {
                None
            },
        },
    };
    deref(spec, sv)
}

/// The strings among `items`, in order.
pub open spec fn string_items(items: Seq<JsonValue>) -> Seq<Seq<char>>
    decreases items.len(),
{
    if items.len() == 0 {
        Seq::empty()
    } else {
        let r = string_items(items.drop_last());
        match items.last() {
            JsonValue::Str(s) => r.push(s@),
            _ => r,
        }
    }
}

/// A body parameter from a schema property.
pub open spec fn body_param(
    spec: JsonValue,
    required: Seq<Seq<char>>,
    name: Seq<char>,
    prop: JsonValue,
) -> ParamModel {
    let p = deref(spec, Some(prop));
    ParamModel {
        required: required.contains(name),
        location: "body"@,
        description: str_of(field(p, "description"@)),
        param_type: str_of(field(p, "type"@)),
        default: default_text(field(p, "default"@)),
    }
}

pub open spec fn add_body_props(
    acc: Seq<(Seq<char>, ParamModel)>,
    spec: JsonValue,
    required: Seq<Seq<char>>,
    props: Seq<(String, JsonValue)>,
) -> Seq<(Seq<char>, ParamModel)>
    decreases props.len(),
{
    if props.len() == 0 {
        acc
    } else {
        add_param(
            add_body_props(acc, spec, required, props.drop_last()),
            Some((props.last().0@, body_param(spec, required, props.last().0@, props.last().1))),
        )
    }
}

/// `acc` with the properties of the request body's schema added as body
/// parameters.
pub open spec fn with_body_params(
    acc: Seq<(Seq<char>, ParamModel)>,
    spec: JsonValue,
    request_body: Option<JsonValue>,
) -> Seq<(Seq<char>, ParamModel)> {
    let schema = body_schema(spec, request_body);
    match members_of(field(schema, "properties"@)) {
        None => acc,
        Some(props) => add_body_props(
            acc,
            spec,
            string_items(items_of(field(schema, "required"@))),
            props,
        ),
    }
}

/// A parameter entry whose `$ref` starts a reference cycle is skipped.
pub proof fn law_cyclic_parameter_skipped(spec: JsonValue, p: JsonValue, cycle: Seq<Seq<char>>)
    requires
        cycle.len() > 0,
        str_of(field(Some(p), "$ref"@)) == Some(cycle[0]),
        forall|k: int|
            0 <= k < cycle.len() ==> crate::json::next_ref(spec, #[trigger] cycle[k]) == Some(
                cycle[(k + 1) % (cycle.len() as int)],
            ),
    ensures
        param_of(spec, p) is None,
{
    crate::json::law_ref_cycle_resolves_to_nothing(spec, cycle, 0, 0);
}

// ---------------------------------------------------------------------------
// Operations
// ---------------------------------------------------------------------------

pub open spec fn is_http_method(m: Seq<char>) -> bool {
    m == "GET"@ || m == "POST"@ || m == "PUT"@ || m == "PATCH"@ || m == "DELETE"@
}

/// The module of an operation: its first tag, or `misc`.
pub open spec fn module_of(op: JsonValue) -> Seq<char> {
    match str_of(first_item(field(Some(op), "tags"@))) {
        Some(t) => t,
        None => "misc"@,
    }
}

/// The command name of an operation before collisions are resolved: from
/// its summary, else from its operation id, else the fallback.
pub open spec fn primary_name(op: JsonValue, module: Seq<char>, fallback: Seq<char>) -> Seq<char> {
    match str_of(field(Some(op), "summary"@)) {
        Some(s) => command_name(s, module),
        None => match str_of(field(Some(op), "operationId"@)) {
            Some(id) => without_module_prefix(id, module),
            None => fallback,
        },
    }
}

/// The operation id and the fallback name, each unless it is the primary
/// name, without repeats.
pub open spec fn aliases_for(
    op_id: Option<Seq<char>>,
    fallback: Seq<char>,
    primary: Seq<char>,
) -> Seq<Seq<char>> {
    let a = match op_id {
        Some(id) => if id != primary {
            seq![id]
        } else {
            Seq::empty()
        },
        None => Seq::empty(),
    };
    if fallback != primary && !a.contains(fallback) {
        a.push(fallback)
    } else {
        a
    }
}

/// Operation parameters, then path-level ones, then body properties; the
/// first of a name wins.
pub open spec fn endpoint_params(spec: JsonValue, path_item: JsonValue, op: JsonValue) -> Seq<
    (Seq<char>, ParamModel),
> {
    let a = add_params(Seq::empty(), spec, items_of(field(Some(op), "parameters"@)));
    let b = add_params(a, spec, items_of(field(Some(path_item), "parameters"@)));
    with_body_params(b, spec, field(Some(op), "requestBody"@))
}

pub open spec fn endpoint_for(
    spec: JsonValue,
    path: Seq<char>,
    path_item: JsonValue,
    method: Seq<char>,
    op: JsonValue,
) -> EndpointModel {
    let m = unicode_upper(method);
    let module = module_of(op);
    let fallback = fallback_name(m, path);
    let primary = primary_name(op, module, fallback);
    EndpointModel {
        method: m,
        path: path,
        summary: str_of(field(Some(op), "summary"@)),
        aliases: aliases_for(str_of(field(Some(op), "operationId"@)), fallback, primary),
        params: endpoint_params(spec, path_item, op),
    }
}

// ---------------------------------------------------------------------------
// Name collisions
// ---------------------------------------------------------------------------

/// The `k`-th name tried for a command: the name itself, then `name-2`,
/// `name-3`, and so on.
pub open spec fn candidate(primary: Seq<char>, k: nat) -> Seq<char> {
    if k <= 1 {
        primary
    } else {
        primary + "-"@ + decimal(k)
    }
}

/// The first candidate from the `k`-th on that is not yet a command name.
pub open spec fn first_free(cmds: Seq<(Seq<char>, EndpointModel)>, primary: Seq<char>, k: nat) -> Seq<
    char,
>
    decreases cmds.len() + 1 - k,
{
    if k > cmds.len() || !has_key(cmds, candidate(primary, k)) {
        candidate(primary, k)
    } else {
        first_free(cmds, primary, k + 1)
    }
}

/// `mods` with `ep` added to `module` under the first free candidate name.
pub open spec fn place(
    mods: Seq<(Seq<char>, ModuleModel)>,
    module: Seq<char>,
    primary: Seq<char>,
    ep: EndpointModel,
) -> Seq<(Seq<char>, ModuleModel)> {
    let cmds = match lookup(mods, module) {
        Some(m) => m.commands,
        None => Seq::empty(),
    };
    insert_sorted(
        mods,
        module,
        ModuleModel { commands: insert_sorted(cmds, first_free(cmds, primary, 1), ep) },
    )
}

pub open spec fn add_operation(
    mods: Seq<(Seq<char>, ModuleModel)>,
    spec: JsonValue,
    path: Seq<char>,
    path_item: JsonValue,
    method: Seq<char>,
    op: JsonValue,
) -> Seq<(Seq<char>, ModuleModel)> {
    let m = unicode_upper(method);
    if !is_http_method(m) {
        mods
    } else {
        let module = module_of(op);
        place(
            mods,
            module,
            primary_name(op, module, fallback_name(m, path)),
            endpoint_for(spec, path, path_item, method, op),
        )
    }
}

pub open spec fn add_operations(
    mods: Seq<(Seq<char>, ModuleModel)>,
    spec: JsonValue,
    path: Seq<char>,
    path_item: JsonValue,
    ops: Seq<(String, JsonValue)>,
) -> Seq<(Seq<char>, ModuleModel)>
    decreases ops.len(),
{
    if ops.len() == 0 {
        mods
    } else {
        add_operation(
            add_operations(mods, spec, path, path_item, ops.drop_last()),
            spec,
            path,
            path_item,
            ops.last().0@,
            ops.last().1,
        )
    }
}

pub open spec fn path_selected(path: Seq<char>, filter: Option<Seq<char>>) -> bool {
    match filter {
        Some(f) => spec_contains(path, f),
        None => true,
    }
}

pub open spec fn operations_of(path_item: JsonValue) -> Seq<(String, JsonValue)> {
    match members_of(Some(path_item)) {
        Some(ops) => ops,
        None => Seq::empty(),
    }
}

pub open spec fn add_paths(
    mods: Seq<(Seq<char>, ModuleModel)>,
    spec: JsonValue,
    filter: Option<Seq<char>>,
    paths: Seq<(String, JsonValue)>,
) -> Seq<(Seq<char>, ModuleModel)>
    decreases paths.len(),
{
    if paths.len() == 0 {
        mods
    } else {
        let m = add_paths(mods, spec, filter, paths.drop_last());
        let p = paths.last().0@;
        if path_selected(p, filter) {
            add_operations(m, spec, p, paths.last().1, operations_of(paths.last().1))
        } else {
            m
        }
    }
}

/// The API title, or `API`.
pub open spec fn site_title(spec: JsonValue) -> Seq<char> {
    match str_of(field(field(Some(spec), "info"@), "title"@)) {
        Some(t) => t,
        None => "API"@,
    }
}

/// The first server URL without trailing slashes, or the default host.
pub open spec fn site_base_url(spec: JsonValue) -> Seq<char> {
    trim_end(
        match str_of(field(first_item(field(Some(spec), "servers"@)), "url"@)) {
            Some(u) => u,
            None => "https://api.github.com"@,
        },
        CharClass::Exactly('/'),
    )
}

pub open spec fn paths_of(spec: JsonValue) -> Seq<(String, JsonValue)> {
    match members_of(field(Some(spec), "paths"@)) {
        Some(ps) => ps,
        None => Seq::empty(),
    }
}

pub open spec fn opt_str(s: Option<&str>) -> Option<Seq<char>> {
    match s {
        Some(x) => Some(x@),
        None => None,
    }
}

/// The configuration generated from an API description.
pub open spec fn generated(spec: JsonValue, filter: Option<Seq<char>>) -> SiteModel {
    SiteModel {
        site: Some(
            SiteInfoModel {
                name: Some(site_title(spec)),
                base_url: Some(site_base_url(spec)),
                auth: None,
                headers: None,
            },
        ),
        modules: add_paths(Seq::empty(), spec, filter, paths_of(spec)),
    }
}

/// The warnings given while generating: no server URL (the default host is
/// used), then no title (`API` is used).
pub open spec fn generation_warnings(spec: JsonValue) -> Seq<Seq<char>> {
    let a = if str_of(field(first_item(field(Some(spec), "servers"@)), "url"@)) is None {
        seq!["Warning: no server URL found in OpenAPI spec, falling back to https://api.github.com"@]
    } else {
        Seq::empty()
    };
    if str_of(field(field(Some(spec), "info"@), "title"@)) is None {
        a.push("Warning: no info.title found in OpenAPI spec, using 'API'"@)
    } else {
        a
    }
}

// ---------------------------------------------------------------------------
// Candidate names are distinct, so a free one is always found
// ---------------------------------------------------------------------------

proof fn lemma_decimal_len(n: nat)
    ensures
        decimal(n).len() >= 1,
        n < 10 <==> decimal(n).len() == 1,
    decreases n,
{
    if n >= 10 {
        lemma_decimal_len(n / 10);
    }
}

proof fn lemma_digit_char_injective(a: nat, b: nat)
    requires
        a < 10,
        b < 10,
        crate::text::digit_char(a) == crate::text::digit_char(b),
    ensures
        a == b,
{
    assert(crate::text::digit_char(a) as u32 == 48 + a);
    assert(crate::text::digit_char(b) as u32 == 48 + b);
}

/// Distinct numbers print differently.
pub proof fn lemma_decimal_injective(a: nat, b: nat)
    requires
        decimal(a) == decimal(b),
    ensures
        a == b,
    decreases a,
{
    lemma_decimal_len(a);
    lemma_decimal_len(b);
    if a < 10 && b < 10 {
        assert(decimal(a) == seq![crate::text::digit_char(a)]);
        assert(decimal(b) == seq![crate::text::digit_char(b)]);
        assert(decimal(a)[0] == crate::text::digit_char(a));
        assert(decimal(b)[0] == crate::text::digit_char(b));
        lemma_digit_char_injective(a, b);
    } else if a >= 10 && b >= 10 {
        assert(decimal(a) == decimal(a / 10).push(crate::text::digit_char(a % 10)));
        assert(decimal(b) == decimal(b / 10).push(crate::text::digit_char(b % 10)));
        assert(decimal(a).last() == crate::text::digit_char(a % 10));
        assert(decimal(b).last() == crate::text::digit_char(b % 10));
        lemma_digit_char_injective(a % 10, b % 10);
        assert(decimal(a).drop_last() =~= decimal(a / 10));
        assert(decimal(b).drop_last() =~= decimal(b / 10));
        lemma_decimal_injective(a / 10, b / 10);
    }
}

proof fn lemma_candidate_injective(p: Seq<char>, a: nat, b: nat)
    requires
        1 <= a,
        1 <= b,
        candidate(p, a) == candidate(p, b),
    ensures
        a == b,
{
    lemma_decimal_len(a);
    lemma_decimal_len(b);
    if a >= 2 && b >= 2 {
        let pre = p + "-"@;
        assert(candidate(p, a).skip(pre.len() as int) =~= decimal(a));
        assert(candidate(p, b).skip(pre.len() as int) =~= decimal(b));
        lemma_decimal_injective(a, b);
    } else if a >= 2 {
        assert(candidate(p, a).len() > p.len());
    } else if b >= 2 {
        assert(candidate(p, b).len() > p.len());
    }
}

/// If the first `m` candidates are all taken, there are at least `m`
/// commands.
proof fn lemma_taken_candidates_bound(cmds: Seq<(Seq<char>, EndpointModel)>, p: Seq<char>, m: nat)
    requires
        forall|k: nat| 1 <= k <= m ==> has_key(cmds, #[trigger] candidate(p, k)),
    ensures
        m <= cmds.len(),
{
    let xs = set_int_range(1, m + 1 as int);
    let f = |k: int| candidate(p, k as nat);
    let ys = xs.map(f);
    let keys = set_int_range(0, cmds.len() as int).map(|i: int| cmds[i].0);
    lemma_int_range(1, m + 1 as int);
    lemma_int_range(0, cmds.len() as int);
    assert forall|a: int, b: int| xs.contains(a) && xs.contains(b) && #[trigger] f(a) == #[trigger] f(
        b,
    ) implies a == b by {
        lemma_candidate_injective(p, a as nat, b as nat);
    }
    lemma_map_size(xs, ys, f);
    lemma_map_size_bound(set_int_range(0, cmds.len() as int), keys, |i: int| cmds[i].0);
    assert forall|y: Seq<char>| ys.contains(y) implies keys.contains(y) by {
        let k = choose|k: int| xs.contains(k) && f(k) == y;
        assert(has_key(cmds, candidate(p, k as nat)));
        let i = choose|i: int| 0 <= i < cmds.len() && cmds[i].0 == candidate(p, k as nat);
        assert(set_int_range(0, cmds.len() as int).contains(i));
    }
    lemma_len_subset(ys, keys);
}

/// The name `place` picks is not a command name yet.
pub proof fn lemma_first_free_is_free(cmds: Seq<(Seq<char>, EndpointModel)>, p: Seq<char>)
    ensures
        !has_key(cmds, first_free(cmds, p, 1)),
{
    lemma_first_free_from(cmds, p, 1);
}

/// The commands of `module` in `mods`.
pub open spec fn commands_in(mods: Seq<(Seq<char>, ModuleModel)>, module: Seq<char>) -> Seq<
    (Seq<char>, EndpointModel),
> {
    match lookup(mods, module) {
        Some(m) => m.commands,
        None => Seq::empty(),
    }
}

/// Placing an operation never replaces a command: its module gains exactly
/// one command, under a name it did not have, and every other command and
/// every other module stays as it was.
pub proof fn law_place_adds_command(
    mods: Seq<(Seq<char>, ModuleModel)>,
    module: Seq<char>,
    primary: Seq<char>,
    ep: EndpointModel,
)
    requires
        sorted_keys(mods),
        sorted_keys(commands_in(mods, module)),
    ensures
        ({
            let before = commands_in(mods, module);
            let after = commands_in(place(mods, module, primary, ep), module);
            let name = first_free(before, primary, 1);
            &&& !has_key(before, name)
            &&& lookup(after, name) == Some(ep)
            &&& after.len() == before.len() + 1
            &&& forall|q: Seq<char>| q != name ==> lookup(after, q) == lookup(before, q)
        }),
        forall|q: Seq<char>|
            q != module ==> lookup(place(mods, module, primary, ep), q) == lookup(mods, q),
{
    let before = commands_in(mods, module);
    let name = first_free(before, primary, 1);
    let new_mod = ModuleModel { commands: insert_sorted(before, name, ep) };
    lemma_first_free_is_free(before, primary);
    lemma_insert_sorted_new_len(before, name, ep);
    lemma_insert_sorted_lookup(mods, module, new_mod, module);
    assert(commands_in(place(mods, module, primary, ep), module) == new_mod.commands);
    assert forall|q: Seq<char>| true implies lookup(new_mod.commands, q) == (if q == name {
        Some(ep)
    } else {
        lookup(before, q)
    }) by {
        lemma_insert_sorted_lookup(before, name, ep, q);
    }
    assert forall|q: Seq<char>| q != module implies lookup(place(mods, module, primary, ep), q)
        == lookup(mods, q) by {
        lemma_insert_sorted_lookup(mods, module, new_mod, q);
    }
}

/// Module lists as the generator builds them: modules in key order, and the
/// commands of each in key order.
pub open spec fn modules_in_order(mods: Seq<(Seq<char>, ModuleModel)>) -> bool {
    &&& sorted_keys(mods)
    &&& forall|m: Seq<char>| sorted_keys(#[trigger] commands_in(mods, m))
}

/// The operations of a path item that carry an HTTP method.
pub open spec fn http_operations(ops: Seq<(String, JsonValue)>) -> nat
    decreases ops.len(),
{
    if ops.len() == 0 {
        0
    } else {
        http_operations(ops.drop_last()) + if is_http_method(unicode_upper(ops.last().0@)) {
            1nat
        } else {
            0nat
        }
    }
}

/// The HTTP operations under the paths the filter selects.
pub open spec fn selected_operations(filter: Option<Seq<char>>, paths: Seq<(String, JsonValue)>) -> nat
    decreases paths.len(),
{
    if paths.len() == 0 {
        0
    } else {
        selected_operations(filter, paths.drop_last()) + if path_selected(paths.last().0@, filter) {
            http_operations(operations_of(paths.last().1))
        } else {
            0nat
        }
    }
}

proof fn lemma_sorted_last_below_is_absent<V>(s: Seq<(Seq<char>, V)>, k: Seq<char>)
    requires
        sorted_keys(s),
        s.len() > 0,
        key_lt(s.last().0, k),
    ensures
        lookup(s, k) is None,
{
    assert forall|i: int| 0 <= i < s.len() implies #[trigger] s[i].0 != k by {
        lemma_key_lt_irreflexive(k);
        if i < s.len() - 1 {
            lemma_key_lt_transitive(s[i].0, s.last().0, k);
        }
    }
    lemma_lookup_none(s, k);
}

/// Replacing or adding the module under `k` changes the command total by the
/// difference between the new module and the one it replaces.
proof fn lemma_total_after_insert(s: Seq<(Seq<char>, ModuleModel)>, k: Seq<char>, v: ModuleModel)
    requires
        sorted_keys(s),
    ensures
        total_from(insert_sorted(s, k, v)) + commands_in(s, k).len() == total_from(s)
            + v.commands.len(),
    decreases s.len(),
{
    let r = insert_sorted(s, k, v);
    if s.len() == 0 {
        assert(r.drop_last() =~= Seq::<(Seq<char>, ModuleModel)>::empty());
        assert(total_from(r) == total_from(r.drop_last()) + r.last().1.commands.len());
        assert(commands_in(s, k) =~= Seq::<(Seq<char>, EndpointModel)>::empty());
    } else if s.last().0 == k {
        assert(r.drop_last() =~= s.drop_last());
        assert(total_from(r) == total_from(r.drop_last()) + r.last().1.commands.len());
        assert(total_from(s) == total_from(s.drop_last()) + s.last().1.commands.len());
        assert(commands_in(s, k) == s.last().1.commands);
    } else if key_lt(s.last().0, k) {
        lemma_sorted_last_below_is_absent(s, k);
        assert(r.drop_last() =~= s);
        assert(total_from(r) == total_from(r.drop_last()) + r.last().1.commands.len());
        assert(commands_in(s, k) =~= Seq::<(Seq<char>, EndpointModel)>::empty());
    } else {
        let sd = s.drop_last();
        assert(sorted_keys(sd));
        lemma_total_after_insert(sd, k, v);
        assert(r.drop_last() =~= insert_sorted(sd, k, v));
        assert(total_from(r) == total_from(r.drop_last()) + r.last().1.commands.len());
        assert(total_from(s) == total_from(sd) + s.last().1.commands.len());
        assert(lookup(s, k) == lookup(sd, k));
        assert(commands_in(s, k) == commands_in(sd, k));
    }
}

/// Placing an operation adds one command to the total and keeps the order.
proof fn lemma_place_counts(
    mods: Seq<(Seq<char>, ModuleModel)>,
    module: Seq<char>,
    primary: Seq<char>,
    ep: EndpointModel,
)
    requires
        modules_in_order(mods),
    ensures
        modules_in_order(place(mods, module, primary, ep)),
        total_from(place(mods, module, primary, ep)) == total_from(mods) + 1,
{
    let before = commands_in(mods, module);
    let name = first_free(before, primary, 1);
    let new_mod = ModuleModel { commands: insert_sorted(before, name, ep) };
    let r = place(mods, module, primary, ep);
    assert(sorted_keys(before));
    law_place_adds_command(mods, module, primary, ep);
    assert(r == insert_sorted(mods, module, new_mod));
    lemma_first_free_is_free(before, primary);
    lemma_insert_sorted_new_len(before, name, ep);
    lemma_total_after_insert(mods, module, new_mod);
    assert(new_mod.commands.len() == before.len() + 1);
    lemma_insert_sorted_sorted(mods, module, new_mod);
    lemma_insert_sorted_sorted(before, name, ep);
    assert forall|m: Seq<char>| sorted_keys(#[trigger] commands_in(r, m)) by {
        if m != module {
            assert(lookup(r, m) == lookup(mods, m));
            assert(sorted_keys(commands_in(mods, m)));
        } else {
            lemma_insert_sorted_lookup(mods, module, new_mod, module);
        }
    }
}

proof fn lemma_add_operations_counts(
    mods: Seq<(Seq<char>, ModuleModel)>,
    spec: JsonValue,
    path: Seq<char>,
    path_item: JsonValue,
    ops: Seq<(String, JsonValue)>,
)
    requires
        modules_in_order(mods),
    ensures
        modules_in_order(add_operations(mods, spec, path, path_item, ops)),
        total_from(add_operations(mods, spec, path, path_item, ops)) == total_from(mods)
            + http_operations(ops),
    decreases ops.len(),
{
    if ops.len() > 0 {
        let prev = add_operations(mods, spec, path, path_item, ops.drop_last());
        lemma_add_operations_counts(mods, spec, path, path_item, ops.drop_last());
        let method = ops.last().0@;
        let op = ops.last().1;
        let m = unicode_upper(method);
        if is_http_method(m) {
            let module = module_of(op);
            lemma_place_counts(
                prev,
                module,
                primary_name(op, module, fallback_name(m, path)),
                endpoint_for(spec, path, path_item, method, op),
            );
        }
    }
}

proof fn lemma_add_paths_counts(
    mods: Seq<(Seq<char>, ModuleModel)>,
    spec: JsonValue,
    filter: Option<Seq<char>>,
    paths: Seq<(String, JsonValue)>,
)
    requires
        modules_in_order(mods),
    ensures
        modules_in_order(add_paths(mods, spec, filter, paths)),
        total_from(add_paths(mods, spec, filter, paths)) == total_from(mods) + selected_operations(
            filter,
            paths,
        ),
    decreases paths.len(),
{
    if paths.len() > 0 {
        let prev = add_paths(mods, spec, filter, paths.drop_last());
        lemma_add_paths_counts(mods, spec, filter, paths.drop_last());
        let p = paths.last().0@;
        if path_selected(p, filter) {
            lemma_add_operations_counts(
                prev,
                spec,
                p,
                paths.last().1,
                operations_of(paths.last().1),
            );
        }
    }
}

/// Every selected operation with an HTTP method becomes exactly one command:
/// a generated configuration has as many commands as the API description has
/// such operations under the selected paths.
pub proof fn law_every_operation_becomes_a_command(spec: JsonValue, filter: Option<Seq<char>>)
    ensures
        total_from(generated(spec, filter).modules) == selected_operations(filter, paths_of(spec)),
{
    let empty = Seq::<(Seq<char>, ModuleModel)>::empty();
    assert forall|m: Seq<char>| sorted_keys(#[trigger] commands_in(empty, m)) by {
    }
    lemma_add_paths_counts(empty, spec, filter, paths_of(spec));
}

/// Every command of `mods` calls one of the five HTTP methods on a path the
/// filter selects.
pub open spec fn endpoints_selected(mods: Seq<(Seq<char>, ModuleModel)>, filter: Option<Seq<char>>) -> bool {
    forall|m: Seq<char>, c: Seq<char>|
        #[trigger] lookup(commands_in(mods, m), c) is Some ==> {
            let ep = lookup(commands_in(mods, m), c).unwrap();
            is_http_method(ep.method) && path_selected(ep.path, filter)
        }
}

proof fn lemma_place_selected(
    mods: Seq<(Seq<char>, ModuleModel)>,
    module: Seq<char>,
    primary: Seq<char>,
    ep: EndpointModel,
    filter: Option<Seq<char>>,
)
    requires
        modules_in_order(mods),
        endpoints_selected(mods, filter),
        is_http_method(ep.method),
        path_selected(ep.path, filter),
    ensures
        endpoints_selected(place(mods, module, primary, ep), filter),
{
    let r = place(mods, module, primary, ep);
    let before = commands_in(mods, module);
    let name = first_free(before, primary, 1);
    assert(sorted_keys(before));
    law_place_adds_command(mods, module, primary, ep);
    assert forall|m: Seq<char>, c: Seq<char>| #[trigger] lookup(commands_in(r, m), c) is Some implies {
        let e = lookup(commands_in(r, m), c).unwrap();
        is_http_method(e.method) && path_selected(e.path, filter)
    } by {
        if m != module {
            assert(lookup(r, m) == lookup(mods, m));
            assert(commands_in(r, m) == commands_in(mods, m));
            assert(lookup(commands_in(mods, m), c) is Some);
        } else if c != name {
            assert(lookup(commands_in(mods, m), c) is Some);
        }
    }
}

proof fn lemma_add_operations_selected(
    mods: Seq<(Seq<char>, ModuleModel)>,
    spec: JsonValue,
    path: Seq<char>,
    path_item: JsonValue,
    ops: Seq<(String, JsonValue)>,
    filter: Option<Seq<char>>,
)
    requires
        modules_in_order(mods),
        endpoints_selected(mods, filter),
        path_selected(path, filter),
    ensures
        endpoints_selected(add_operations(mods, spec, path, path_item, ops), filter),
    decreases ops.len(),
{
    if ops.len() > 0 {
        let prev = add_operations(mods, spec, path, path_item, ops.drop_last());
        lemma_add_operations_selected(mods, spec, path, path_item, ops.drop_last(), filter);
        lemma_add_operations_counts(mods, spec, path, path_item, ops.drop_last());
        let method = ops.last().0@;
        let op = ops.last().1;
        let m = unicode_upper(method);
        if is_http_method(m) {
            let module = module_of(op);
            lemma_place_selected(
                prev,
                module,
                primary_name(op, module, fallback_name(m, path)),
                endpoint_for(spec, path, path_item, method, op),
                filter,
            );
        }
    }
}

proof fn lemma_add_paths_selected(
    mods: Seq<(Seq<char>, ModuleModel)>,
    spec: JsonValue,
    filter: Option<Seq<char>>,
    paths: Seq<(String, JsonValue)>,
)
    requires
        modules_in_order(mods),
        endpoints_selected(mods, filter),
    ensures
        endpoints_selected(add_paths(mods, spec, filter, paths), filter),
    decreases paths.len(),
{
    if paths.len() > 0 {
        let prev = add_paths(mods, spec, filter, paths.drop_last());
        lemma_add_paths_selected(mods, spec, filter, paths.drop_last());
        lemma_add_paths_counts(mods, spec, filter, paths.drop_last());
        let p = paths.last().0@;
        if path_selected(p, filter) {
            lemma_add_operations_selected(prev, spec, p, paths.last().1, operations_of(paths.last().1), filter);
        }
    }
}

/// Every command of a generated configuration calls GET, POST, PUT, PATCH
/// or DELETE, on a path that contains the filter when one is given.
pub proof fn law_generated_endpoints_selected(spec: JsonValue, filter: Option<Seq<char>>)
    ensures
        endpoints_selected(generated(spec, filter).modules, filter),
{
    let empty = Seq::<(Seq<char>, ModuleModel)>::empty();
    assert forall|m: Seq<char>| sorted_keys(#[trigger] commands_in(empty, m)) by {
    }
    assert forall|m: Seq<char>, c: Seq<char>| #[trigger] lookup(commands_in(empty, m), c) is Some implies {
        let e = lookup(commands_in(empty, m), c).unwrap();
        is_http_method(e.method) && path_selected(e.path, filter)
    } by {
        assert(commands_in(empty, m) =~= Seq::<(Seq<char>, EndpointModel)>::empty());
    }
    lemma_add_paths_selected(empty, spec, filter, paths_of(spec));
}

proof fn lemma_first_free_from(cmds: Seq<(Seq<char>, EndpointModel)>, p: Seq<char>, k: nat)
    requires
        1 <= k,
        forall|j: nat| 1 <= j < k ==> has_key(cmds, #[trigger] candidate(p, j)),
    ensures
        !has_key(cmds, first_free(cmds, p, k)),
    decreases cmds.len() + 1 - k,
{
    if k > cmds.len() {
        if has_key(cmds, candidate(p, k)) {
            assert forall|j: nat| 1 <= j <= k implies has_key(cmds, #[trigger] candidate(p, j)) by {
            }
            lemma_taken_candidates_bound(cmds, p, k);
        }
    } else if has_key(cmds, candidate(p, k)) {
        assert forall|j: nat| 1 <= j < k + 1 implies has_key(cmds, #[trigger] candidate(p, j)) by {
        }
        lemma_first_free_from(cmds, p, k + 1);
    }
}

// ---------------------------------------------------------------------------
// Building the configuration
// ---------------------------------------------------------------------------

fn cloned_str(v: Option<&JsonValue>) -> (r: Option<String>)
    ensures
        r.deep_view() == str_of(opt(v)),
{
    match get_str(v) {
        Some(s) => Some(s.clone()),
        None => None,
    }
}

fn deref_value<'a>(spec: &'a JsonValue, v: Option<&'a JsonValue>) -> (r: Option<&'a JsonValue>)
    ensures
        opt(r) == deref(*spec, opt(v)),
{
    match get_str(get_field(v, "$ref")) {
        Some(r) => resolve_ref(spec, r.as_str()),
        None => v,
    }
}

fn default_of(v: Option<&JsonValue>) -> (r: Option<String>)
    ensures
        r.deep_view() == default_text(opt(v)),
{
    match v {
        Some(x) => default_to_string(x),
        None => None,
    }
}

fn param_config_of(spec: &JsonValue, p: &JsonValue) -> (r: Option<(String, ParamConfig)>)
    ensures
        match r {
            Some(e) => param_of(*spec, *p) == Some((e.0@, e.1.deep_view())),
            None => param_of(*spec, *p) is None,
        },
{
    let param = deref_value(spec, Some(p));
    match get_str(get_field(param, "name")) {
        None => None,
        Some(name) => {
            let schema = deref_value(spec, get_field(param, "schema"));
            let location = match get_str(get_field(param, "in")) {
                Some(l) => l.clone(),
                None => String::from_str("query"),
            };
            let required = match get_bool(get_field(param, "required")) {
                Some(b) => b,
                None => false,
            };
            let pc = ParamConfig {
                required,
                location,
                description: cloned_str(get_field(param, "description")),
                param_type: cloned_str(get_field(schema, "type")),
                default: default_of(get_field(schema, "default")),
            };
            Some((name.clone(), pc))
        },
    }
}

/// Adds the parameters an OpenAPI `parameters` array declares, resolving
/// `$ref` entries; a name already present is kept as it is.
pub fn extract_params(params_array: &Vec<JsonValue>, params: &mut OrdMap<ParamConfig>, spec: &JsonValue)
    ensures
        final(params)@ == add_params(old(params)@, *spec, params_array@),
{
    let ghost start = params@;
    let mut i: usize = 0;
    while i < params_array.len()
        invariant
            i <= params_array.len(),
            params@ == add_params(start, *spec, params_array@.take(i as int)),
        decreases params_array.len() - i,
    {
        assert(params_array@.take(i + 1).drop_last() =~= params_array@.take(i as int));
        match param_config_of(spec, &params_array[i]) {
            Some((name, pc)) => {
                if !params.contains_key(name.as_str()) {
                    params.insert(name, pc);
                }
            },
            None => {},
        }
        i = i + 1;
    }
    assert(params_array@.take(params_array.len() as int) =~= params_array@);
}

fn required_names(v: Option<&JsonValue>) -> (r: Vec<String>)
    ensures
        r.deep_view() == string_items(items_of(opt(v))),
{
    let mut r: Vec<String> = Vec::new();
    match get_items(v) {
        Some(items) => {
            let mut i: usize = 0;
            while i < items.len()
                invariant
                    i <= items.len(),
                    r.deep_view() == string_items(items@.take(i as int)),
                decreases items.len() - i,
            {
                assert(items@.take(i + 1).drop_last() =~= items@.take(i as int));
                match &items[i] {
                    JsonValue::Str(s) => {
                        let ghost before = r.deep_view();
                        r.push(s.clone());
                        assert(r.deep_view() =~= before.push(s@));
                    },
                    _ => {},
                }
                i = i + 1;
            }
            assert(items@.take(items.len() as int) =~= items@);
        },
        None => {},
    }
    r
}

/// Adds the properties of a request body's schema as body parameters
/// (`application/json` content preferred, else the first content type);
/// a name already present is kept as it is.
pub fn extract_body_params(
    request_body: Option<&JsonValue>,
    params: &mut OrdMap<ParamConfig>,
    spec: &JsonValue,
)
    ensures
        final(params)@ == with_body_params(old(params)@, *spec, opt(request_body)),
{
    let content_v = get_field(request_body, "content");
    let content = match get_members(content_v) {
        Some(c) => c,
        None => {
            return;
        },
    };
    let schema_value = match get_field(content_v, "application/json") {
        Some(ct) => get_field(Some(ct), "schema"),
        None => {
            if content.len() > 0 {
                get_field(Some(&content[0].1), "schema")
            } else {
                return;
            }
        },
    };
    let schema = deref_value(spec, schema_value);
    let props = match get_members(get_field(schema, "properties")) {
        Some(p) => p,
        None => {
            return;
        },
    };
    let required = required_names(get_field(schema, "required"));
    let ghost start = params@;
    let ghost req = required.deep_view();
    let mut i: usize = 0;
    while i < props.len()
        invariant
            i <= props.len(),
            req == required.deep_view(),
            params@ == add_body_props(start, *spec, req, props@.take(i as int)),
        decreases props.len() - i,
    {
        assert(props@.take(i + 1).drop_last() =~= props@.take(i as int));
        let name = &props[i].0;
        if !params.contains_key(name.as_str()) {
            let prop = deref_value(spec, Some(&props[i].1));
            let pc = ParamConfig {
                required: crate::config::vec_contains(&required, name.as_str()),
                location: String::from_str("body"),
                description: cloned_str(get_field(prop, "description")),
                param_type: cloned_str(get_field(prop, "type")),
                default: default_of(get_field(prop, "default")),
            };
            params.insert(name.clone(), pc);
        }
        i = i + 1;
    }
    assert(props@.take(props.len() as int) =~= props@);
}

fn http_method(m: &str) -> (b: bool)
    ensures
        b == is_http_method(m@),
{
    str_eq(m, "GET") || str_eq(m, "POST") || str_eq(m, "PUT") || str_eq(m, "PATCH") || str_eq(
        m,
        "DELETE",
    )
}

fn aliases_of(op_id: Option<&String>, fallback: &String, primary: &String) -> (r: Vec<String>)
    ensures
        r.deep_view() == aliases_for(
            match op_id {
                Some(x) => Some(x@),
                None => None,
            },
            fallback@,
            primary@,
        ),
{
    let mut a: Vec<String> = Vec::new();
    assert(a.deep_view() =~= Seq::<Seq<char>>::empty());
    match op_id {
        Some(id) => {
            if !str_eq(id.as_str(), primary.as_str()) {
                a.push(id.clone());
                assert(a.deep_view() =~= seq![id@]);
            }
        },
        None => {},
    }
    let ghost a0 = a.deep_view();
    if !str_eq(fallback.as_str(), primary.as_str()) && !crate::config::vec_contains(
        &a,
        fallback.as_str(),
    ) {
        a.push(fallback.clone());
        assert(a.deep_view() =~= a0.push(fallback@));
    }
    a
}

fn candidate_name(primary: &String, k: u128) -> (r: String)
    requires
        k >= 2,
    ensures
        r@ == candidate(primary@, k as nat),
{
    let mut v = chars_of(primary.as_str());
    push_str(&mut v, "-");
    let d = decimal_v(k);
    append_chars(&mut v, &d);
    string_of(&v)
}

/// The first of `primary`, `primary-2`, `primary-3`, ... that no command
/// of `cmds` is named.
pub fn free_command_name(cmds: &OrdMap<EndpointConfig>, primary: &String) -> (r: String)
    ensures
        r@ == first_free(cmds@, primary@, 1),
        !has_key(cmds@, r@),
{
    let ghost c = cmds@;
    let ghost p = primary@;
    let n = cmds.len();
    let mut name = primary.clone();
    let mut counter: u128 = 2;
    while cmds.contains_key(name.as_str())
        invariant
            c == cmds@,
            p == primary@,
            n == c.len(),
            2 <= counter <= n + 2,
            name@ == candidate(p, (counter - 1) as nat),
            first_free(c, p, 1) == first_free(c, p, (counter - 1) as nat),
            forall|k: nat| 1 <= k < counter - 1 ==> has_key(c, #[trigger] candidate(p, k)),
        decreases n + 2 - counter,
    {
        proof {
            assert forall|k: nat| 1 <= k <= counter - 1 implies has_key(
                c,
                #[trigger] candidate(p, k),
            ) by {}
            lemma_taken_candidates_bound(c, p, (counter - 1) as nat);
        }
        name = candidate_name(primary, counter);
        counter = counter + 1;
    }
    proof {
        lemma_first_free_is_free(c, p);
    }
    name
}

/// Adds `ep` to `module` (created when missing) under the first free
/// candidate of `primary`.
pub fn place_command(
    modules: &mut OrdMap<ModuleConfig>,
    module: String,
    primary: &String,
    ep: EndpointConfig,
)
    ensures
        final(modules)@ == place(old(modules)@, module@, primary@, ep.deep_view()),
{
    let ghost pre = modules@;
    let ghost epv = ep.deep_view();
    let _ = modules.len();
    let mv = chars_of(module.as_str());
    match modules.position(&mv) {
        Some(i) => {
            let mut m = modules.replace_value_at(i, ModuleConfig { commands: OrdMap::new() });
            let ghost cmds = m.commands@;
            proof {
                lemma_lookup_index(pre, module@, i as int);
            }
            let name = free_command_name(&m.commands, primary);
            m.commands.insert(name, ep);
            let ghost newm = m.deep_view();
            modules.replace_value_at(i, m);
            proof {
                assert forall|j: int| 0 <= j < i implies key_lt(#[trigger] pre[j].0, module@) by {
                    assert(key_lt(pre[j].0, pre[i as int].0));
                }
                lemma_insert_sorted_split(pre, module@, newm, i as int);
            }
        },
        None => {
            let mut cmds: OrdMap<EndpointConfig> = OrdMap::new();
            let name = free_command_name(&cmds, primary);
            cmds.insert(name, ep);
            proof {
                lemma_lookup_none(pre, module@);
            }
            modules.insert(module, ModuleConfig { commands: cmds });
        },
    }
}

fn add_operation_to(
    modules: &mut OrdMap<ModuleConfig>,
    spec: &JsonValue,
    path: &String,
    path_item: &JsonValue,
    method: &String,
    op: &JsonValue,
)
    ensures
        final(modules)@ == add_operation(old(modules)@, *spec, path@, *path_item, method@, *op),
{
    let method_upper = to_upper(method.as_str());
    if !http_method(method_upper.as_str()) {
        return;
    }
    let module_name = match get_str(get_first_item(get_field(Some(op), "tags"))) {
        Some(t) => t.clone(),
        None => String::from_str("misc"),
    };
    let op_id = get_str(get_field(Some(op), "operationId"));
    let summary = get_str(get_field(Some(op), "summary"));
    let fallback = derive_fallback_name(method_upper.as_str(), path.as_str());
    let primary = match summary {
        Some(s) => summary_to_command_name(s.as_str(), module_name.as_str()),
        None => match op_id {
            Some(id) => strip_module_prefix(id.as_str(), module_name.as_str()),
            None => fallback.clone(),
        },
    };
    let aliases = aliases_of(op_id, &fallback, &primary);
    let mut params: OrdMap<ParamConfig> = OrdMap::new();
    match get_items(get_field(Some(op), "parameters")) {
        Some(a) => extract_params(a, &mut params, spec),
        None => {},
    }
    match get_items(get_field(Some(path_item), "parameters")) {
        Some(a) => extract_params(a, &mut params, spec),
        None => {},
    }
    extract_body_params(get_field(Some(op), "requestBody"), &mut params, spec);
    let endpoint = EndpointConfig {
        method: method_upper,
        path: path.clone(),
        summary: cloned_str(get_field(Some(op), "summary")),
        aliases,
        params,
    };
    assert(endpoint.deep_view() == endpoint_for(*spec, path@, *path_item, method@, *op));
    place_command(modules, module_name, &primary, endpoint);
}

/// Whether spec text is JSON rather than YAML: its first non-blank
/// character is `{`.
pub fn looks_like_json(content: &str) -> (b: bool)
    ensures
        b == crate::text::spec_starts_with(trim_start(content@, CharClass::Whitespace), "{"@),
{
    let v = chars_of(content);
    let t = crate::text::trim_start_v(&v, &CharClass::Whitespace);
    let brace = chars_of("{");
    crate::text::starts_with(&t, &brace)
}

/// Builds a site configuration from an API description: one module per
/// first tag (`misc` without one), one command per GET/POST/PUT/PATCH/DELETE
/// operation of each path that contains `filter`; the site's name and base
/// URL from `info.title` and the first server.
pub fn generate_config(spec: &JsonValue, filter: Option<&str>) -> (r: SiteConfig)
    ensures
        r.deep_view() == generated(*spec, opt_str(filter)),
{
    let base = match get_str(get_field(get_first_item(get_field(Some(spec), "servers")), "url")) {
        Some(u) => chars_of(u.as_str()),
        None => chars_of("https://api.github.com"),
    };
    let base_url = trim_end_v(&base, &CharClass::Exactly('/'));
    let site_name = match get_str(get_field(get_field(Some(spec), "info"), "title")) {
        Some(t) => t.clone(),
        None => String::from_str("API"),
    };
    let ghost f = opt_str(filter);
    let mut modules: OrdMap<ModuleConfig> = OrdMap::new();
    match get_members(get_field(Some(spec), "paths")) {
        Some(paths) => {
            let mut i: usize = 0;
            while i < paths.len()
                invariant
                    i <= paths.len(),
                    f == opt_str(filter),
                    modules@ == add_paths(Seq::empty(), *spec, f, paths@.take(i as int)),
                decreases paths.len() - i,
            {
                assert(paths@.take(i + 1).drop_last() =~= paths@.take(i as int));
                let path = &paths[i].0;
                let item = &paths[i].1;
                let selected = match filter {
                    Some(fs) => {
                        let pv = chars_of(path.as_str());
                        let fv = chars_of(fs);
                        crate::text::contains(&pv, &fv)
                    },
                    None => true,
                };
                if selected {
                    match get_members(Some(item)) {
                        Some(ops) => {
                            let ghost start = modules@;
                            let mut j: usize = 0;
                            while j < ops.len()
                                invariant
                                    j <= ops.len(),
                                    modules@ == add_operations(
                                        start,
                                        *spec,
                                        path@,
                                        *item,
                                        ops@.take(j as int),
                                    ),
                                decreases ops.len() - j,
                            {
                                assert(ops@.take(j + 1).drop_last() =~= ops@.take(j as int));
                                add_operation_to(
                                    &mut modules,
                                    spec,
                                    path,
                                    item,
                                    &ops[j].0,
                                    &ops[j].1,
                                );
                                j = j + 1;
                            }
                            assert(ops@.take(ops.len() as int) =~= ops@);
                        },
                        None => {},
                    }
                }
                i = i + 1;
            }
            assert(paths@.take(paths.len() as int) =~= paths@);
        },
        None => {},
    }
    SiteConfig {
        site: Some(
            SiteInfo {
                name: Some(site_name),
                base_url: Some(string_of(&base_url)),
                auth: None,
                headers: None,
            },
        ),
        modules,
    }
}

/// The warnings to show for an API description: see `generation_warnings`.
pub fn warnings_for(spec: &JsonValue) -> (r: Vec<String>)
    ensures
        r.deep_view() == generation_warnings(*spec),
{
    let mut out: Vec<String> = Vec::new();
    if get_str(get_field(get_first_item(get_field(Some(spec), "servers")), "url")).is_none() {
        out.push(String::from_str(
            "Warning: no server URL found in OpenAPI spec, falling back to https://api.github.com",
        ));
    }
    let ghost first = out.deep_view();
    if get_str(get_field(get_field(Some(spec), "info"), "title")).is_none() {
        out.push(String::from_str("Warning: no info.title found in OpenAPI spec, using 'API'"));
        assert(out.deep_view() =~= first.push("Warning: no info.title found in OpenAPI spec, using 'API'"@));
    }
    proof {
        assert(first =~= (if str_of(field(first_item(field(Some(*spec), "servers"@)), "url"@)) is None {
            seq!["Warning: no server URL found in OpenAPI spec, falling back to https://api.github.com"@]
        } else {
            Seq::<Seq<char>>::empty()
        }));
    }
    out
}

} // verus!
