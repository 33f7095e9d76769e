//! A parsed JSON (or YAML) document as the generator reads it, with the
//! lookups an OpenAPI description needs and local `$ref` resolution.

use vstd::prelude::*;
use crate::text::{
    opt_text,
    chars_of, push_str, split_on, split_on_v, str_eq, strip_prefix_repeated,
    strip_prefix_repeated_v, string_of,
};

verus! {

/// A JSON value. Numbers keep the text serde_json prints for them; object
/// members keep the order the parser gave them (serde_json's default map is
/// ordered by key, so keys there are sorted and distinct).
pub enum JsonValue {
    Null,
    Bool(bool),
    Number(String),
    Str(String),
    Array(Vec<JsonValue>),
    Object(Vec<(String, JsonValue)>),
}

// ---------------------------------------------------------------------------
// Lookups. A missing value and `null` behave alike, as with serde_json's
// `value["key"]`, so lookups are written over `Option<JsonValue>`.
// ---------------------------------------------------------------------------

/// The value a borrowed lookup result stands for.
pub open spec fn opt(r: Option<&JsonValue>) -> Option<JsonValue> {
    match r {
        Some(x) => Some(*x),
        None => None,
    }
}

/// The value of the first member named `k`.
pub open spec fn member(es: Seq<(String, JsonValue)>, k: Seq<char>) -> Option<JsonValue>
    decreases es.len(),
{
    if es.len() == 0 {
        None
    } else if es[0].0@ == k {
        Some(es[0].1)
    } else {
        member(es.drop_first(), k)
    }
}

/// `v[k]`: the member `k` of an object, nothing otherwise.
pub open spec fn field(v: Option<JsonValue>, k: Seq<char>) -> Option<JsonValue> {
    match v {
        Some(JsonValue::Object(es)) => member(es@, k),
        _ => None,
    }
}

/// The first element of an array.
pub open spec fn first_item(v: Option<JsonValue>) -> Option<JsonValue> {
    match v {
        Some(JsonValue::Array(a)) => if a@.len() > 0 {
            Some(a@[0])
        } else {
            None
        },
        _ => None,
    }
}

pub open spec fn str_of(v: Option<JsonValue>) -> Option<Seq<char>> {
    match v {
        Some(JsonValue::Str(s)) => Some(s@),
        _ => None,
    }
}

pub open spec fn bool_of(v: Option<JsonValue>) -> Option<bool> {
    match v {
        Some(JsonValue::Bool(b)) => Some(b),
        _ => None,
    }
}

/// The elements of an array; none for anything else.
pub open spec fn items_of(v: Option<JsonValue>) -> Seq<JsonValue> {
    match v {
        Some(JsonValue::Array(a)) => a@,
        _ => Seq::empty(),
    }
}

/// The members of an object, if it is one.
pub open spec fn members_of(v: Option<JsonValue>) -> Option<Seq<(String, JsonValue)>> {
    match v {
        Some(JsonValue::Object(es)) => Some(es@),
        _ => None,
    }
}

pub fn get_field<'a>(v: Option<&'a JsonValue>, k: &str) -> (r: Option<&'a JsonValue>)
    ensures
        opt(r) == field(opt(v), k@),
{
    match v {
        Some(JsonValue::Object(es)) => {
            let mut i: usize = 0;
            assert(es@.skip(0) =~= es@);
            while i < es.len()
                invariant
                    i <= es.len(),
                    field(opt(v), k@) == member(es@.skip(i as int), k@),
                decreases es.len() - i,
            {
                assert(es@.skip(i as int)[0] == es@[i as int]);
                assert(es@.skip(i as int).drop_first() =~= es@.skip(i + 1));
                if str_eq(es[i].0.as_str(), k) {
                    assert(member(es@.skip(i as int), k@) == Some(es@[i as int].1));
                    return Some(&es[i].1);
                }
                i = i + 1;
            }
            None
        },
        _ => None,
    }
}

pub fn get_first_item<'a>(v: Option<&'a JsonValue>) -> (r: Option<&'a JsonValue>)
    ensures
        opt(r) == first_item(opt(v)),
{
    match v {
        Some(JsonValue::Array(a)) => if a.len() > 0 {
            Some(&a[0])
        } else {
            None
        },
        _ => None,
    }
}

pub fn get_str<'a>(v: Option<&'a JsonValue>) -> (r: Option<&'a String>)
    ensures
        match r {
            Some(s) => str_of(opt(v)) == Some(s@),
            None => str_of(opt(v)) is None,
        },
{
    match v {
        Some(JsonValue::Str(s)) => Some(s),
        _ => None,
    }
}

pub fn get_bool(v: Option<&JsonValue>) -> (r: Option<bool>)
    ensures
        r == bool_of(opt(v)),
{
    match v {
        Some(JsonValue::Bool(b)) => Some(*b),
        _ => None,
    }
}

pub fn get_items<'a>(v: Option<&'a JsonValue>) -> (r: Option<&'a Vec<JsonValue>>)
    ensures
        match r {
            Some(a) => items_of(opt(v)) == a@,
            None => items_of(opt(v)) == Seq::<JsonValue>::empty(),
        },
{
    match v {
        Some(JsonValue::Array(a)) => Some(a),
        _ => None,
    }
}

pub fn get_members<'a>(v: Option<&'a JsonValue>) -> (r: Option<&'a Vec<(String, JsonValue)>>)
    ensures
        match r {
            Some(es) => members_of(opt(v)) == Some(es@),
            None => members_of(opt(v)) is None,
        },
{
    match v {
        Some(JsonValue::Object(es)) => Some(es),
        _ => None,
    }
}

// ---------------------------------------------------------------------------
// Compact text
// ---------------------------------------------------------------------------

/// The JSON string literal serde_json writes for `s`: quoted, escaped.
pub uninterp spec fn json_quoted(s: Seq<char>) -> Seq<char>;

/// Whether `serde_json::from_str::<serde_json::Value>` accepts `text`.
pub uninterp spec fn json_accepts(text: Seq<char>) -> bool;

/// Whether `text` is a JSON document, by `serde_json::from_str::<Value>`.
#[verifier::external_body]
pub(crate) fn accepts_json(text: &str) -> (b: bool)
    ensures
        b == json_accepts(text@),
{
    serde_json::from_str::<serde_json::Value>(text).is_ok()
}

/// What `serde_json::to_string` writes for the document `text` once
/// `serde_json::from_str::<Value>` has read it.
pub uninterp spec fn json_compact(text: Seq<char>) -> Option<Seq<char>>;

/// Reads `text` with `serde_json::from_str::<Value>` and writes it back with
/// `serde_json::to_string`; nothing when `text` is not JSON.
#[verifier::external_body]
fn compact_json(text: &str) -> (r: Option<String>)
    ensures
        opt_text(r) == json_compact(text@),
        !json_accepts(text@) ==> r is None,
{
    match serde_json::from_str::<serde_json::Value>(text) {
        Ok(v) => serde_json::to_string(&v).ok(),
        Err(_) => None,
    }
}

/// The JSON text sent for a value given on the command line: the value
/// itself, written compactly, when it is JSON; else the value as a JSON
/// string.
pub open spec fn value_json(text: Seq<char>) -> Seq<char> {
    match json_compact(text) {
        Some(c) => c,
        None => json_quoted(text),
    }
}

pub fn value_json_text(text: &str) -> (r: String)
    ensures
        r@ == value_json(text@),
{
    match compact_json(text) {
        Some(c) => c,
        None => quote_json(text),
    }
}

/// `serde_json::to_string` on a string slice: the quoted and escaped JSON
/// literal. Serializing a `str` into memory cannot fail; the empty string
/// stands in for the error branch that serde_json's signature carries.
#[verifier::external_body]
pub(crate) fn quote_json(s: &str) -> (r: String)
    ensures
        r@ == json_quoted(s@),
{
    match serde_json::to_string(s) {
        Ok(t) => t,
        Err(_) => String::new(),
    }
}

/// The compact JSON text of a value, as `serde_json::to_string` writes it:
/// no whitespace, members in stored order.
pub open spec fn json_text(v: JsonValue) -> Seq<char>
    decreases v, 0nat,
{
    match v {
        JsonValue::Null => "null"@,
        JsonValue::Bool(b) => if b {
            "true"@
        } else {
            "false"@
        },
        JsonValue::Number(n) => n@,
        JsonValue::Str(s) => json_quoted(s@),
        JsonValue::Array(items) => "["@ + items_text(items, items.len() as nat) + "]"@,
        JsonValue::Object(es) => "{"@ + members_text(es, es.len() as nat) + "}"@,
    }
}

/// The texts of the first `n` elements, separated by commas.
pub open spec fn items_text(items: Vec<JsonValue>, n: nat) -> Seq<char>
    decreases items, n,
{
    if n == 0 || n > items.len() {
        Seq::empty()
    } else if n == 1 {
        json_text(items[0])
    } else {
        items_text(items, (n - 1) as nat) + ","@ + json_text(items[n - 1])
    }
}

/// `"key":value` for the first `n` members, separated by commas.
pub open spec fn members_text(es: Vec<(String, JsonValue)>, n: nat) -> Seq<char>
    decreases es, n,
{
    if n == 0 || n > es.len() {
        Seq::empty()
    } else if n == 1 {
        json_quoted(es[0].0@) + ":"@ + json_text(es[0].1)
    } else {
        members_text(es, (n - 1) as nat) + ","@ + json_quoted(es[n - 1].0@) + ":"@ + json_text(
            es[n - 1].1,
        )
    }
}

fn write_text(v: &JsonValue, out: &mut Vec<char>)
    ensures
        final(out)@ == old(out)@ + json_text(*v),
    decreases v,
{
    match v {
        JsonValue::Null => push_str(out, "null"),
        JsonValue::Bool(b) => if *b {
            push_str(out, "true")
        } else {
            push_str(out, "false")
        },
        JsonValue::Number(n) => push_str(out, n.as_str()),
        JsonValue::Str(t) => {
            let q = quote_json(t.as_str());
            push_str(out, q.as_str());
        },
        JsonValue::Array(items) => {
            let ghost pre = out@;
            push_str(out, "[");
            let mut i: usize = 0;
            while i < items.len()
                invariant
                    i <= items.len(),
                    out@ == pre + "["@ + items_text(*items, i as nat),
                *v == JsonValue::Array(*items),
                decreases items.len() - i,
            {
                if i > 0 {
                    push_str(out, ",");
                }
                proof {
                    assert(decreases_to!(*items => items[i as int]));
                    assert(decreases_to!(*v => (*v)->Array_0));
                    assert(decreases_to!(*v => *items));
                    assert(decreases_to!(*v => items[i as int]));
                }
                write_text(&items[i], out);
                proof {
                    if i == 0 {
                        assert(items_text(*items, 1) == json_text(items@[0]));
                        assert(out@ =~= pre + "["@ + items_text(*items, 1));
                    } else {
                        assert(items_text(*items, (i + 1) as nat) == items_text(*items, i as nat)
                            + ","@ + json_text(items@[i as int]));
                        assert(out@ =~= pre + "["@ + items_text(*items, (i + 1) as nat));
                    }
                }
                i = i + 1;
            }
            push_str(out, "]");
        },
        JsonValue::Object(es) => {
            let ghost pre = out@;
            push_str(out, "{");
            let mut i: usize = 0;
            while i < es.len()
                invariant
                    i <= es.len(),
                    out@ == pre + "{"@ + members_text(*es, i as nat),
                *v == JsonValue::Object(*es),
                decreases es.len() - i,
            {
                if i > 0 {
                    push_str(out, ",");
                }
                let q = quote_json(es[i].0.as_str());
                push_str(out, q.as_str());
                push_str(out, ":");
                proof {
                    assert(decreases_to!(*es => es[i as int]));
                    assert(decreases_to!(es[i as int] => es[i as int].1));
                    assert(decreases_to!(*v => (*v)->Object_0));
                    assert(decreases_to!(*v => *es));
                    assert(decreases_to!(*v => es[i as int].1));
                }
                write_text(&es[i].1, out);
                proof {
                    if i == 0 {
                        assert(members_text(*es, 1) == json_quoted(es@[0].0@) + ":"@ + json_text(
                            es@[0].1,
                        ));
                        assert(out@ =~= pre + "{"@ + members_text(*es, 1));
                    } else {
                        assert(members_text(*es, (i + 1) as nat) == members_text(*es, i as nat)
                            + ","@ + json_quoted(es@[i as int].0@) + ":"@ + json_text(
                            es@[i as int].1,
                        ));
                        assert(out@ =~= pre + "{"@ + members_text(*es, (i + 1) as nat));
                    }
                }
                i = i + 1;
            }
            push_str(out, "}");
        },
    }
}

/// The compact JSON text of `v`.
pub fn compact_text(v: &JsonValue) -> (r: String)
    ensures
        r@ == json_text(*v),
{
    let mut out: Vec<char> = Vec::new();
    write_text(v, &mut out);
    assert(out@ =~= json_text(*v));
    string_of(&out)
}

/// A schema default as the configuration stores it: a string as it is,
/// `null` as nothing, anything else as its compact JSON text.
pub open spec fn default_text(v: Option<JsonValue>) -> Option<Seq<char>> {
    match v {
        None => None,
        Some(JsonValue::Null) => None,
        Some(JsonValue::Str(t)) => Some(t@),
        Some(x) => Some(json_text(x)),
    }
}

/// Converts a JSON default value to its string form for the configuration.
pub fn default_to_string(val: &JsonValue) -> (r: Option<String>)
    ensures
        r.deep_view() == default_text(Some(*val)),
{
    match val {
        JsonValue::Null => None,
        JsonValue::Str(t) => Some(t.clone()),
        _ => Some(compact_text(val)),
    }
}

// ---------------------------------------------------------------------------
// Local references
// ---------------------------------------------------------------------------

/// Longest chain of `$ref` hops followed before giving up.
pub const MAX_REF_DEPTH: usize = 32;

/// Follows object members named by `segs`, in order.
pub open spec fn walk(cur: Option<JsonValue>, segs: Seq<Seq<char>>) -> Option<JsonValue>
    decreases segs.len(),
{
    if segs.len() == 0 {
        cur
    } else {
        field(walk(cur, segs.drop_last()), segs.last())
    }
}

/// What a pointer like `#/components/schemas/Repo` points at in `spec`.
pub open spec fn ref_target(spec: JsonValue, ref_path: Seq<char>) -> Option<JsonValue> {
    walk(Some(spec), split_on(strip_prefix_repeated(ref_path, "#/"@), '/'))
}

/// The value at the end of a `$ref` chain started at hop `depth`; nothing
/// when a segment is missing or the chain is longer than `MAX_REF_DEPTH`.
pub open spec fn resolve(spec: JsonValue, ref_path: Seq<char>, depth: nat) -> Option<JsonValue>
    decreases MAX_REF_DEPTH + 1 - depth,
{
    if depth > MAX_REF_DEPTH {
        None
    } else {
        let t = ref_target(spec, ref_path);
        match str_of(field(t, "$ref"@)) {
            Some(next) => resolve(spec, next, depth + 1),
            None => t,
        }
    }
}

pub fn resolve_ref_depth<'a>(spec: &'a JsonValue, ref_path: &str, depth: usize) -> (r: Option<
    &'a JsonValue,
>)
    ensures
        opt(r) == resolve(*spec, ref_path@, depth as nat),
    decreases MAX_REF_DEPTH + 1 - depth,
{
    if depth > MAX_REF_DEPTH {
        return None;
    }
    let rp = chars_of(ref_path);
    let hash = chars_of("#/");
    let path = strip_prefix_repeated_v(&rp, &hash);
    let segs = split_on_v(&path, '/');
    let ghost sv = crate::text::views(segs@);
    let mut cur: Option<&JsonValue> = Some(spec);
    let mut i: usize = 0;
    while i < segs.len()
        invariant
            i <= segs.len(),
            sv == crate::text::views(segs@),
            opt(cur) == walk(Some(*spec), sv.take(i as int)),
        decreases segs.len() - i,
    {
        assert(sv.take(i + 1).drop_last() =~= sv.take(i as int));
        let seg = string_of(&segs[i]);
        cur = get_field(cur, seg.as_str());
        i = i + 1;
    }
    assert(sv.take(segs.len() as int) =~= sv);
    match get_str(get_field(cur, "$ref")) {
        Some(next) => resolve_ref_depth(spec, next.as_str(), depth + 1),
        None => cur,
    }
}

/// The reference the target of `r` makes in turn, if it is one.
pub open spec fn next_ref(spec: JsonValue, r: Seq<char>) -> Option<Seq<char>> {
    str_of(field(ref_target(spec, r), "$ref"@))
}

/// A cycle of references resolves to nothing: resolution stops instead of
/// following it forever.
pub proof fn law_ref_cycle_resolves_to_nothing(
    spec: JsonValue,
    cycle: Seq<Seq<char>>,
    i: int,
    depth: nat,
)
    requires
        0 <= i < cycle.len(),
        forall|k: int|
            0 <= k < cycle.len() ==> next_ref(spec, #[trigger] cycle[k]) == Some(
                cycle[(k + 1) % (cycle.len() as int)],
            ),
    ensures
        resolve(spec, cycle[i], depth) is None,
    decreases MAX_REF_DEPTH + 1 - depth,
{
    if depth <= MAX_REF_DEPTH {
        let j = (i + 1) % (cycle.len() as int);
        assert(next_ref(spec, cycle[i]) == Some(cycle[j]));
        law_ref_cycle_resolves_to_nothing(spec, cycle, j, depth + 1);
    }
}

/// Resolves a local `$ref` pointer, following chained references.
pub fn resolve_ref<'a>(spec: &'a JsonValue, ref_path: &str) -> (r: Option<&'a JsonValue>)
    ensures
        opt(r) == resolve(*spec, ref_path@, 0),
{
    resolve_ref_depth(spec, ref_path, 0)
}

} // verus!
