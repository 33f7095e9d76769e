//! Authentication: which headers a site's auth settings produce.
//!
//! Reading the token from the environment and running a signing script are
//! done by the caller; this module decides what is needed, builds the headers
//! from the token, and reads the headers a script printed.

use vstd::prelude::*;
use crate::config::AuthConfig;
use crate::ordmap::{OrdMap, insert_sorted};
use crate::text::{
    CharClass, all_ascii, append_chars, ascii_lower, ascii_upper, char_to_upper, chars_of,
    first_index_of, first_index_of_v, join, join_v, lemma_split_on_nonempty, map_ascii_lower,
    spec_is_ascii, split_on, split_on_v, str_eq, string_of, to_lower, trim, trim_v, unicode_lower,
    unicode_upper_char, views,
};

verus! {

// ---------------------------------------------------------------------------
// Header names
// ---------------------------------------------------------------------------

/// One `-`-separated part of a header name: first character uppercased,
/// the rest lowercased.
pub open spec fn title_case_part(p: Seq<char>) -> Seq<char> {
    if p.len() == 0 {
        Seq::<char>::empty()
    } else {
        unicode_upper_char(p[0]) + unicode_lower(p.drop_first())
    }
}

/// The Title-Case form of a header name: each `-`-separated part title-cased,
/// empty parts dropped, rejoined with `-`.
pub open spec fn normalized_header(name: Seq<char>) -> Seq<char> {
    join(
        split_on(name, '-').map_values(|p: Seq<char>| title_case_part(p)).filter(
            |p: Seq<char>| p.len() > 0,
        ),
        "-"@,
    )
}

/// A header-name part with ASCII letters only: first letter uppercased,
/// the rest lowercased.
pub open spec fn ascii_title_part(p: Seq<char>) -> Seq<char> {
    if p.len() == 0 {
        Seq::<char>::empty()
    } else {
        seq![ascii_upper(p[0])] + map_ascii_lower(p.drop_first())
    }
}

/// `normalized_header` on ASCII names, where case mapping is ASCII's.
pub open spec fn ascii_header(name: Seq<char>) -> Seq<char> {
    join(
        split_on(name, '-').map_values(|p: Seq<char>| ascii_title_part(p)).filter(
            |p: Seq<char>| p.len() > 0,
        ),
        "-"@,
    )
}

proof fn lemma_split_on_ascii(s: Seq<char>, c: char)
    ensures
        all_ascii(s) ==> forall|k: int|
            0 <= k < split_on(s, c).len() ==> all_ascii(#[trigger] split_on(s, c)[k]),
    decreases s.len(),
{
    if s.len() > 0 && all_ascii(s) {
        let init = s.drop_last();
        assert(all_ascii(init)) by {
            assert forall|i: int| 0 <= i < init.len() implies spec_is_ascii(#[trigger] init[i]) by {
                assert(init[i] == s[i]);
            }
        }
        lemma_split_on_ascii(init, c);
        lemma_split_on_nonempty(init, c);
        let r = split_on(init, c);
        assert(spec_is_ascii(s[s.len() - 1]));
        if s.last() != c {
            let lastp = r.last().push(s.last());
            assert(all_ascii(r[r.len() - 1]));
            assert(all_ascii(lastp)) by {
                assert forall|i: int| 0 <= i < lastp.len() implies spec_is_ascii(#[trigger] lastp[i]) by {
                    if i < lastp.len() - 1 {
                        assert(lastp[i] == r.last()[i]);
                    }
                }
            }
        }
    }
}

proof fn lemma_lower_keeps_dash(c: char)
    ensures
        (ascii_lower(c) == '-') == (c == '-'),
        ascii_lower(ascii_lower(c)) == ascii_lower(c),
        ascii_upper(ascii_lower(c)) == ascii_upper(c),
{
    if 'A' <= c && c <= 'Z' {
        assert(ascii_lower(c) as u32 == c as u32 + 32);
    }
}

proof fn lemma_split_on_lower(s: Seq<char>)
    ensures
        split_on(map_ascii_lower(s), '-') == split_on(s, '-').map_values(
            |p: Seq<char>| map_ascii_lower(p),
        ),
    decreases s.len(),
{
    let ls = map_ascii_lower(s);
    if s.len() == 0 {
        assert(ls =~= Seq::<char>::empty());
        assert(map_ascii_lower(Seq::<char>::empty()) =~= Seq::<char>::empty());
        assert(split_on(s, '-') == seq![Seq::<char>::empty()]);
        assert(split_on(s, '-').map_values(|p: Seq<char>| map_ascii_lower(p)) =~= seq![
            Seq::<char>::empty(),
        ]);
    } else {
        let init = s.drop_last();
        assert(ls.drop_last() =~= map_ascii_lower(init));
        lemma_split_on_lower(init);
        lemma_split_on_nonempty(init, '-');
        lemma_lower_keeps_dash(s.last());
        let r = split_on(init, '-');
        let lr = split_on(map_ascii_lower(init), '-');
        assert(ls.last() == ascii_lower(s.last()));
        if s.last() == '-' {
            assert(split_on(s, '-').map_values(|p: Seq<char>| map_ascii_lower(p)) =~= lr.push(
                Seq::<char>::empty(),
            )) by {
                assert(map_ascii_lower(Seq::<char>::empty()) =~= Seq::<char>::empty());
            }
        } else {
            assert(map_ascii_lower(r.last().push(s.last())) =~= lr.last().push(ascii_lower(s.last())));
            assert(split_on(s, '-').map_values(|p: Seq<char>| map_ascii_lower(p)) =~= lr.update(
                lr.len() - 1,
                lr.last().push(ascii_lower(s.last())),
            ));
        }
    }
}

proof fn lemma_title_part_lower(p: Seq<char>)
    ensures
        ascii_title_part(map_ascii_lower(p)) == ascii_title_part(p),
{
    if p.len() > 0 {
        lemma_lower_keeps_dash(p[0]);
        let lp = map_ascii_lower(p);
        assert(lp.drop_first() =~= map_ascii_lower(p.drop_first()));
        assert forall|i: int| 0 <= i < p.drop_first().len() implies #[trigger] map_ascii_lower(
            map_ascii_lower(p.drop_first()),
        )[i] == map_ascii_lower(p.drop_first())[i] by {
            lemma_lower_keeps_dash(p.drop_first()[i]);
        }
        assert(map_ascii_lower(map_ascii_lower(p.drop_first())) =~= map_ascii_lower(p.drop_first()));
    }
}

proof fn lemma_header_lower(name: Seq<char>)
    ensures
        ascii_header(map_ascii_lower(name)) == ascii_header(name),
{
    lemma_split_on_lower(name);
    let parts = split_on(name, '-');
    let a = split_on(map_ascii_lower(name), '-').map_values(|p: Seq<char>| ascii_title_part(p));
    let b = parts.map_values(|p: Seq<char>| ascii_title_part(p));
    assert forall|i: int| 0 <= i < b.len() implies #[trigger] a[i] == b[i] by {
        lemma_title_part_lower(parts[i]);
    }
    assert(a =~= b);
}

/// Header names that differ only in ASCII letter case are normalized to the
/// same name, so one header is never sent twice under different casings.
pub proof fn law_header_case_insensitive(a: Seq<char>, b: Seq<char>)
    requires
        map_ascii_lower(a) == map_ascii_lower(b),
    ensures
        ascii_header(a) == ascii_header(b),
{
    lemma_header_lower(a);
    lemma_header_lower(b);
}

proof fn lemma_upper_keeps_dash(c: char)
    ensures
        (ascii_upper(c) == '-') == (c == '-'),
        ascii_upper(ascii_upper(c)) == ascii_upper(c),
{
    if 'a' <= c && c <= 'z' {
        assert(ascii_upper(c) as u32 == c as u32 - 32);
    }
}

proof fn lemma_title_part_idempotent(p: Seq<char>)
    ensures
        ascii_title_part(ascii_title_part(p)) == ascii_title_part(p),
        !p.contains('-') ==> !ascii_title_part(p).contains('-'),
{
    if p.len() > 0 {
        let t = ascii_title_part(p);
        let rest = map_ascii_lower(p.drop_first());
        lemma_upper_keeps_dash(p[0]);
        assert(t.drop_first() =~= rest);
        assert(t[0] == ascii_upper(p[0]));
        assert forall|i: int| 0 <= i < rest.len() implies #[trigger] map_ascii_lower(rest)[i] == rest[i] by {
            lemma_lower_keeps_dash(p.drop_first()[i]);
        }
        assert(map_ascii_lower(rest) =~= rest);
        assert(ascii_title_part(t) =~= t);
        if !p.contains('-') {
            assert forall|i: int| 0 <= i < t.len() implies t[i] != '-' by {
                if i == 0 {
                } else {
                    assert(t[i] == rest[i - 1]);
                    lemma_lower_keeps_dash(p.drop_first()[i - 1]);
                    assert(p.drop_first()[i - 1] == p[i]);
                }
            }
        }
    }
}

pub proof fn lemma_split_pieces_dash_free(s: Seq<char>)
    ensures
        forall|k: int| 0 <= k < split_on(s, '-').len() ==> !(#[trigger] split_on(s, '-')[k]).contains('-'),
    decreases s.len(),
{
    if s.len() > 0 {
        let d = s.drop_last();
        lemma_split_pieces_dash_free(d);
        lemma_split_on_nonempty(d, '-');
        let r = split_on(d, '-');
        let out = split_on(s, '-');
        if s.last() == '-' {
            assert(out == r.push(Seq::<char>::empty()));
            assert forall|k: int| 0 <= k < out.len() implies !(#[trigger] out[k]).contains('-') by {
                if k < r.len() {
                    assert(out[k] == r[k]);
                }
            }
        } else {
            let lp = r.last().push(s.last());
            assert(out == r.update(r.len() - 1, lp));
            assert(!r[r.len() - 1].contains('-'));
            assert forall|i: int| 0 <= i < lp.len() implies lp[i] != '-' by {
                if i < lp.len() - 1 {
                    assert(lp[i] == r.last()[i]);
                }
            }
            assert forall|k: int| 0 <= k < out.len() implies !(#[trigger] out[k]).contains('-') by {
                if k < r.len() - 1 {
                    assert(out[k] == r[k]);
                }
            }
        }
    }
}

proof fn lemma_split_dash_free(w: Seq<char>)
    requires
        !w.contains('-'),
    ensures
        split_on(w, '-') == seq![w],
    decreases w.len(),
{
    if w.len() > 0 {
        let d = w.drop_last();
        assert(!d.contains('-')) by {
            assert forall|i: int| 0 <= i < d.len() implies d[i] != '-' by {
                assert(d[i] == w[i]);
            }
        }
        lemma_split_dash_free(d);
        assert(w.last() != '-') by {
            assert(w[w.len() - 1] == w.last());
        }
        assert(w.drop_last() == d);
        assert(split_on(w, '-') == seq![d].update(0, d.push(w.last())));
        assert(d.push(w.last()) =~= w);
        assert(seq![d].update(0, w) =~= seq![w]);
    } else {
        assert(w =~= Seq::<char>::empty());
    }
}

proof fn lemma_split_after_dash(a: Seq<char>, b: Seq<char>)
    requires
        !b.contains('-'),
    ensures
        split_on(a + seq!['-'] + b, '-') == split_on(a, '-').push(b),
    decreases b.len(),
{
    let s = a + seq!['-'] + b;
    if b.len() == 0 {
        assert(s =~= a.push('-'));
        assert(s.drop_last() =~= a);
        assert(s.last() == '-');
        assert(b =~= Seq::<char>::empty());
        assert(split_on(s, '-') == split_on(s.drop_last(), '-').push(Seq::<char>::empty()));
    } else {
        let bd = b.drop_last();
        assert(!bd.contains('-')) by {
            assert forall|i: int| 0 <= i < bd.len() implies bd[i] != '-' by {
                assert(bd[i] == b[i]);
            }
        }
        lemma_split_after_dash(a, bd);
        assert(s.drop_last() =~= a + seq!['-'] + bd);
        assert(s.last() == b.last());
        assert(b.last() != '-') by {
            assert(b[b.len() - 1] == b.last());
        }
        let r = split_on(a, '-').push(bd);
        assert(split_on(s, '-') == r.update(r.len() - 1, r.last().push(s.last())));
        assert(bd.push(b.last()) =~= b);
        assert(r.update(r.len() - 1, bd.push(b.last())) =~= split_on(a, '-').push(b));
    }
}

pub proof fn lemma_split_join(ws: Seq<Seq<char>>)
    requires
        ws.len() >= 1,
        forall|i: int| 0 <= i < ws.len() ==> !(#[trigger] ws[i]).contains('-'),
    ensures
        split_on(join(ws, "-"@), '-') == ws,
    decreases ws.len(),
{
    reveal_strlit("-");
    if ws.len() == 1 {
        lemma_split_dash_free(ws[0]);
        assert(seq![ws[0]] =~= ws);
    } else {
        let d = ws.drop_last();
        assert forall|i: int| 0 <= i < d.len() implies !(#[trigger] d[i]).contains('-') by {
            assert(d[i] == ws[i]);
        }
        lemma_split_join(d);
        assert("-"@ =~= seq!['-']);
        assert(ws[ws.len() - 1] == ws.last());
        lemma_split_after_dash(join(d, "-"@), ws.last());
        assert(d.push(ws.last()) =~= ws);
    }
}

proof fn lemma_filter_keeps_all(ws: Seq<Seq<char>>, pred: spec_fn(Seq<char>) -> bool)
    requires
        forall|i: int| 0 <= i < ws.len() ==> pred(#[trigger] ws[i]),
    ensures
        ws.filter(pred) == ws,
    decreases ws.len(),
{
    reveal(Seq::filter);
    if ws.len() > 0 {
        let d = ws.drop_last();
        assert forall|i: int| 0 <= i < d.len() implies pred(#[trigger] d[i]) by {
            assert(d[i] == ws[i]);
        }
        lemma_filter_keeps_all(d, pred);
        assert(pred(ws[ws.len() - 1]));
        assert(d.push(ws.last()) =~= ws);
    }
}

/// Normalizing a normalized header name changes nothing: for ASCII names
/// (see `normalize_header_name`) the Title-Case form is a fixed point.
pub proof fn law_header_normalization_idempotent(name: Seq<char>)
    ensures
        ascii_header(ascii_header(name)) == ascii_header(name),
{
    broadcast use Seq::lemma_filter_contains_rev, Seq::lemma_filter_pred;

    let parts = split_on(name, '-');
    let mapped = parts.map_values(|p: Seq<char>| ascii_title_part(p));
    let ws = mapped.filter(|p: Seq<char>| p.len() > 0);
    let h = join(ws, "-"@);
    assert(h == ascii_header(name));
    lemma_split_pieces_dash_free(name);
    assert forall|i: int| 0 <= i < ws.len() implies !(#[trigger] ws[i]).contains('-') && ws[i].len() > 0
        && ascii_title_part(ws[i]) == ws[i] by {
        assert(ws.contains(ws[i]));
        assert(mapped.contains(ws[i]));
        let j = choose|j: int| 0 <= j < mapped.len() && mapped[j] == ws[i];
        lemma_title_part_idempotent(parts[j]);
    }
    if ws.len() == 0 {
        assert(h =~= Seq::<char>::empty());
        assert(split_on(h, '-') == seq![Seq::<char>::empty()]);
        let m2 = split_on(h, '-').map_values(|p: Seq<char>| ascii_title_part(p));
        assert(m2 =~= seq![Seq::<char>::empty()]);
        reveal_with_fuel(Seq::filter, 2);
        assert(m2.drop_last() =~= Seq::<Seq<char>>::empty());
        assert(m2.last().len() == 0);
        assert(m2.filter(|p: Seq<char>| p.len() > 0) =~= Seq::<Seq<char>>::empty());
    } else {
        lemma_split_join(ws);
        let m2 = ws.map_values(|p: Seq<char>| ascii_title_part(p));
        assert(m2 =~= ws);
        lemma_filter_keeps_all(ws, |p: Seq<char>| p.len() > 0);
    }
}

fn title_case_part_v(p: &Vec<char>) -> (r: Vec<char>)
    ensures
        r@ == title_case_part(p@),
        all_ascii(p@) ==> r@ == ascii_title_part(p@),
{
    if p.len() == 0 {
        return Vec::new();
    }
    let first = char_to_upper(p[0]);
    let mut r = chars_of(first.as_str());
    let rest = crate::text::subvec(p, 1, p.len());
    let rest_s = string_of(&rest);
    let lowered = to_lower(rest_s.as_str());
    let lv = chars_of(lowered.as_str());
    append_chars(&mut r, &lv);
    assert(rest@ =~= p@.drop_first());
    proof {
        if all_ascii(p@) {
            assert(spec_is_ascii(p@[0]));
            assert(all_ascii(rest@));
        }
    }
    r
}

/// Canonical Title-Case spelling of a header name, so that one header never
/// appears twice under different casings (`x-api-key` becomes `X-Api-Key`).
pub fn normalize_header_name(name: &str) -> (r: String)
    ensures
        r@ == normalized_header(name@),
        all_ascii(name@) ==> r@ == ascii_header(name@),
{
    let v = chars_of(name);
    let parts = split_on_v(&v, '-');
    let ghost pv = views(parts@);
    let ghost mapped = pv.map_values(|p: Seq<char>| title_case_part(p));
    let ghost amapped = pv.map_values(|p: Seq<char>| ascii_title_part(p));
    proof {
        lemma_split_on_ascii(name@, '-');
    }
    let mut kept: Vec<Vec<char>> = Vec::new();
    let mut i: usize = 0;
    while i < parts.len()
        invariant
            i <= parts.len(),
            pv == views(parts@),
            pv == split_on(name@, '-'),
            mapped == pv.map_values(|p: Seq<char>| title_case_part(p)),
            amapped == pv.map_values(|p: Seq<char>| ascii_title_part(p)),
            all_ascii(name@) ==> forall|k: int| 0 <= k < pv.len() ==> all_ascii(#[trigger] pv[k]),
            views(kept@) == mapped.take(i as int).filter(|p: Seq<char>| p.len() > 0),
            all_ascii(name@) ==> views(kept@) == amapped.take(i as int).filter(
                |p: Seq<char>| p.len() > 0,
            ),
        decreases parts.len() - i,
    {
        reveal_with_fuel(Seq::filter, 1);
        assert(mapped.take(i + 1).drop_last() =~= mapped.take(i as int));
        assert(amapped.take(i + 1).drop_last() =~= amapped.take(i as int));
        let t = title_case_part_v(&parts[i]);
        assert(t@ == mapped[i as int]);
        assert(all_ascii(name@) ==> t@ == amapped[i as int]);
        if t.len() > 0 {
            kept.push(t);
            assert(views(kept@) =~= views(kept@.drop_last()).push(t@));
        }
        i = i + 1;
    }
    assert(mapped.take(parts@.len() as int) =~= mapped);
    assert(amapped.take(parts@.len() as int) =~= amapped);
    let dash = chars_of("-");
    let joined = join_v(&kept, &dash);
    string_of(&joined)
}

// ---------------------------------------------------------------------------
// What an auth configuration needs
// ---------------------------------------------------------------------------

/// What has to happen to authenticate a request.
pub enum AuthPlan {
    /// No auth headers at all.
    NoHeaders,
    /// An auth type this build does not know: no headers, with a warning.
    UnknownType(String),
    /// Read the token from `env_var` and send it in `header`, after
    /// `prefix` and a space when `prefix` is not empty.
    Token { env_var: String, header: String, prefix: String },
    /// Run `command`; its output lines are the headers.
    Script { command: String },
    /// The configuration cannot authenticate; the message says why.
    Failure(String),
}

pub enum AuthPlanModel {
    NoHeaders,
    UnknownType(Seq<char>),
    Token { env_var: Seq<char>, header: Seq<char>, prefix: Seq<char> },
    Script { command: Seq<char> },
    Failure(Seq<char>),
}

impl DeepView for AuthPlan {
    type V = AuthPlanModel;

    open spec fn deep_view(&self) -> AuthPlanModel {
        match self {
            AuthPlan::NoHeaders => AuthPlanModel::NoHeaders,
            AuthPlan::UnknownType(t) => AuthPlanModel::UnknownType(t@),
            AuthPlan::Token { env_var, header, prefix } => AuthPlanModel::Token {
                env_var: env_var@,
                header: header@,
                prefix: prefix@,
            },
            AuthPlan::Script { command } => AuthPlanModel::Script { command: command@ },
            AuthPlan::Failure(m) => AuthPlanModel::Failure(m@),
        }
    }
}

pub open spec fn or_default(o: Option<Seq<char>>, d: Seq<char>) -> Seq<char> {
    match o {
        Some(s) => s,
        None => d,
    }
}

/// The plan for a token-based auth type whose prefix defaults to `dflt`.
pub open spec fn token_plan(
    token_env: Option<Seq<char>>,
    header: Option<Seq<char>>,
    prefix: Seq<char>,
) -> AuthPlanModel {
    match token_env {
        None => AuthPlanModel::Failure("auth.token_env not set"@),
        Some(e) => AuthPlanModel::Token {
            env_var: e,
            header: or_default(header, "Authorization"@),
            prefix,
        },
    }
}

/// What each auth type requires:
/// `bearer_token` (prefix defaults to `Bearer`), `api_key` (prefix defaults
/// to none), `custom_header` (never a prefix), `script`, `none`.
pub open spec fn auth_plan_of(auth: Option<crate::config::AuthModel>) -> AuthPlanModel {
    match auth {
        None => AuthPlanModel::NoHeaders,
        Some(a) => if a.auth_type == "none"@ {
            AuthPlanModel::NoHeaders
        } else if a.auth_type == "bearer_token"@ {
            token_plan(a.token_env, a.header, or_default(a.prefix, "Bearer"@))
        } else if a.auth_type == "api_key"@ {
            token_plan(a.token_env, a.header, or_default(a.prefix, Seq::<char>::empty()))
        } else if a.auth_type == "custom_header"@ {
            token_plan(a.token_env, a.header, Seq::<char>::empty())
        } else if a.auth_type == "script"@ {
            match a.command {
                None => AuthPlanModel::Failure("auth.command not set for script type"@),
                Some(c) => AuthPlanModel::Script { command: c },
            }
        } else {
            AuthPlanModel::UnknownType(a.auth_type)
        },
    }
}

/// Token authentication: the plan reads the configured variable and sends
/// it in the configured header (`Authorization` when none is set), after the
/// configured prefix; without one, a bearer token gets `Bearer`, an API key
/// none; a custom header never gets a prefix.
pub proof fn law_token_auth_plan(a: crate::config::AuthModel)
    requires
        a.token_env is Some,
    ensures
        ({
            let header = match a.header {
                Some(h) => h,
                None => "Authorization"@,
            };
            &&& a.auth_type == "api_key"@ ==> auth_plan_of(Some(a)) == (AuthPlanModel::Token {
                env_var: a.token_env.unwrap(),
                header,
                prefix: match a.prefix {
                    Some(p) => p,
                    None => Seq::<char>::empty(),
                },
            })
            &&& a.auth_type == "bearer_token"@ ==> auth_plan_of(Some(a)) == (AuthPlanModel::Token {
                env_var: a.token_env.unwrap(),
                header,
                prefix: match a.prefix {
                    Some(p) => p,
                    None => "Bearer"@,
                },
            })
            &&& a.auth_type == "custom_header"@ ==> auth_plan_of(Some(a)) == (AuthPlanModel::Token {
                env_var: a.token_env.unwrap(),
                header,
                prefix: Seq::<char>::empty(),
            })
        }),
{
    reveal_strlit("none");
    reveal_strlit("bearer_token");
    reveal_strlit("api_key");
    reveal_strlit("custom_header");
    assert("api_key"@.len() != "none"@.len());
    assert("api_key"@.len() != "bearer_token"@.len());
    assert("custom_header"@.len() != "none"@.len());
    assert("custom_header"@.len() != "bearer_token"@.len());
    assert("custom_header"@.len() != "api_key"@.len());
    assert("bearer_token"@.len() != "none"@.len());
}

/// The header value for a token: with a non-empty prefix `p`, `p token`
/// (one space between); with none, the token alone.
pub proof fn law_token_value(prefix: Seq<char>, token: Seq<char>)
    ensures
        prefix.len() > 0 ==> token_value(prefix, token) == prefix + seq![' '] + token,
        prefix.len() == 0 ==> token_value(prefix, token) == token,
{
    reveal_strlit(" ");
    assert(" "@ =~= seq![' ']);
}

fn clone_or(o: &Option<String>, d: &str) -> (r: String)
    ensures
        r@ == or_default(o.deep_view(), d@),
{
    match o {
        Some(s) => s.clone(),
        None => String::from_str(d),
    }
}

fn plan_token(a: &AuthConfig, prefix: String) -> (r: AuthPlan)
    ensures
        r.deep_view() == token_plan(a.token_env.deep_view(), a.header.deep_view(), prefix@),
{
    match &a.token_env {
        None => AuthPlan::Failure(String::from_str("auth.token_env not set")),
        Some(e) => AuthPlan::Token {
            env_var: e.clone(),
            header: clone_or(&a.header, "Authorization"),
            prefix,
        },
    }
}

/// Decides what authenticating a request under `auth` takes.
pub fn plan_auth(auth: Option<&AuthConfig>) -> (r: AuthPlan)
    ensures
        r.deep_view() == auth_plan_of(auth.deep_view()),
{
    match auth {
        None => AuthPlan::NoHeaders,
        Some(a) => {
            let t = a.auth_type.as_str();
            if str_eq(t, "none") {
                AuthPlan::NoHeaders
            } else if str_eq(t, "bearer_token") {
                plan_token(a, clone_or(&a.prefix, "Bearer"))
            } else if str_eq(t, "api_key") {
                let prefix = match &a.prefix {
                    Some(p) => p.clone(),
                    None => String::new(),
                };
                plan_token(a, prefix)
            } else if str_eq(t, "custom_header") {
                plan_token(a, String::new())
            } else if str_eq(t, "script") {
                match &a.command {
                    None => AuthPlan::Failure(
                        String::from_str("auth.command not set for script type"),
                    ),
                    Some(c) => AuthPlan::Script { command: c.clone() },
                }
            } else {
                AuthPlan::UnknownType(a.auth_type.clone())
            }
        },
    }
}

/// The value sent for a token: the token alone, or `prefix token`.
pub open spec fn token_value(prefix: Seq<char>, token: Seq<char>) -> Seq<char> {
    if prefix.len() == 0 {
        token
    } else {
        prefix + " "@ + token
    }
}

/// The single auth header for a token read from the environment.
pub fn token_headers(header: &str, prefix: &str, token: &str) -> (r: OrdMap<String>)
    ensures
        r@ == seq![(header@, token_value(prefix@, token@))],
{
    let mut value = chars_of(prefix);
    if value.len() == 0 {
        value = chars_of(token);
    } else {
        crate::text::push_str(&mut value, " ");
        crate::text::push_str(&mut value, token);
    }
    let mut m: OrdMap<String> = OrdMap::new();
    m.insert(String::from_str(header), string_of(&value));
    m
}

// ---------------------------------------------------------------------------
// Headers printed by a signing script
// ---------------------------------------------------------------------------

/// The headers collected from lines `lines`, one `Name: value` per line;
/// blank lines and lines without `:` are skipped, later lines win.
pub open spec fn script_headers_from(lines: Seq<Seq<char>>) -> Seq<(Seq<char>, Seq<char>)>
    decreases lines.len(),
{
    if lines.len() == 0 {
        Seq::empty()
    } else {
        let acc = script_headers_from(lines.drop_last());
        let line = trim(lines.last(), CharClass::Whitespace);
        match first_index_of(line, ':') {
            None => acc,
            Some(i) => insert_sorted(
                acc,
                normalized_header(trim(line.take(i), CharClass::Whitespace)),
                trim(line.skip(i + 1), CharClass::Whitespace),
            ),
        }
    }
}

/// The headers a script printed on standard output.
pub open spec fn script_headers(stdout: Seq<char>) -> Seq<(Seq<char>, Seq<char>)> {
    script_headers_from(split_on(stdout, '\n'))
}

/// Reads `Name: value` lines printed by an auth script into headers.
pub fn parse_script_headers(stdout: &str) -> (r: OrdMap<String>)
    ensures
        r@ == script_headers(stdout@),
{
    let v = chars_of(stdout);
    let lines = split_on_v(&v, '\n');
    let ghost lv = views(lines@);
    let mut m: OrdMap<String> = OrdMap::new();
    let mut i: usize = 0;
    while i < lines.len()
        invariant
            i <= lines.len(),
            lv == views(lines@),
            m@ == script_headers_from(lv.take(i as int)),
        decreases lines.len() - i,
    {
        assert(lv.take(i + 1).drop_last() =~= lv.take(i as int));
        let line = trim_v(&lines[i], &CharClass::Whitespace);
        match first_index_of_v(&line, ':') {
            None => {},
            Some(c) => {
                let name_part = crate::text::subvec(&line, 0, c);
                let value_part = crate::text::subvec(&line, c + 1, line.len());
                assert(name_part@ =~= line@.take(c as int));
                assert(value_part@ =~= line@.skip(c + 1));
                let name_t = trim_v(&name_part, &CharClass::Whitespace);
                let value_t = trim_v(&value_part, &CharClass::Whitespace);
                let name_s = string_of(&name_t);
                let key = normalize_header_name(name_s.as_str());
                m.insert(key, string_of(&value_t));
            },
        }
        i = i + 1;
    }
    assert(lv.take(lines@.len() as int) =~= lv);
    m
}

// ---------------------------------------------------------------------------
// Running a signing script
// ---------------------------------------------------------------------------

/// A leading `~` replaced by the home directory; nothing when there is no
/// leading `~` or no home directory.
pub open spec fn tilde_expansion(path: Seq<char>, home: Option<Seq<char>>) -> Option<Seq<char>> {
    match home {
        None => None,
        Some(h) => if path.len() > 0 && path[0] == '~' {
            Some(h + path.drop_first())
        } else {
            None
        },
    }
}

/// Expands a leading `~` in a path, given the home directory.
pub fn expand_tilde(path: &str, home: Option<&str>) -> (r: Option<String>)
    ensures
        r.deep_view() == tilde_expansion(
            path@,
            match home {
                Some(h) => Some(h@),
                None => None,
            },
        ),
{
    let h = match home {
        Some(h) => h,
        None => {
            return None;
        },
    };
    let p = chars_of(path);
    if p.len() > 0 && p[0] == '~' {
        let mut out = chars_of(h);
        let rest = crate::text::subvec(&p, 1, p.len());
        append_chars(&mut out, &rest);
        assert(rest@ =~= path@.drop_first());
        Some(string_of(&out))
    } else {
        None
    }
}

/// Where a relative script name is looked for, in order: the configuration
/// directory, then the presets cache inside it.
pub fn script_search_paths(script: &str, config_dir: &str) -> (r: (String, String))
    ensures
        r.0@ == crate::text::join_path(config_dir@, script@),
        r.1@ == crate::text::join_path(crate::text::join_path(config_dir@, "presets"@), script@),
{
    let first = crate::text::join_path_v(config_dir, script);
    let cache = crate::text::join_path_v(config_dir, "presets");
    let second = crate::text::join_path_v(cache.as_str(), script);
    (first, second)
}

/// How a signing script is started: a file run directly, or a command line
/// handed to `sh -c`.
pub enum ScriptLaunch {
    Direct(String),
    Shell(String),
}

/// What is started for a script: a bare relative name that is no file is
/// looked for in the configuration directory, then in the presets cache
/// (`config_hit`, `cache_hit`); a file is run directly, anything else is a
/// shell command line.
pub open spec fn launch_of(
    script: Seq<char>,
    absolute: bool,
    is_file: bool,
    config_hit: Seq<char>,
    config_hit_is_file: bool,
    cache_hit: Seq<char>,
    cache_hit_is_file: bool,
) -> (bool, Seq<char>) {
    if !absolute && !is_file && config_hit_is_file {
        (true, config_hit)
    } else if !absolute && !is_file && cache_hit_is_file {
        (true, cache_hit)
    } else {
        (is_file, script)
    }
}

pub fn script_launch(
    script: &str,
    absolute: bool,
    is_file: bool,
    config_hit: &str,
    config_hit_is_file: bool,
    cache_hit: &str,
    cache_hit_is_file: bool,
) -> (r: ScriptLaunch)
    ensures
        ({
            let (direct, cmd) = launch_of(
                script@,
                absolute,
                is_file,
                config_hit@,
                config_hit_is_file,
                cache_hit@,
                cache_hit_is_file,
            );
            match r {
                ScriptLaunch::Direct(c) => direct && c@ == cmd,
                ScriptLaunch::Shell(c) => !direct && c@ == cmd,
            }
        }),
{
    if !absolute && !is_file && config_hit_is_file {
        ScriptLaunch::Direct(config_hit.to_string())
    } else if !absolute && !is_file && cache_hit_is_file {
        ScriptLaunch::Direct(cache_hit.to_string())
    } else if is_file {
        ScriptLaunch::Direct(script.to_string())
    } else {
        ScriptLaunch::Shell(script.to_string())
    }
}

/// The request context a signing script receives in its environment.
pub open spec fn script_context_of(
    method: Seq<char>,
    path: Seq<char>,
    query: Option<Seq<char>>,
    body: Option<Seq<char>>,
) -> Seq<(Seq<char>, Seq<char>)> {
    seq![
        ("RESTIE_METHOD"@, method),
        ("RESTIE_PATH"@, path),
        ("RESTIE_QUERY"@, or_default(query, Seq::empty())),
        ("RESTIE_BODY"@, or_default(body, Seq::empty())),
    ]
}

pub fn script_context(method: &str, path: &str, query: Option<&str>, body: Option<&str>) -> (r: Vec<
    (String, String),
>)
    ensures
        r@.map_values(|e: (String, String)| (e.0@, e.1@)) == script_context_of(
            method@,
            path@,
            match query {
                Some(q) => Some(q@),
                None => None,
            },
            match body {
                Some(b) => Some(b@),
                None => None,
            },
        ),
{
    let mut r: Vec<(String, String)> = Vec::new();
    r.push((String::from_str("RESTIE_METHOD"), String::from_str(method)));
    r.push((String::from_str("RESTIE_PATH"), String::from_str(path)));
    let q = match query {
        Some(q) => String::from_str(q),
        None => String::new(),
    };
    let b = match body {
        Some(b) => String::from_str(b),
        None => String::new(),
    };
    r.push((String::from_str("RESTIE_QUERY"), q));
    r.push((String::from_str("RESTIE_BODY"), b));
    assert(r@.map_values(|e: (String, String)| (e.0@, e.1@)) =~= script_context_of(
        method@,
        path@,
        match query {
            Some(q) => Some(q@),
            None => None,
        },
        match body {
            Some(b) => Some(b@),
            None => None,
        },
    ));
    r
}

/// The first `${` and the first `}` after it, as their indices.
pub open spec fn env_reference(s: Seq<char>) -> Option<(int, int)> {
    match crate::text::first_occurrence_from(s, "${"@, 0) {
        None => None,
        Some(start) => match first_index_of(s.skip(start), '}') {
            None => None,
            Some(off) => Some((start, start + off)),
        },
    }
}

/// `s` with `s[start..=close]` replaced by `value`.
pub open spec fn spliced(s: Seq<char>, start: int, close: int, value: Seq<char>) -> Seq<char> {
    s.take(start) + value + s.skip(close + 1)
}

/// The next `${NAME}` reference to expand in a configured value: its
/// start, the index of its closing brace, and the variable name.
pub fn next_env_reference(s: &str) -> (r: Option<(usize, usize, String)>)
    ensures
        match r {
            Some((a, b, name)) => env_reference(s@) == Some((a as int, b as int)) && a + 2 <= b
                && b < s@.len() && name@ == s@.subrange(a + 2, b as int),
            None => env_reference(s@) is None,
        },
{
    let v = chars_of(s);
    let open = chars_of("${");
    proof {
        reveal_strlit("${");
        crate::text::lemma_first_occurrence_from(s@, "${"@, 0);
    }
    match crate::text::find_from(&v, &open, 0) {
        None => None,
        Some(start) => {
            let rest = crate::text::subvec(&v, start, v.len());
            assert(rest@ =~= s@.skip(start as int));
            match first_index_of_v(&rest, '}') {
                None => None,
                Some(off) => {
                    proof {
                        crate::text::lemma_first_index_of(rest@, '}');
                        assert(crate::text::occurs_at(s@, "${"@, start as int));
                        assert(s@.subrange(start as int, start + 2) == "${"@);
                        assert(s@.subrange(start as int, start + 2)[0] == s@[start as int]);
                        assert(s@.subrange(start as int, start + 2)[1] == s@[start + 1]);
                        assert(s@[start as int] == '$');
                        assert(s@[start + 1] == '{');
                        assert(rest@[0] == '$');
                        assert(rest@[1] == '{');
                    }
                    let close = start + off;
                    let name = crate::text::subvec(&v, start + 2, close);
                    Some((start, close, string_of(&name)))
                },
            }
        },
    }
}

/// Replaces the reference at `start..=close` by `value`.
pub fn splice_env_value(s: &str, start: usize, close: usize, value: &str) -> (r: String)
    requires
        start <= close < s@.len(),
    ensures
        r@ == spliced(s@, start as int, close as int, value@),
{
    let v = chars_of(s);
    assert(v.len() == s@.len());
    let mut out = crate::text::subvec(&v, 0, start);
    crate::text::push_str(&mut out, value);
    let tail = crate::text::subvec(&v, close + 1, v.len());
    append_chars(&mut out, &tail);
    assert(out@ =~= spliced(s@, start as int, close as int, value@));
    string_of(&out)
}

} // verus!
