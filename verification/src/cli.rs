//! Command-line engine: control flags, command arguments, path
//! placeholders, and routing of parameters into a request.

use vstd::prelude::*;
use crate::ordmap::{OrdMap, has_key, insert_sorted, lemma_insert_sorted_lookup, lemma_insert_sorted_sorted, lookup, sorted_keys};
use crate::config::{EndpointConfig, ParamModel};
use crate::auth::{normalize_header_name, normalized_header};
use crate::json::{json_quoted, quote_json, value_json, value_json_text};
use crate::text::{
    chars_of, first_index_of, first_index_of_v, spec_starts_with, starts_with, str_eq,
    string_of, subvec,
};

verus! {

/// The views of a sequence of strings.
pub open spec fn strs(s: Seq<String>) -> Seq<Seq<char>> {
    s.map_values(|x: String| x@)
}

// ---------------------------------------------------------------------------
// Control flags
// ---------------------------------------------------------------------------

/// What stripping control flags yields: the remaining arguments, whether
/// `--raw` was given, and the `--site` / `--config` values.
pub struct StripModel {
    pub kept: Seq<Seq<char>>,
    pub raw: bool,
    pub site: Option<Seq<char>>,
    pub config: Option<Seq<char>>,
}

/// A control flag never forwarded as an API parameter.
pub open spec fn is_control_arg(a: Seq<char>) -> bool {
    ||| a == "--raw"@
    ||| a == "--site"@
    ||| a == "--config"@
    ||| spec_starts_with(a, "--site="@)
    ||| spec_starts_with(a, "--config="@)
}

/// Stripping `args[i..]`, starting from state `st`. `--site` and `--config`
/// take the next argument as their value; at the very end they are dropped.
/// The last occurrence of a flag wins.
pub open spec fn strip_from(args: Seq<Seq<char>>, i: int, st: StripModel) -> StripModel
    decreases args.len() - i,
{
    if i < 0 || i >= args.len() {
        st
    } else {
        let a = args[i];
        if a == "--raw"@ {
            strip_from(args, i + 1, StripModel { raw: true, ..st })
        } else if a == "--site"@ || a == "--config"@ {
            if i + 1 < args.len() {
                if a == "--site"@ {
                    strip_from(args, i + 2, StripModel { site: Some(args[i + 1]), ..st })
                } else {
                    strip_from(args, i + 2, StripModel { config: Some(args[i + 1]), ..st })
                }
            } else {
                strip_from(args, i + 1, st)
            }
        } else if spec_starts_with(a, "--site="@) {
            strip_from(
                args,
                i + 1,
                StripModel { site: Some(a.skip("--site="@.len() as int)), ..st },
            )
        } else if spec_starts_with(a, "--config="@) {
            strip_from(
                args,
                i + 1,
                StripModel { config: Some(a.skip("--config="@.len() as int)), ..st },
            )
        } else {
            strip_from(args, i + 1, StripModel { kept: st.kept.push(a), ..st })
        }
    }
}

pub open spec fn strip_start() -> StripModel {
    StripModel { kept: Seq::empty(), raw: false, site: None, config: None }
}

/// The result of stripping control flags from `args`.
pub open spec fn stripped(args: Seq<Seq<char>>) -> StripModel {
    strip_from(args, 0, strip_start())
}

/// Removes `--raw`, `--site <v>`, `--config <v>`, `--site=<v>` and
/// `--config=<v>` from a module's arguments, returning the remaining
/// arguments in order together with the flag values.
pub fn strip_control_flags(args: &[String]) -> (r: (Vec<String>, bool, Option<String>, Option<String>))
    ensures
        r.0.deep_view() == stripped(strs(args@)).kept,
        r.1 == stripped(strs(args@)).raw,
        r.2.deep_view() == stripped(strs(args@)).site,
        r.3.deep_view() == stripped(strs(args@)).config,
{
    let ghost av = strs(args@);
    let mut filtered: Vec<String> = Vec::new();
    let mut raw = false;
    let mut site: Option<String> = None;
    let mut config: Option<String> = None;
    let site_eq = chars_of("--site=");
    let config_eq = chars_of("--config=");
    let mut i: usize = 0;
    assert(filtered.deep_view() =~= Seq::<Seq<char>>::empty());
    while i < args.len()
        invariant
            av == strs(args@),
            site_eq@ == "--site="@,
            config_eq@ == "--config="@,
            i <= args.len(),
            stripped(av) == strip_from(
                av,
                i as int,
                StripModel {
                    kept: filtered.deep_view(),
                    raw,
                    site: site.deep_view(),
                    config: config.deep_view(),
                },
            ),
        decreases args.len() - i,
    {
        let ghost kept0 = filtered.deep_view();
        let arg = args[i].as_str();
        assert(arg@ == av[i as int]);
        let argv = chars_of(arg);
        if str_eq(arg, "--raw") {
            raw = true;
            i = i + 1;
        } else if str_eq(arg, "--site") || str_eq(arg, "--config") {
            if i + 1 < args.len() {
                let value = args[i + 1].clone();
                assert(value@ == av[i + 1]);
                if str_eq(arg, "--site") {
                    site = Some(value);
                } else {
                    config = Some(value);
                }
                i = i + 2;
            } else {
                i = i + 1;
            }
        } else if starts_with(&argv, &site_eq) {
            let rest = subvec(&argv, site_eq.len(), argv.len());
            assert(rest@ =~= argv@.skip(site_eq@.len() as int));
            site = Some(string_of(&rest));
            i = i + 1;
        } else if starts_with(&argv, &config_eq) {
            let rest = subvec(&argv, config_eq.len(), argv.len());
            assert(rest@ =~= argv@.skip(config_eq@.len() as int));
            config = Some(string_of(&rest));
            i = i + 1;
        } else {
            filtered.push(args[i].clone());
            assert(filtered.deep_view() =~= kept0.push(arg@));
            i = i + 1;
        }
    }
    (filtered, raw, site, config)
}

proof fn lemma_strip_from_kept(args: Seq<Seq<char>>, i: int, st: StripModel)
    requires
        0 <= i,
    ensures
        strip_from(args, i, st).kept.len() >= st.kept.len(),
        strip_from(args, i, st).kept.take(st.kept.len() as int) == st.kept,
        forall|k: int|
            st.kept.len() <= k < strip_from(args, i, st).kept.len() ==> !is_control_arg(
                #[trigger] strip_from(args, i, st).kept[k],
            ),
    decreases args.len() - i,
{
    if i >= args.len() {
        assert(st.kept.take(st.kept.len() as int) =~= st.kept);
    } else {
        let a = args[i];
        if a == "--raw"@ {
            lemma_strip_from_kept(args, i + 1, StripModel { raw: true, ..st });
        } else if a == "--site"@ || a == "--config"@ {
            if i + 1 < args.len() {
                if a == "--site"@ {
                    lemma_strip_from_kept(args, i + 2, StripModel { site: Some(args[i + 1]), ..st });
                } else {
                    lemma_strip_from_kept(
                        args,
                        i + 2,
                        StripModel { config: Some(args[i + 1]), ..st },
                    );
                }
            } else {
                lemma_strip_from_kept(args, i + 1, st);
            }
        } else if spec_starts_with(a, "--site="@) {
            lemma_strip_from_kept(
                args,
                i + 1,
                StripModel { site: Some(a.skip("--site="@.len() as int)), ..st },
            );
        } else if spec_starts_with(a, "--config="@) {
            lemma_strip_from_kept(
                args,
                i + 1,
                StripModel { config: Some(a.skip("--config="@.len() as int)), ..st },
            );
        } else {
            let st2 = StripModel { kept: st.kept.push(a), ..st };
            lemma_strip_from_kept(args, i + 1, st2);
            let r = strip_from(args, i + 1, st2).kept;
            assert(r.take(st.kept.len() as int) =~= r.take(st2.kept.len() as int).take(
                st.kept.len() as int,
            ));
            assert(st2.kept.take(st.kept.len() as int) =~= st.kept);
            assert(r[st.kept.len() as int] == st2.kept[st.kept.len() as int]);
        }
    }
}

proof fn lemma_strip_from_plain(args: Seq<Seq<char>>, i: int, st: StripModel)
    requires
        0 <= i <= args.len(),
        forall|j: int| i <= j < args.len() ==> !is_control_arg(#[trigger] args[j]),
    ensures
        strip_from(args, i, st) == (StripModel { kept: st.kept + args.skip(i), ..st }),
    decreases args.len() - i,
{
    if i >= args.len() {
        assert(st.kept + args.skip(i) =~= st.kept);
    } else {
        let a = args[i];
        assert(!is_control_arg(a));
        let st2 = StripModel { kept: st.kept.push(a), ..st };
        lemma_strip_from_plain(args, i + 1, st2);
        assert(st2.kept + args.skip(i + 1) =~= st.kept + args.skip(i));
    }
}

/// No control flag survives stripping.
pub proof fn law_strip_removes_control_flags(args: Seq<Seq<char>>)
    ensures
        forall|k: int|
            0 <= k < stripped(args).kept.len() ==> !is_control_arg(
                #[trigger] stripped(args).kept[k],
            ),
{
    lemma_strip_from_kept(args, 0, strip_start());
}

/// `kept[k]` is `args[idx[k]]`, the indices increasing and below `bound`:
/// `kept` is a subsequence of `args` taken in order.
pub open spec fn picked_in_order(kept: Seq<Seq<char>>, args: Seq<Seq<char>>, idx: Seq<int>, bound: int) -> bool {
    &&& idx.len() == kept.len()
    &&& forall|k: int| 0 <= k < idx.len() ==> 0 <= #[trigger] idx[k] < bound && kept[k] == args[idx[k]]
    &&& forall|a: int, b: int| 0 <= a < b < idx.len() ==> #[trigger] idx[a] < #[trigger] idx[b]
}

proof fn lemma_strip_from_in_order(args: Seq<Seq<char>>, i: int, st: StripModel, idx: Seq<int>) -> (out: Seq<int>)
    requires
        0 <= i <= args.len(),
        picked_in_order(st.kept, args, idx, i),
    ensures
        picked_in_order(strip_from(args, i, st).kept, args, out, args.len() as int),
    decreases args.len() - i,
{
    if i >= args.len() {
        idx
    } else {
        let a = args[i];
        if a == "--raw"@ {
            lemma_strip_from_in_order(args, i + 1, StripModel { raw: true, ..st }, idx)
        } else if a == "--site"@ || a == "--config"@ {
            if i + 1 < args.len() {
                if a == "--site"@ {
                    lemma_strip_from_in_order(args, i + 2, StripModel { site: Some(args[i + 1]), ..st }, idx)
                } else {
                    lemma_strip_from_in_order(args, i + 2, StripModel { config: Some(args[i + 1]), ..st }, idx)
                }
            } else {
                lemma_strip_from_in_order(args, i + 1, st, idx)
            }
        } else if spec_starts_with(a, "--site="@) {
            lemma_strip_from_in_order(
                args,
                i + 1,
                StripModel { site: Some(a.skip("--site="@.len() as int)), ..st },
                idx,
            )
        } else if spec_starts_with(a, "--config="@) {
            lemma_strip_from_in_order(
                args,
                i + 1,
                StripModel { config: Some(a.skip("--config="@.len() as int)), ..st },
                idx,
            )
        } else {
            let st2 = StripModel { kept: st.kept.push(a), ..st };
            let idx2 = idx.push(i);
            assert forall|k: int| 0 <= k < idx2.len() implies 0 <= #[trigger] idx2[k] < i + 1
                && st2.kept[k] == args[idx2[k]] by {
                if k < idx.len() {
                    assert(idx2[k] == idx[k]);
                }
            }
            assert forall|x: int, y: int| 0 <= x < y < idx2.len() implies #[trigger] idx2[x]
                < #[trigger] idx2[y] by {
                assert(idx2[x] == idx[x]);
                if y < idx.len() {
                    assert(idx2[y] == idx[y]);
                }
            }
            lemma_strip_from_in_order(args, i + 1, st2, idx2)
        }
    }
}

/// The arguments that stripping keeps are a subsequence of the given ones,
/// in the order given.
pub proof fn law_strip_keeps_order(args: Seq<Seq<char>>)
    ensures
        exists|idx: Seq<int>| picked_in_order(stripped(args).kept, args, idx, args.len() as int),
{
    let idx = lemma_strip_from_in_order(args, 0, strip_start(), Seq::<int>::empty());
    assert(picked_in_order(stripped(args).kept, args, idx, args.len() as int));
}

/// Whether `a` sets the site or the configuration.
pub open spec fn sets_site_or_config(a: Seq<char>) -> bool {
    a == "--site"@ || a == "--config"@ || spec_starts_with(a, "--site="@) || spec_starts_with(
        a,
        "--config="@,
    )
}

proof fn lemma_strip_keeps_site_and_config(args: Seq<Seq<char>>, k: int, st: StripModel)
    requires
        0 <= k,
        forall|j: int| k <= j < args.len() ==> !sets_site_or_config(#[trigger] args[j]),
    ensures
        strip_from(args, k, st).site == st.site,
        strip_from(args, k, st).config == st.config,
    decreases args.len() - k,
{
    if k < args.len() {
        assert(!sets_site_or_config(args[k]));
        if args[k] == "--raw"@ {
            lemma_strip_keeps_site_and_config(args, k + 1, StripModel { raw: true, ..st });
        } else {
            lemma_strip_keeps_site_and_config(args, k + 1, StripModel { kept: st.kept.push(args[k]), ..st });
        }
    }
}

/// A `--config <v>` pair (or `--site <v>`) reached while stripping sets the
/// configuration (or the site) to `v` and leaves the other alone, unless a
/// later flag sets them again.
pub proof fn law_strip_flag_pairs(args: Seq<Seq<char>>, i: int, st: StripModel)
    requires
        0 <= i,
        i + 1 < args.len(),
        forall|j: int| i + 2 <= j < args.len() ==> !sets_site_or_config(#[trigger] args[j]),
    ensures
        args[i] == "--config"@ ==> strip_from(args, i, st).config == Some(args[i + 1])
            && strip_from(args, i, st).site == st.site,
        args[i] == "--site"@ ==> strip_from(args, i, st).site == Some(args[i + 1])
            && strip_from(args, i, st).config == st.config,
{
    reveal_strlit("--raw");
    reveal_strlit("--site");
    reveal_strlit("--config");
    assert("--config"@.len() != "--raw"@.len() && "--config"@.len() != "--site"@.len());
    assert("--site"@.len() != "--raw"@.len());
    if args[i] == "--config"@ {
        lemma_strip_keeps_site_and_config(args, i + 2, StripModel { config: Some(args[i + 1]), ..st });
    } else if args[i] == "--site"@ {
        lemma_strip_keeps_site_and_config(args, i + 2, StripModel { site: Some(args[i + 1]), ..st });
    }
}

proof fn lemma_strip_reaches(args: Seq<Seq<char>>, k: int, i: int, st: StripModel) -> (st2: StripModel)
    requires
        0 <= k <= i <= args.len(),
        forall|j: int| k <= j < i ==> !sets_site_or_config(#[trigger] args[j]),
    ensures
        strip_from(args, k, st) == strip_from(args, i, st2),
        st2.site == st.site,
        st2.config == st.config,
    decreases i - k,
{
    if k == i {
        st
    } else {
        assert(!sets_site_or_config(args[k]));
        if args[k] == "--raw"@ {
            lemma_strip_reaches(args, k + 1, i, StripModel { raw: true, ..st })
        } else {
            lemma_strip_reaches(args, k + 1, i, StripModel { kept: st.kept.push(args[k]), ..st })
        }
    }
}

/// The one `--config <v>` (or `--site <v>`) pair of the arguments, with no
/// other site or configuration flag before or after it, gives exactly that
/// value and no site (or no configuration).
pub proof fn law_strip_single_pair(args: Seq<Seq<char>>, i: int)
    requires
        0 <= i,
        i + 1 < args.len(),
        forall|j: int| 0 <= j < i ==> !sets_site_or_config(#[trigger] args[j]),
        forall|j: int| i + 2 <= j < args.len() ==> !sets_site_or_config(#[trigger] args[j]),
    ensures
        args[i] == "--config"@ ==> stripped(args).config == Some(args[i + 1]) && stripped(args).site is None,
        args[i] == "--site"@ ==> stripped(args).site == Some(args[i + 1]) && stripped(args).config is None,
{
    let st2 = lemma_strip_reaches(args, 0, i, strip_start());
    law_strip_flag_pairs(args, i, st2);
}

/// Arguments without control flags pass through unchanged, with no flag set.
pub proof fn law_strip_plain_args_unchanged(args: Seq<Seq<char>>)
    requires
        forall|j: int| 0 <= j < args.len() ==> !is_control_arg(#[trigger] args[j]),
    ensures
        stripped(args) == strip_start().kept_as(args),
{
    lemma_strip_from_plain(args, 0, strip_start());
    assert(Seq::<Seq<char>>::empty() + args.skip(0) =~= args);
}

/// Stripping twice removes nothing more than stripping once.
pub proof fn law_strip_idempotent(args: Seq<Seq<char>>)
    ensures
        stripped(stripped(args).kept).kept == stripped(args).kept,
        !stripped(stripped(args).kept).raw,
        stripped(stripped(args).kept).site is None,
        stripped(stripped(args).kept).config is None,
{
    law_strip_removes_control_flags(args);
    law_strip_plain_args_unchanged(stripped(args).kept);
}

impl StripModel {
    /// This state with the kept arguments replaced by `kept`.
    pub open spec fn kept_as(self, kept: Seq<Seq<char>>) -> StripModel {
        StripModel { kept, ..self }
    }
}

// ---------------------------------------------------------------------------
// Command and parameters
// ---------------------------------------------------------------------------

/// Index of the first argument that does not start with `--`.
pub open spec fn first_non_flag(args: Seq<Seq<char>>, from: int) -> Option<int>
    decreases args.len() - from,
{
    if from < 0 || from >= args.len() {
        None
    } else if !spec_starts_with(args[from], "--"@) {
        Some(from)
    } else {
        first_non_flag(args, from + 1)
    }
}

/// The command (first argument not starting with `--`) and the arguments
/// after it; with no such argument, an empty command and all arguments.
pub fn split_command_and_args(args: &[String]) -> (r: (String, Vec<String>))
    ensures
        match first_non_flag(strs(args@), 0) {
            Some(k) => r.0@ == strs(args@)[k] && r.1.deep_view() == strs(args@).skip(k + 1),
            None => r.0@ == Seq::<char>::empty() && r.1.deep_view() == strs(args@),
        },
{
    let ghost av = strs(args@);
    let dashes = chars_of("--");
    let mut i: usize = 0;
    while i < args.len()
        invariant
            av == strs(args@),
            dashes@ == "--"@,
            i <= args.len(),
            first_non_flag(av, 0) == first_non_flag(av, i as int),
        decreases args.len() - i,
    {
        let a = chars_of(args[i].as_str());
        if !starts_with(&a, &dashes) {
            let command = args[i].clone();
            let remaining = copy_strings(args, i + 1);
            return (command, remaining);
        }
        i = i + 1;
    }
    (String::new(), copy_strings(args, 0))
}

/// Copies of `args[from..]`.
fn copy_strings(args: &[String], from: usize) -> (r: Vec<String>)
    requires
        from <= args.len(),
    ensures
        r.deep_view() == strs(args@).skip(from as int),
{
    let mut r: Vec<String> = Vec::new();
    let mut i = from;
    while i < args.len()
        invariant
            from <= i <= args.len(),
            r.deep_view() == strs(args@).subrange(from as int, i as int),
        decreases args.len() - i,
    {
        let ghost before = r.deep_view();
        r.push(args[i].clone());
        assert(r.deep_view() =~= before.push(args@[i as int]@));
        assert(strs(args@).subrange(from as int, i + 1) =~= strs(args@).subrange(
            from as int,
            i as int,
        ).push(args@[i as int]@));
        i = i + 1;
    }
    assert(strs(args@).subrange(from as int, args@.len() as int) =~= strs(args@).skip(
        from as int,
    ));
    r
}

/// The parameters read from `args[i..]` into `acc`: `--name=value`,
/// `--name value` (when the next argument does not start with `--`), or a
/// bare `--name` meaning `true`; other arguments are skipped. Later
/// occurrences of a name win.
pub open spec fn params_from(
    args: Seq<Seq<char>>,
    i: int,
    acc: Seq<(Seq<char>, Seq<char>)>,
) -> Seq<(Seq<char>, Seq<char>)>
    decreases args.len() - i,
{
    if i < 0 || i >= args.len() {
        acc
    } else if spec_starts_with(args[i], "--"@) {
        let rest = args[i].skip(2);
        match first_index_of(rest, '=') {
            Some(j) => params_from(args, i + 1, insert_sorted(acc, rest.take(j), rest.skip(j + 1))),
            None => if i + 1 < args.len() && !spec_starts_with(args[i + 1], "--"@) {
                params_from(args, i + 2, insert_sorted(acc, rest, args[i + 1]))
            } else {
                params_from(args, i + 1, insert_sorted(acc, rest, "true"@))
            },
        }
    } else {
        params_from(args, i + 1, acc)
    }
}

/// Reads `--name value`, `--name=value` and `--flag` arguments.
pub fn parse_extra_args(args: &[String]) -> (r: OrdMap<String>)
    ensures
        r@ == params_from(strs(args@), 0, Seq::empty()),
{
    let ghost av = strs(args@);
    let dashes = chars_of("--");
    let mut params: OrdMap<String> = OrdMap::new();
    let mut i: usize = 0;
    while i < args.len()
        invariant
            av == strs(args@),
            dashes@ == "--"@,
            i <= args.len(),
            params_from(av, 0, Seq::empty()) == params_from(av, i as int, params@),
        decreases args.len() - i,
    {
        let a = chars_of(args[i].as_str());
        assert(a@ == av[i as int]);
        if starts_with(&a, &dashes) {
            proof {
                reveal_strlit("--");
            }
            assert(dashes@.len() == 2);
            let rest = subvec(&a, 2, a.len());
            assert(rest@ =~= a@.skip(2));
            match first_index_of_v(&rest, '=') {
                Some(j) => {
                    let name = subvec(&rest, 0, j);
                    let value = subvec(&rest, j + 1, rest.len());
                    assert(name@ =~= rest@.take(j as int));
                    assert(value@ =~= rest@.skip(j + 1));
                    params.insert(string_of(&name), string_of(&value));
                    i = i + 1;
                },
                None => {
                    let next_is_value = if i + 1 < args.len() {
                        let b = chars_of(args[i + 1].as_str());
                        !starts_with(&b, &dashes)
                    } else {
                        false
                    };
                    if next_is_value {
                        params.insert(string_of(&rest), args[i + 1].clone());
                        i = i + 2;
                    } else {
                        params.insert(string_of(&rest), String::from_str("true"));
                        i = i + 1;
                    }
                },
            }
        } else {
            i = i + 1;
        }
    }
    params
}

// ---------------------------------------------------------------------------
// Path placeholders
// ---------------------------------------------------------------------------

/// `{key}`.
pub open spec fn placeholder(key: Seq<char>) -> Seq<char> {
    seq!['{'] + key + seq!['}']
}

pub proof fn lemma_replace_absent(s: Seq<char>, p: Seq<char>, t: Seq<char>)
    requires
        !crate::text::spec_contains(s, p),
    ensures
        crate::text::replace_all(s, p, t) == s,
    decreases s.len(),
{
    if p.len() == 0 || s.len() < p.len() {
    } else if s.take(p.len() as int) == p {
        assert(s.subrange(0, p.len() as int) =~= s.take(p.len() as int));
        assert(crate::text::occurs_at(s, p, 0));
    } else {
        let d = s.drop_first();
        assert(!crate::text::spec_contains(d, p)) by {
            if crate::text::spec_contains(d, p) {
                let i = choose|i: int| crate::text::occurs_at(d, p, i);
                assert(s.subrange(i + 1, i + 1 + p.len()) =~= d.subrange(i, i + p.len()));
                assert(crate::text::occurs_at(s, p, i + 1));
            }
        }
        lemma_replace_absent(d, p, t);
        assert(seq![s[0]] + d =~= s);
    }
}

/// A piece of a path template: literal text, or a `{name}` placeholder.
pub enum PathPiece {
    Text(Seq<char>),
    Slot(Seq<char>),
}

/// No `{` or `}` in `s`.
pub open spec fn braces_free(s: Seq<char>) -> bool {
    forall|i: int| 0 <= i < s.len() ==> #[trigger] s[i] != '{' && s[i] != '}'
}

pub open spec fn piece_ok(p: PathPiece) -> bool {
    match p {
        PathPiece::Text(t) => braces_free(t),
        PathPiece::Slot(k) => braces_free(k),
    }
}

pub open spec fn piece_text(p: PathPiece) -> Seq<char> {
    match p {
        PathPiece::Text(t) => t,
        PathPiece::Slot(k) => placeholder(k),
    }
}

/// The template text the pieces make, in order.
pub open spec fn template_of(ps: Seq<PathPiece>) -> Seq<char>
    decreases ps.len(),
{
    if ps.len() == 0 {
        Seq::empty()
    } else {
        piece_text(ps[0]) + template_of(ps.drop_first())
    }
}

/// A placeholder with a value becomes that value; text and placeholders
/// without a value stay.
pub open spec fn resolve(p: PathPiece, params: Seq<(Seq<char>, Seq<char>)>) -> PathPiece {
    match p {
        PathPiece::Text(t) => PathPiece::Text(t),
        PathPiece::Slot(k) => match lookup(params, k) {
            Some(v) => PathPiece::Text(v),
            None => PathPiece::Slot(k),
        },
    }
}

pub open spec fn resolved(ps: Seq<PathPiece>, params: Seq<(Seq<char>, Seq<char>)>) -> Seq<PathPiece> {
    ps.map_values(|p: PathPiece| resolve(p, params))
}

proof fn lemma_brace_free_no_placeholder(t: Seq<char>, k: Seq<char>)
    requires
        braces_free(t),
    ensures
        !crate::text::spec_contains(t, placeholder(k)),
{
    if crate::text::spec_contains(t, placeholder(k)) {
        let i = choose|i: int| crate::text::occurs_at(t, placeholder(k), i);
        assert(t.subrange(i, i + placeholder(k).len())[0] == t[i]);
        assert(placeholder(k)[0] == '{');
    }
}

proof fn lemma_lookup_single(k: Seq<char>, v: Seq<char>, q: Seq<char>)
    ensures
        lookup(seq![(k, v)], q) == (if q == k {
            Some(v)
        } else {
            None
        }),
{
    let single = seq![(k, v)];
    assert(single.last() == (k, v));
    assert(single.drop_last() =~= Seq::<(Seq<char>, Seq<char>)>::empty());
    assert(lookup(single.drop_last(), q) is None);
}

/// No occurrence of a placeholder starts inside one piece and ends after it.
proof fn lemma_no_straddle(h0: PathPiece, rest: Seq<char>, k: Seq<char>)
    requires
        piece_ok(h0),
        braces_free(k),
    ensures
        forall|i: int|
            0 <= i < piece_text(h0).len() && i + placeholder(k).len() > piece_text(h0).len()
                ==> !#[trigger] crate::text::occurs_at(piece_text(h0) + rest, placeholder(k), i),
{
    let h = piece_text(h0);
    let p = placeholder(k);
    assert forall|i: int| 0 <= i < h.len() && i + p.len() > h.len() implies !#[trigger] crate::text::occurs_at(
        h + rest,
        p,
        i,
    ) by {
        if crate::text::occurs_at(h + rest, p, i) {
            let w = h + rest;
            assert(w.subrange(i, i + p.len())[0] == w[i]);
            assert(w[i] == h[i]);
            match h0 {
                PathPiece::Text(t) => {
                    assert(h[i] != '{');
                },
                PathPiece::Slot(k2) => {
                    if i > 0 {
                        if i < h.len() - 1 {
                            assert(h[i] == k2[i - 1]);
                        }
                    } else {
                        let q = h.len() - 1;
                        assert(w.subrange(0, p.len() as int)[q] == w[q]);
                        assert(w[q] == h[q]);
                        assert(h[q] == '}');
                        assert(p[q] == k[q - 1]);
                    }
                },
            }
        }
    }
}

/// Replacing a placeholder within one piece.
#[verifier::spinoff_prover]
proof fn lemma_replace_in_piece(h0: PathPiece, k: Seq<char>, v: Seq<char>)
    requires
        piece_ok(h0),
        braces_free(k),
    ensures
        crate::text::replace_all(piece_text(h0), placeholder(k), v) == piece_text(resolve(h0, seq![(k, v)])),
{
    let h = piece_text(h0);
    let p = placeholder(k);
    let e = Seq::<char>::empty();
    match h0 {
        PathPiece::Text(t) => {
            lemma_brace_free_no_placeholder(t, k);
            lemma_replace_absent(t, p, v);
        },
        PathPiece::Slot(k2) => {
            lemma_lookup_single(k, v, k2);
            if k2 == k {
                assert(h.take(p.len() as int) =~= p);
                assert(h.skip(p.len() as int) =~= e);
                assert(crate::text::replace_all(h, p, v) == v + crate::text::replace_all(e, p, v));
                assert(v + e =~= v);
            } else {
                assert(!crate::text::spec_contains(h, p)) by {
                    if crate::text::spec_contains(h, p) {
                        let i = choose|i: int| crate::text::occurs_at(h, p, i);
                        assert(h.subrange(i, i + p.len())[0] == h[i]);
                        if i > 0 {
                            if i < h.len() - 1 {
                                assert(h[i] == k2[i - 1]);
                            }
                        } else if p.len() == h.len() {
                            assert(h.subrange(0, p.len() as int) =~= h);
                            assert(k2 =~= h.subrange(1, h.len() - 1));
                            assert(k =~= p.subrange(1, p.len() - 1));
                        } else {
                            let q = p.len() - 1;
                            assert(h.subrange(0, p.len() as int)[q] == h[q]);
                            assert(p[q] == '}');
                            assert(h[q] == k2[q - 1]);
                        }
                    }
                }
                lemma_replace_absent(h, p, v);
            }
        },
    }
}

/// Replacing one placeholder in a template made of pieces.
#[verifier::spinoff_prover]
proof fn lemma_replace_in_pieces(ps: Seq<PathPiece>, k: Seq<char>, v: Seq<char>)
    requires
        forall|j: int| 0 <= j < ps.len() ==> piece_ok(#[trigger] ps[j]),
        braces_free(k),
    ensures
        crate::text::replace_all(template_of(ps), placeholder(k), v) == template_of(
            resolved(ps, seq![(k, v)]),
        ),
    decreases ps.len(),
{
    let p = placeholder(k);
    let single = seq![(k, v)];
    let e = Seq::<char>::empty();
    if ps.len() == 0 {
        assert(resolved(ps, single) =~= Seq::<PathPiece>::empty());
        assert(crate::text::replace_all(e, p, v) == e);
    } else {
        let rest = ps.drop_first();
        assert forall|j: int| 0 <= j < rest.len() implies piece_ok(#[trigger] rest[j]) by {
            assert(rest[j] == ps[j + 1]);
        }
        lemma_replace_in_pieces(rest, k, v);
        assert(resolved(ps, single).drop_first() =~= resolved(rest, single));
        assert(resolved(ps, single)[0] == resolve(ps[0], single));
        assert(piece_ok(ps[0]));
        let h = piece_text(ps[0]);
        lemma_no_straddle(ps[0], template_of(rest), k);
        crate::text::lemma_replace_concat(h, template_of(rest), p, v);
        lemma_replace_in_piece(ps[0], k, v);
    }
}

proof fn lemma_resolve_step(ps: Seq<PathPiece>, params: Seq<(Seq<char>, Seq<char>)>)
    requires
        params.len() > 0,
        sorted_keys(params),
    ensures
        resolved(resolved(ps, params.drop_last()), seq![params.last()]) == resolved(ps, params),
{
    let d = params.drop_last();
    let (k, v) = params.last();
    let single = seq![(k, v)];
    assert(seq![params.last()] == single);
    assert(!has_key(d, k)) by {
        if has_key(d, k) {
            let j = choose|j: int| 0 <= j < d.len() && #[trigger] d[j].0 == k;
            assert(d[j] == params[j]);
            assert(crate::ordmap::key_lt(params[j].0, params[params.len() - 1].0));
            crate::ordmap::lemma_key_lt_irreflexive(k);
        }
    }
    crate::ordmap::lemma_lookup_none(d, k);
    assert(single.drop_last() =~= Seq::<(Seq<char>, Seq<char>)>::empty());
    let a = resolved(resolved(ps, d), single);
    let b = resolved(ps, params);
    assert forall|j: int| 0 <= j < ps.len() implies a[j] == b[j] by {
        match ps[j] {
            PathPiece::Text(t) => {},
            PathPiece::Slot(q) => {
                lemma_lookup_single(k, v, q);
                if q != k {
                    assert(lookup(params, q) == lookup(d, q));
                }
            },
        }
    }
    assert(a =~= b);
}

/// Filling a template made of literal text and `{name}` placeholders puts
/// each parameter's value in place of its placeholder, every one of them,
/// and leaves placeholders without a parameter and all other text as they
/// are; so no placeholder of a given parameter remains. (Names, values and
/// text hold no braces; the parameters are a map, names in order.)
pub proof fn law_fill_placeholders(ps: Seq<PathPiece>, params: Seq<(Seq<char>, Seq<char>)>)
    requires
        sorted_keys(params),
        forall|j: int| 0 <= j < ps.len() ==> piece_ok(#[trigger] ps[j]),
        forall|j: int| 0 <= j < params.len() ==> braces_free(#[trigger] params[j].0) && braces_free(params[j].1),
    ensures
        fill_placeholders(template_of(ps), params) == template_of(resolved(ps, params)),
    decreases params.len(),
{
    if params.len() == 0 {
        assert forall|j: int| 0 <= j < ps.len() implies resolved(ps, params)[j] == ps[j] by {
        }
        assert(resolved(ps, params) =~= ps);
    } else {
        let d = params.drop_last();
        assert(sorted_keys(d));
        assert forall|j: int| 0 <= j < d.len() implies braces_free(#[trigger] d[j].0) && braces_free(d[j].1) by {
            assert(d[j] == params[j]);
        }
        law_fill_placeholders(ps, d);
        let rd = resolved(ps, d);
        assert forall|j: int| 0 <= j < rd.len() implies piece_ok(#[trigger] rd[j]) by {
            assert(piece_ok(ps[j]));
            match ps[j] {
                PathPiece::Text(t) => {},
                PathPiece::Slot(q) => {
                    if lookup(d, q) is Some {
                        crate::ordmap::lemma_lookup_some(d, q);
                        let w = choose|w: int| 0 <= w < d.len() && #[trigger] d[w].0 == q;
                        crate::ordmap::lemma_lookup_index(d, q, w);
                    }
                },
            }
        }
        let (k, v) = params.last();
        assert(params[params.len() - 1] == params.last());
        lemma_replace_in_pieces(rd, k, v);
        lemma_resolve_step(ps, params);
    }
}

/// A template holding none of the parameters' `{name}` placeholders is
/// left as it is.
pub proof fn law_fill_without_placeholders(template: Seq<char>, params: Seq<(Seq<char>, Seq<char>)>)
    requires
        forall|k: int| 0 <= k < params.len() ==> !crate::text::spec_contains(template, placeholder(#[trigger] params[k].0)),
    ensures
        fill_placeholders(template, params) == template,
    decreases params.len(),
{
    if params.len() > 0 {
        let d = params.drop_last();
        assert forall|k: int| 0 <= k < d.len() implies !crate::text::spec_contains(template, placeholder(#[trigger] d[k].0)) by {
            assert(d[k] == params[k]);
        }
        law_fill_without_placeholders(template, d);
        assert(params[params.len() - 1] == params.last());
        lemma_replace_absent(template, placeholder(params.last().0), params.last().1);
    }
}

/// `template` with each `{key}` replaced by its value, one parameter after
/// another in key order.
pub open spec fn fill_placeholders(template: Seq<char>, params: Seq<(Seq<char>, Seq<char>)>) -> Seq<
    char,
>
    decreases params.len(),
{
    if params.len() == 0 {
        template
    } else {
        crate::text::replace_all(
            fill_placeholders(template, params.drop_last()),
            placeholder(params.last().0),
            params.last().1,
        )
    }
}

fn placeholder_v(key: &Vec<char>) -> (r: Vec<char>)
    ensures
        r@ == placeholder(key@),
        r.len() > 0,
{
    let mut r: Vec<char> = Vec::new();
    r.push('{');
    crate::text::append_chars(&mut r, key);
    r.push('}');
    assert(r@ =~= placeholder(key@));
    r
}

/// Replaces `{param}` placeholders in a path template with the values of
/// `params`.
pub fn replace_path_placeholders(template: &str, params: &OrdMap<String>) -> (r: String)
    ensures
        r@ == fill_placeholders(template@, params@),
{
    let mut result = chars_of(template);
    let n = params.len();
    let mut i: usize = 0;
    while i < n
        invariant
            n == params@.len(),
            i <= n,
            result@ == fill_placeholders(template@, params@.take(i as int)),
        decreases n - i,
    {
        assert(params@.take(i + 1).drop_last() =~= params@.take(i as int));
        let key = chars_of(params.key_at(i).as_str());
        let value = chars_of(params.value_at(i).as_str());
        let ph = placeholder_v(&key);
        result = crate::text::replace_all_v(&result, &ph, &value);
        i = i + 1;
    }
    assert(params@.take(n as int) =~= params@);
    string_of(&result)
}

// ---------------------------------------------------------------------------
// Requests
// ---------------------------------------------------------------------------

/// A request body as the command line gives it, before it is encoded as
/// JSON: named fields, each sent as JSON when it parses as JSON and as a
/// string otherwise, or one text sent the same way.
pub enum RequestBody {
    Fields(OrdMap<String>),
    Text(String),
}

pub enum BodyModel {
    Fields(Seq<(Seq<char>, Seq<char>)>),
    Text(Seq<char>),
}

impl DeepView for RequestBody {
    type V = BodyModel;

    open spec fn deep_view(&self) -> BodyModel {
        match self {
            RequestBody::Fields(m) => BodyModel::Fields(m@),
            RequestBody::Text(t) => BodyModel::Text(t@),
        }
    }
}

/// The model of an optional body.
pub open spec fn body_of(b: Option<RequestBody>) -> Option<BodyModel> {
    match b {
        Some(x) => Some(x.deep_view()),
        None => None,
    }
}

/// A request ready to be sent.
pub struct RequestParts {
    pub method: String,
    pub path: String,
    pub query: OrdMap<String>,
    pub body: Option<RequestBody>,
    pub headers: OrdMap<String>,
}

/// One member of a JSON body object: the quoted name, a colon, the value.
pub open spec fn member_json(k: Seq<char>, v: Seq<char>) -> Seq<char> {
    json_quoted(k) + ":"@ + value_json(v)
}

/// The members of a JSON body object, comma-separated, in order.
pub open spec fn members_json(fields: Seq<(Seq<char>, Seq<char>)>) -> Seq<char>
    decreases fields.len(),
{
    if fields.len() == 0 {
        Seq::empty()
    } else if fields.len() == 1 {
        member_json(fields[0].0, fields[0].1)
    } else {
        members_json(fields.drop_last()) + ","@ + member_json(fields.last().0, fields.last().1)
    }
}

/// The JSON text sent for a body: an object of the fields in name order, or
/// the single text; each value as itself when it is JSON, else as a string.
pub open spec fn body_json(b: BodyModel) -> Seq<char> {
    match b {
        BodyModel::Fields(f) => "{"@ + members_json(f) + "}"@,
        BodyModel::Text(t) => value_json(t),
    }
}

/// The JSON text of a request body.
pub fn body_text(body: &RequestBody) -> (r: String)
    ensures
        r@ == body_json(body.deep_view()),
{
    match body {
        RequestBody::Text(t) => value_json_text(t.as_str()),
        RequestBody::Fields(m) => {
            let mut out = chars_of("{");
            let n = m.len();
            let mut i: usize = 0;
            while i < n
                invariant
                    n == m@.len(),
                    i <= n,
                    out@ == "{"@ + members_json(m@.take(i as int)),
                decreases n - i,
            {
                let ghost before = out@;
                if i > 0 {
                    crate::text::push_str(&mut out, ",");
                }
                let k = quote_json(m.key_at(i).as_str());
                crate::text::push_str(&mut out, k.as_str());
                crate::text::push_str(&mut out, ":");
                let v = value_json_text(m.value_at(i).as_str());
                crate::text::push_str(&mut out, v.as_str());
                proof {
                    let t = m@.take(i + 1);
                    assert(t.drop_last() =~= m@.take(i as int));
                    assert(t.last() == m@[i as int]);
                    if i == 0 {
                        assert(t.len() == 1);
                        assert(t[0] == m@[0]);
                        assert(members_json(m@.take(0)) =~= Seq::<char>::empty());
                    }
                    assert(out@ =~= "{"@ + members_json(t));
                }
                i = i + 1;
            }
            assert(m@.take(n as int) =~= m@);
            crate::text::push_str(&mut out, "}");
            string_of(&out)
        },
    }
}

/// Where each parameter goes, before the body is encoded as JSON.
pub struct ParamRoutes {
    pub path: OrdMap<String>,
    pub query: OrdMap<String>,
    pub body: OrdMap<String>,
    pub headers: OrdMap<String>,
}

pub struct RoutesModel {
    pub path: Seq<(Seq<char>, Seq<char>)>,
    pub query: Seq<(Seq<char>, Seq<char>)>,
    pub body: Seq<(Seq<char>, Seq<char>)>,
    pub headers: Seq<(Seq<char>, Seq<char>)>,
}

impl DeepView for ParamRoutes {
    type V = RoutesModel;

    open spec fn deep_view(&self) -> RoutesModel {
        RoutesModel {
            path: self.path@,
            query: self.query@,
            body: self.body@,
            headers: self.headers@,
        }
    }
}

/// The declared location of a parameter; `query` when it is not declared.
pub open spec fn location_of(decl: Seq<(Seq<char>, ParamModel)>, name: Seq<char>) -> Seq<char> {
    match lookup(decl, name) {
        Some(p) => p.location,
        None => "query"@,
    }
}

/// Parameters routed by their declared location: `path`, `body`, `header`
/// (under the Title-Case header name), and `query` for `query` and anything
/// else. Parameters are taken in name order.
pub open spec fn route(decl: Seq<(Seq<char>, ParamModel)>, params: Seq<(Seq<char>, Seq<char>)>) -> RoutesModel
    decreases params.len(),
{
    if params.len() == 0 {
        RoutesModel { path: Seq::empty(), query: Seq::empty(), body: Seq::empty(), headers: Seq::empty() }
    } else {
        let r = route(decl, params.drop_last());
        let (name, value) = params.last();
        let loc = location_of(decl, name);
        if loc == "path"@ {
            RoutesModel { path: insert_sorted(r.path, name, value), ..r }
        } else if loc == "body"@ {
            RoutesModel { body: insert_sorted(r.body, name, value), ..r }
        } else if loc == "header"@ {
            RoutesModel { headers: insert_sorted(r.headers, normalized_header(name), value), ..r }
        } else {
            RoutesModel { query: insert_sorted(r.query, name, value), ..r }
        }
    }
}

/// A location that sends a parameter in the query string.
pub open spec fn query_like(loc: Seq<char>) -> bool {
    loc != "path"@ && loc != "body"@ && loc != "header"@
}

pub open spec fn routed_where_declared(
    decl: Seq<(Seq<char>, ParamModel)>,
    params: Seq<(Seq<char>, Seq<char>)>,
) -> bool {
    let r = route(decl, params);
    &&& forall|i: int| 0 <= i < r.path.len() ==> location_of(decl, #[trigger] r.path[i].0) == "path"@
    &&& forall|i: int| 0 <= i < r.body.len() ==> location_of(decl, #[trigger] r.body[i].0) == "body"@
    &&& forall|i: int| 0 <= i < r.query.len() ==> query_like(location_of(decl, #[trigger] r.query[i].0))
    &&& forall|j: int|
        0 <= j < params.len() ==> {
            let loc = location_of(decl, #[trigger] params[j].0);
            &&& loc == "path"@ ==> has_key(r.path, params[j].0)
            &&& loc == "body"@ ==> has_key(r.body, params[j].0)
            &&& loc == "header"@ ==> has_key(r.headers, normalized_header(params[j].0))
            &&& query_like(loc) ==> has_key(r.query, params[j].0)
        }
}

/// Every parameter is sent where its declaration says: the path, body and
/// query receive only parameters declared for them (the query also those
/// not declared at all), and none is dropped.
pub proof fn law_route_respects_locations(
    decl: Seq<(Seq<char>, ParamModel)>,
    params: Seq<(Seq<char>, Seq<char>)>,
)
    ensures
        routed_where_declared(decl, params),
    decreases params.len(),
{
    reveal_strlit("path");
    reveal_strlit("body");
    reveal_strlit("header");
    assert("body"@ != "path"@) by {
        assert("body"@[0] != "path"@[0]);
    }
    assert("header"@ != "path"@) by {
        assert("header"@.len() != "path"@.len());
    }
    assert("header"@ != "body"@) by {
        assert("header"@.len() != "body"@.len());
    }
    if params.len() > 0 {
        let init = params.drop_last();
        law_route_respects_locations(decl, init);
        let r0 = route(decl, init);
        let (name, value) = params.last();
        crate::ordmap::lemma_insert_sorted_keys(r0.path, name, value);
        crate::ordmap::lemma_insert_sorted_keys(r0.body, name, value);
        crate::ordmap::lemma_insert_sorted_keys(r0.query, name, value);
        crate::ordmap::lemma_insert_sorted_keys(r0.headers, normalized_header(name), value);
        let r = route(decl, params);
        assert forall|i: int| 0 <= i < r.path.len() implies location_of(decl, #[trigger] r.path[i].0)
            == "path"@ by {
            if r.path[i].0 != name || location_of(decl, name) != "path"@ {
                if location_of(decl, name) == "path"@ {
                    let k = choose|k: int| 0 <= k < r0.path.len() && r0.path[k].0 == r.path[i].0;
                } else {
                    assert(r.path == r0.path);
                }
            }
        }
        assert forall|i: int| 0 <= i < r.body.len() implies location_of(decl, #[trigger] r.body[i].0)
            == "body"@ by {
            if r.body[i].0 != name || location_of(decl, name) != "body"@ {
                if location_of(decl, name) == "body"@ {
                    let k = choose|k: int| 0 <= k < r0.body.len() && r0.body[k].0 == r.body[i].0;
                } else {
                    assert(r.body == r0.body);
                }
            }
        }
        assert forall|i: int| 0 <= i < r.query.len() implies query_like(
            location_of(decl, #[trigger] r.query[i].0),
        ) by {
            if r.query[i].0 != name || !query_like(location_of(decl, name)) {
                if query_like(location_of(decl, name)) {
                    let k = choose|k: int| 0 <= k < r0.query.len() && r0.query[k].0 == r.query[i].0;
                } else {
                    assert(r.query == r0.query);
                }
            }
        }
        assert forall|j: int| 0 <= j < params.len() && location_of(decl, #[trigger] params[j].0)
            == "path"@ implies has_key(r.path, params[j].0) by {
            if j < params.len() - 1 {
                assert(init[j] == params[j]);
                assert(has_key(r0.path, init[j].0));
                let k = choose|k: int| 0 <= k < r0.path.len() && r0.path[k].0 == params[j].0;
                assert(has_key(r.path, r0.path[k].0));
            }
        }
        assert forall|j: int| 0 <= j < params.len() && location_of(decl, #[trigger] params[j].0)
            == "body"@ implies has_key(r.body, params[j].0) by {
            if j < params.len() - 1 {
                assert(init[j] == params[j]);
                assert(has_key(r0.body, init[j].0));
                let k = choose|k: int| 0 <= k < r0.body.len() && r0.body[k].0 == params[j].0;
                assert(has_key(r.body, r0.body[k].0));
            }
        }
        assert forall|j: int| 0 <= j < params.len() && location_of(decl, #[trigger] params[j].0)
            == "header"@ implies has_key(r.headers, normalized_header(params[j].0)) by {
            if j < params.len() - 1 {
                assert(init[j] == params[j]);
                assert(has_key(r0.headers, normalized_header(init[j].0)));
                let k = choose|k: int|
                    0 <= k < r0.headers.len() && r0.headers[k].0 == normalized_header(params[j].0);
                assert(has_key(r.headers, r0.headers[k].0));
            }
        }
        assert forall|j: int| 0 <= j < params.len() && query_like(
            location_of(decl, #[trigger] params[j].0),
        ) implies has_key(r.query, params[j].0) by {
            if j < params.len() - 1 {
                assert(init[j] == params[j]);
                assert(has_key(r0.query, init[j].0));
                let k = choose|k: int| 0 <= k < r0.query.len() && r0.query[k].0 == params[j].0;
                assert(has_key(r.query, r0.query[k].0));
            }
        }
    }
}

/// Routes `params` by the locations declared for the endpoint.
pub fn route_params(ep: &EndpointConfig, params: &OrdMap<String>) -> (r: ParamRoutes)
    ensures
        r.deep_view() == route(ep.params@, params@),
{
    let mut r = ParamRoutes {
        path: OrdMap::new(),
        query: OrdMap::new(),
        body: OrdMap::new(),
        headers: OrdMap::new(),
    };
    let n = params.len();
    let mut i: usize = 0;
    while i < n
        invariant
            n == params@.len(),
            i <= n,
            r.deep_view() == route(ep.params@, params@.take(i as int)),
        decreases n - i,
    {
        assert(params@.take(i + 1).drop_last() =~= params@.take(i as int));
        assert(params@.take(i + 1).last() == params@[i as int]);
        let name = params.key_at(i);
        let value = params.value_at(i).clone();
        let loc: String = match ep.params.get(name.as_str()) {
            Some(p) => p.location.clone(),
            None => String::from_str("query"),
        };
        let l = loc.as_str();
        if str_eq(l, "path") {
            r.path.insert(name.clone(), value);
        } else if str_eq(l, "body") {
            r.body.insert(name.clone(), value);
        } else if str_eq(l, "header") {
            r.headers.insert(normalize_header_name(name.as_str()), value);
        } else {
            r.query.insert(name.clone(), value);
        }
        i = i + 1;
    }
    assert(params@.take(n as int) =~= params@);
    r
}

/// The first declared parameter, in name order, that is a required path
/// parameter and missing (`false`) or blank (`true`) among `path`.
pub open spec fn first_missing(
    decl: Seq<(Seq<char>, ParamModel)>,
    path: Seq<(Seq<char>, Seq<char>)>,
) -> Option<(Seq<char>, bool)>
    decreases decl.len(),
{
    if decl.len() == 0 {
        None
    } else {
        let (name, p) = decl[0];
        if p.required && p.location == "path"@ && lookup(path, name) is None {
            Some((name, false))
        } else if p.required && p.location == "path"@ && lookup(path, name) is Some
            && crate::text::trim(lookup(path, name).unwrap(), crate::text::CharClass::Whitespace).len() == 0 {
            Some((name, true))
        } else {
            first_missing(decl.drop_first(), path)
        }
    }
}

/// The error for a required path parameter that is missing or blank.
pub open spec fn missing_param_message(name: Seq<char>, blank: bool, path: Seq<char>) -> Seq<char> {
    if blank {
        "Missing required parameter '--"@ + name + "' (empty value) for path '"@ + path + "'"@
    } else {
        "Missing required parameter '--"@ + name + "' for path '"@ + path + "'"@
    }
}

fn find_missing(ep: &EndpointConfig, path: &OrdMap<String>) -> (r: Option<(String, bool)>)
    ensures
        match r {
            Some((n, b)) => first_missing(ep.params@, path@) == Some((n@, b)),
            None => first_missing(ep.params@, path@) is None,
        },
{
    let n = ep.params.len();
    let mut i: usize = 0;
    assert(ep.params@.skip(0) =~= ep.params@);
    while i < n
        invariant
            n == ep.params@.len(),
            i <= n,
            first_missing(ep.params@, path@) == first_missing(ep.params@.skip(i as int), path@),
        decreases n - i,
    {
        assert(ep.params@.skip(i as int).drop_first() =~= ep.params@.skip(i + 1));
        let name = ep.params.key_at(i);
        let p = ep.params.value_at(i);
        if p.required && str_eq(p.location.as_str(), "path") {
            match path.get(name.as_str()) {
                None => {
                    return Some((name.clone(), false));
                },
                Some(v) => {
                    let vv = chars_of(v.as_str());
                    let t = crate::text::trim_v(&vv, &crate::text::CharClass::Whitespace);
                    if t.len() == 0 {
                        return Some((name.clone(), true));
                    }
                },
            }
        }
        i = i + 1;
    }
    None
}

/// Builds the error message for a missing or blank required path parameter.
fn missing_param_error(name: &str, blank: bool, path: &str) -> (r: String)
    ensures
        r@ == missing_param_message(name@, blank, path@),
{
    let mut out = chars_of("Missing required parameter '--");
    crate::text::push_str(&mut out, name);
    if blank {
        crate::text::push_str(&mut out, "' (empty value) for path '");
    } else {
        crate::text::push_str(&mut out, "' for path '");
    }
    crate::text::push_str(&mut out, path);
    crate::text::push_str(&mut out, "'");
    string_of(&out)
}


/// Distributes params into path / query / body / headers by the endpoint's
/// declarations. Fails when a required path parameter is missing or blank,
/// naming the first such parameter.
pub fn distribute_params_with_config(ep: &EndpointConfig, params: &OrdMap<String>) -> (r: Result<
    RequestParts,
    String,
>)
    ensures
        match first_missing(ep.params@, route(ep.params@, params@).path) {
            Some((name, blank)) => r matches Err(e) && e@ == missing_param_message(
                name,
                blank,
                ep.path@,
            ),
            None => r matches Ok(parts) && {
                let routes = route(ep.params@, params@);
                &&& parts.method@ == crate::text::unicode_upper(ep.method@)
                &&& parts.path@ == fill_placeholders(ep.path@, routes.path)
                &&& parts.query@ == routes.query
                &&& parts.headers@ == routes.headers
                &&& body_of(parts.body) == (if routes.body.len() > 0 {
                    Some(BodyModel::Fields(routes.body))
                } else {
                    None
                })
            },
        },
{
    let routes = route_params(ep, params);
    let path = replace_path_placeholders(ep.path.as_str(), &routes.path);
    match find_missing(ep, &routes.path) {
        Some((name, blank)) => {
            return Err(missing_param_error(name.as_str(), blank, ep.path.as_str()));
        },
        None => {},
    }
    let body = if routes.body.is_empty() {
        None
    } else {
        Some(RequestBody::Fields(routes.body))
    };
    Ok(
        RequestParts {
            method: crate::text::to_upper(ep.method.as_str()),
            path,
            query: routes.query,
            body,
            headers: routes.headers,
        },
    )
}

/// Heuristic routing without a config: a parameter whose `{name}` occurs in
/// the template fills it, `body` becomes the body, the rest go to the query.
pub open spec fn heuristic_route(template: Seq<char>, params: Seq<(Seq<char>, Seq<char>)>) -> RoutesModel
    decreases params.len(),
{
    if params.len() == 0 {
        RoutesModel { path: Seq::empty(), query: Seq::empty(), body: Seq::empty(), headers: Seq::empty() }
    } else {
        let r = heuristic_route(template, params.drop_last());
        let (name, value) = params.last();
        if crate::text::spec_contains(template, placeholder(name)) {
            RoutesModel { path: insert_sorted(r.path, name, value), ..r }
        } else if name == "body"@ {
            RoutesModel { body: insert_sorted(r.body, name, value), ..r }
        } else {
            RoutesModel { query: insert_sorted(r.query, name, value), ..r }
        }
    }
}

/// Where heuristic routing sends a parameter of this name.
pub open spec fn heuristic_place(template: Seq<char>, name: Seq<char>) -> Seq<char> {
    if crate::text::spec_contains(template, placeholder(name)) {
        "path"@
    } else if name == "body"@ {
        "body"@
    } else {
        "query"@
    }
}

/// What a part of a heuristic routing holds under `name`: the parameter's
/// value when the parameter goes to `part`, else nothing.
pub open spec fn routed_value(
    template: Seq<char>,
    params: Seq<(Seq<char>, Seq<char>)>,
    part: Seq<char>,
    name: Seq<char>,
) -> Option<Seq<char>> {
    if heuristic_place(template, name) == part {
        lookup(params, name)
    } else {
        None
    }
}

/// Without a configuration, a parameter whose `{name}` occurs in the
/// template fills the path, the one named `body` is the body, and every
/// other one goes to the query; no header is sent and nothing else appears.
#[verifier::spinoff_prover]
pub proof fn law_heuristic_routing(template: Seq<char>, params: Seq<(Seq<char>, Seq<char>)>)
    ensures
        ({
            let r = heuristic_route(template, params);
            &&& sorted_keys(r.path) && sorted_keys(r.query) && sorted_keys(r.body)
            &&& r.headers.len() == 0
            &&& forall|q: Seq<char>| #[trigger] lookup(r.path, q) == routed_value(template, params, "path"@, q)
            &&& forall|q: Seq<char>| #[trigger] lookup(r.query, q) == routed_value(template, params, "query"@, q)
            &&& forall|q: Seq<char>| #[trigger] lookup(r.body, q) == routed_value(template, params, "body"@, q)
        }),
    decreases params.len(),
{
    let r = heuristic_route(template, params);
    reveal_strlit("path");
    reveal_strlit("query");
    reveal_strlit("body");
    if params.len() == 0 {
    } else {
        let d = params.drop_last();
        law_heuristic_routing(template, d);
        let r0 = heuristic_route(template, d);
        let (name, value) = params.last();
        lemma_insert_sorted_sorted(r0.path, name, value);
        lemma_insert_sorted_sorted(r0.query, name, value);
        lemma_insert_sorted_sorted(r0.body, name, value);
        assert(params.last() == (name, value));
        if crate::text::spec_contains(template, placeholder(name)) {
            assert(r.path == insert_sorted(r0.path, name, value));
            assert(r.query == r0.query && r.body == r0.body);
            assert(heuristic_place(template, name) == "path"@);
        } else if name == "body"@ {
            assert(r.body == insert_sorted(r0.body, name, value));
            assert(r.query == r0.query && r.path == r0.path);
            assert(heuristic_place(template, name) == "body"@);
        } else {
            assert(r.query == insert_sorted(r0.query, name, value));
            assert(r.path == r0.path && r.body == r0.body);
            assert(heuristic_place(template, name) == "query"@);
        }
        assert forall|q: Seq<char>| #[trigger] lookup(params, q) == (if q == name {
            Some(value)
        } else {
            lookup(d, q)
        }) by {
        }
        assert forall|q: Seq<char>| #[trigger] lookup(r.path, q) == routed_value(template, params, "path"@, q) by {
            lemma_insert_sorted_lookup(r0.path, name, value, q);
            assert(lookup(r0.path, q) == routed_value(template, d, "path"@, q));
        }
        assert forall|q: Seq<char>| #[trigger] lookup(r.query, q) == routed_value(template, params, "query"@, q) by {
            lemma_insert_sorted_lookup(r0.query, name, value, q);
            assert(lookup(r0.query, q) == routed_value(template, d, "query"@, q));
        }
        assert forall|q: Seq<char>| #[trigger] lookup(r.body, q) == routed_value(template, params, "body"@, q) by {
            lemma_insert_sorted_lookup(r0.body, name, value, q);
            assert(lookup(r0.body, q) == routed_value(template, d, "body"@, q));
            reveal_strlit("path");
            reveal_strlit("query");
            reveal_strlit("body");
            assert("path"@[0] != "body"@[0]);
            assert("query"@.len() != "body"@.len());
            if q == name {
                assert(lookup(params, q) == Some(value));
            } else {
                assert(lookup(params, q) == lookup(d, q));
            }
        }
    }
}

/// Distributes params without a config: see `heuristic_route`. The body,
/// when present, is the text of the `body` parameter.
pub fn distribute_params_heuristic(url_template: &str, method: &str, params: &OrdMap<String>) -> (r: RequestParts)
    ensures
        r.method@ == crate::text::unicode_upper(method@),
        r.path@ == fill_placeholders(url_template@, heuristic_route(url_template@, params@).path),
        r.query@ == heuristic_route(url_template@, params@).query,
        r.headers@ == Seq::<(Seq<char>, Seq<char>)>::empty(),
        body_of(r.body) == (if heuristic_route(url_template@, params@).body.len() > 0 {
            Some(BodyModel::Text(heuristic_route(url_template@, params@).body[0].1))
        } else {
            None
        }),
{
    let tv = chars_of(url_template);
    let mut path: OrdMap<String> = OrdMap::new();
    let mut query: OrdMap<String> = OrdMap::new();
    let mut body_text: OrdMap<String> = OrdMap::new();
    let n = params.len();
    let mut i: usize = 0;
    while i < n
        invariant
            n == params@.len(),
            i <= n,
            tv@ == url_template@,
            heuristic_route(url_template@, params@.take(i as int)) == (RoutesModel {
                path: path@,
                query: query@,
                body: body_text@,
                headers: Seq::empty(),
            }),
        decreases n - i,
    {
        assert(params@.take(i + 1).drop_last() =~= params@.take(i as int));
        assert(params@.take(i + 1).last() == params@[i as int]);
        let name = params.key_at(i);
        let value = params.value_at(i).clone();
        let nv = chars_of(name.as_str());
        let ph = placeholder_v(&nv);
        if crate::text::contains(&tv, &ph) {
            path.insert(name.clone(), value);
        } else if str_eq(name.as_str(), "body") {
            body_text.insert(name.clone(), value);
        } else {
            query.insert(name.clone(), value);
        }
        i = i + 1;
    }
    assert(params@.take(n as int) =~= params@);
    let filled = replace_path_placeholders(url_template, &path);
    let body = if body_text.is_empty() {
        None
    } else {
        Some(RequestBody::Text(body_text.value_at(0).clone()))
    };
    RequestParts {
        method: crate::text::to_upper(method),
        path: filled,
        query,
        body,
        headers: OrdMap::new(),
    }
}

} // verus!
