//! Site configuration files: where a site's file lives, which file is used
//! when none is named, the active-site marker, and the site listings.

use vstd::prelude::*;
use crate::ordmap::{KeyOrder, compare_keys, key_lt, lemma_key_lt_asymmetric, lemma_key_lt_total, lemma_key_lt_transitive};
use crate::text::{
    CharClass, chars_of, join, join_path, join_path_v, push_str, spec_ends_with, string_of, to_lower,
    trim, trim_v, unicode_lower,
};

verus! {

// ---------------------------------------------------------------------------
// Locating a site's file
// ---------------------------------------------------------------------------

/// The two files a site may be stored in: `<name>.yaml`, then `<name>.yml`.
pub fn site_config_candidates(config_dir: &str, name: &str) -> (r: (String, String))
    ensures
        r.0@ == join_path(config_dir@, name@ + ".yaml"@),
        r.1@ == join_path(config_dir@, name@ + ".yml"@),
{
    let mut a = chars_of(name);
    push_str(&mut a, ".yaml");
    let mut b = chars_of(name);
    push_str(&mut b, ".yml");
    let sa = string_of(&a);
    let sb = string_of(&b);
    (join_path_v(config_dir, sa.as_str()), join_path_v(config_dir, sb.as_str()))
}

/// The file of a site, given which of its two candidate files exist:
/// `.yaml` is preferred over `.yml`.
pub fn site_config_path(config_dir: &str, name: &str, yaml_exists: bool, yml_exists: bool) -> (r:
    Option<String>)
    ensures
        yaml_exists ==> r.deep_view() == Some(join_path(config_dir@, name@ + ".yaml"@)),
        !yaml_exists && yml_exists ==> r.deep_view() == Some(join_path(config_dir@, name@ + ".yml"@)),
        !yaml_exists && !yml_exists ==> r is None,
{
    let (yaml, yml) = site_config_candidates(config_dir, name);
    if yaml_exists {
        Some(yaml)
    } else if yml_exists {
        Some(yml)
    } else {
        None
    }
}

// ---------------------------------------------------------------------------
// Choosing a file when none is named
// ---------------------------------------------------------------------------

/// Whether a candidate with `count` commands, modified at `mtime`, beats
/// the best so far.
pub open spec fn beats(count: u128, mtime: u128, best: (u128, u128)) -> bool {
    count > best.0 || (count == best.0 && mtime > best.1)
}

/// The index of the best of `cands` (path, command count, modification
/// time): most commands, then newest, then first.
pub open spec fn best_index(cands: Seq<(String, u128, u128)>) -> int
    decreases cands.len(),
{
    if cands.len() <= 1 {
        0
    } else {
        let b = best_index(cands.drop_last());
        let l = cands.last();
        if beats(l.1, l.2, (cands[b].1, cands[b].2)) {
            cands.len() - 1
        } else {
            b
        }
    }
}

/// The configuration to use among several: the one with the most commands,
/// ties broken by the newest modification time, then by order.
pub fn pick_best_config(cands: &Vec<(String, u128, u128)>) -> (r: Option<String>)
    ensures
        cands@.len() == 0 ==> r is None,
        cands@.len() > 0 ==> r.deep_view() == Some(cands@[best_index(cands@)].0@),
{
    if cands.len() == 0 {
        return None;
    }
    let mut best: usize = 0;
    let mut i: usize = 1;
    proof {
        lemma_best_index_range(cands@.take(1));
        assert(best_index(cands@.take(1)) == 0);
    }
    while i < cands.len()
        invariant
            1 <= i <= cands.len(),
            best < i,
            best == best_index(cands@.take(i as int)),
        decreases cands.len() - i,
    {
        let ghost prefix = cands@.take(i + 1);
        proof {
            assert(prefix.drop_last() =~= cands@.take(i as int));
            lemma_best_index_range(cands@.take(i as int));
            assert(prefix[best as int] == cands@[best as int]);
        }
        let c = &cands[i];
        let b = &cands[best];
        if c.1 > b.1 || (c.1 == b.1 && c.2 > b.2) {
            best = i;
        }
        i = i + 1;
    }
    assert(cands@.take(cands.len() as int) =~= cands@);
    Some(cands[best].0.clone())
}

proof fn lemma_best_index_range(cands: Seq<(String, u128, u128)>)
    ensures
        cands.len() > 0 ==> 0 <= best_index(cands) < cands.len(),
    decreases cands.len(),
{
    if cands.len() > 1 {
        lemma_best_index_range(cands.drop_last());
    }
}

/// The configuration chosen has at least as many commands as any other,
/// and is at least as new as any other with as many.
pub proof fn law_best_config_is_best(cands: Seq<(String, u128, u128)>, k: int)
    requires
        0 <= k < cands.len(),
    ensures
        ({
            let b = best_index(cands);
            &&& 0 <= b < cands.len()
            &&& cands[k].1 <= cands[b].1
            &&& cands[k].1 == cands[b].1 ==> cands[k].2 <= cands[b].2
        }),
    decreases cands.len(),
{
    lemma_best_index_range(cands);
    if cands.len() > 1 {
        let init = cands.drop_last();
        lemma_best_index_range(init);
        if k < cands.len() - 1 {
            law_best_config_is_best(init, k);
            assert(init[k] == cands[k]);
        } else {
            law_best_config_is_best(init, 0);
        }
        assert(init[best_index(init)] == cands[best_index(init)]);
    }
}

/// The first steps of looking for a configuration file.
pub enum SearchStep {
    /// Use this file.
    Found(String),
    /// Give up; this is printed on standard error.
    NotFound(String),
    /// Choose among the files of the configuration directory.
    ScanDirectory,
}

/// Looks for the configuration file in order: the `--config` path (which
/// must exist), the `--site` file (which must exist), `./restie.yaml`, the
/// active site's file; after that the configuration directory is scanned.
pub fn search_config(
    explicit: Option<&str>,
    explicit_exists: bool,
    site: Option<&str>,
    site_file: Option<String>,
    local_exists: bool,
    active_file: Option<String>,
) -> (r: SearchStep)
    ensures
        match explicit {
            Some(p) => if explicit_exists {
                r matches SearchStep::Found(f) && f@ == p@
            } else {
                r matches SearchStep::NotFound(m) && m@ == "Config file not found: "@ + p@
            },
            None => match site {
                Some(n) => match site_file {
                    Some(f) => r matches SearchStep::Found(g) && g@ == f@,
                    None => r matches SearchStep::NotFound(m) && m@ == "Site config not found: "@
                        + n@ + ".yaml/.yml"@,
                },
                None => if local_exists {
                    r matches SearchStep::Found(f) && f@ == "./restie.yaml"@
                } else {
                    match active_file {
                        Some(f) => r matches SearchStep::Found(g) && g@ == f@,
                        None => r is ScanDirectory,
                    }
                },
            },
        },
{
    match explicit {
        Some(p) => {
            if explicit_exists {
                SearchStep::Found(String::from_str(p))
            } else {
                let mut m = chars_of("Config file not found: ");
                push_str(&mut m, p);
                SearchStep::NotFound(string_of(&m))
            }
        },
        None => match site {
            Some(n) => match site_file {
                Some(f) => SearchStep::Found(f),
                None => {
                    let mut m = chars_of("Site config not found: ");
                    push_str(&mut m, n);
                    push_str(&mut m, ".yaml/.yml");
                    SearchStep::NotFound(string_of(&m))
                },
            },
            None => {
                if local_exists {
                    SearchStep::Found(String::from_str("./restie.yaml"))
                } else {
                    match active_file {
                        Some(f) => SearchStep::Found(f),
                        None => SearchStep::ScanDirectory,
                    }
                }
            },
        },
    }
}

// ---------------------------------------------------------------------------
// The active site
// ---------------------------------------------------------------------------

/// The active site recorded in the marker file: its trimmed contents,
/// unless blank.
pub fn active_site_from(marker: &str) -> (r: Option<String>)
    ensures
        match r {
            Some(s) => s@ == trim(marker@, CharClass::Whitespace) && s@.len() > 0,
            None => trim(marker@, CharClass::Whitespace).len() == 0,
        },
{
    let v = chars_of(marker);
    let t = trim_v(&v, &CharClass::Whitespace);
    if t.len() == 0 {
        None
    } else {
        Some(string_of(&t))
    }
}

/// What the marker file holds for a site name: the name, trimmed.
pub fn marker_text(name: &str) -> (r: String)
    ensures
        r@ == trim(name@, CharClass::Whitespace),
{
    let v = chars_of(name);
    let t = trim_v(&v, &CharClass::Whitespace);
    string_of(&t)
}

/// Trimming twice is trimming once, so the trimmed name that `marker_text`
/// writes for a site is what `active_site_from` reads back from it.
pub proof fn law_active_site_round_trip(name: Seq<char>)
    ensures
        trim(trim(name, CharClass::Whitespace), CharClass::Whitespace) == trim(
            name,
            CharClass::Whitespace,
        ),
{
    let t = trim(name, CharClass::Whitespace);
    crate::naming::lemma_trim_is_stretch(name, CharClass::Whitespace);
    if t.len() == 0 {
        assert(crate::text::trim_end(t, CharClass::Whitespace) == t);
    } else {
        assert(crate::text::trim_end(t, CharClass::Whitespace) == t);
        assert(crate::text::trim_start(t, CharClass::Whitespace) == t);
    }
}

/// The error for making a site without a configuration file active.
pub fn missing_site_message(name: &str, config_dir: &str) -> (r: String)
    ensures
        r@ == "No config found for site '"@ + name@ + "' ("@ + join_path(config_dir@, name@)
            + ".yaml/.yml)"@,
{
    let mut m = chars_of("No config found for site '");
    push_str(&mut m, name);
    push_str(&mut m, "' (");
    let p = join_path_v(config_dir, name);
    push_str(&mut m, p.as_str());
    push_str(&mut m, ".yaml/.yml)");
    string_of(&m)
}

// ---------------------------------------------------------------------------
// Listings, ordered by lowercased name
// ---------------------------------------------------------------------------

/// `x` placed before the first entry whose key is greater, so that entries
/// with equal keys keep their order.
pub open spec fn insert_stable(
    x: (Seq<char>, Seq<char>),
    s: Seq<(Seq<char>, Seq<char>)>,
) -> Seq<(Seq<char>, Seq<char>)>
    decreases s.len(),
{
    if s.len() == 0 {
        seq![x]
    } else if key_lt(x.0, s[0].0) {
        seq![x] + s
    } else {
        seq![s[0]] + insert_stable(x, s.drop_first())
    }
}

/// `(key, name)` entries sorted by key, stably.
pub open spec fn stable_sort(s: Seq<(Seq<char>, Seq<char>)>) -> Seq<(Seq<char>, Seq<char>)>
    decreases s.len(),
{
    if s.len() == 0 {
        s
    } else {
        insert_stable(s.last(), stable_sort(s.drop_last()))
    }
}

/// Names keyed by their lowercase form.
pub open spec fn keyed(names: Seq<Seq<char>>) -> Seq<(Seq<char>, Seq<char>)> {
    names.map_values(|n: Seq<char>| (unicode_lower(n), n))
}

/// Names ordered case-insensitively (by their lowercase form), keeping the
/// given order among names with the same lowercase form.
pub open spec fn sorted_names(names: Seq<Seq<char>>) -> Seq<Seq<char>> {
    names_of(stable_sort(keyed(names)))
}

/// The names of `(key, name)` entries, in order.
pub open spec fn names_of(s: Seq<(Seq<char>, Seq<char>)>) -> Seq<Seq<char>> {
    s.map_values(|e: (Seq<char>, Seq<char>)| e.1)
}

pub open spec fn keys_ordered(s: Seq<(Seq<char>, Seq<char>)>) -> bool {
    forall|i: int, j: int| 0 <= i < j < s.len() ==> !key_lt(#[trigger] s[j].0, #[trigger] s[i].0)
}

proof fn lemma_insert_stable_at(x: (Seq<char>, Seq<char>), s: Seq<(Seq<char>, Seq<char>)>, j: int)
    requires
        0 <= j <= s.len(),
        forall|k: int| 0 <= k < j ==> !key_lt(x.0, #[trigger] s[k].0),
        j < s.len() ==> key_lt(x.0, s[j].0),
    ensures
        insert_stable(x, s) == s.insert(j, x),
    decreases s.len(),
{
    if s.len() == 0 {
        assert(s.insert(0, x) =~= seq![x]);
    } else if j == 0 {
        assert(s.insert(0, x) =~= seq![x] + s);
    } else {
        let t = s.drop_first();
        assert forall|k: int| 0 <= k < j - 1 implies !key_lt(x.0, #[trigger] t[k].0) by {
            assert(t[k] == s[k + 1]);
        }
        if j - 1 < t.len() {
            assert(t[j - 1] == s[j]);
        }
        lemma_insert_stable_at(x, t, j - 1);
        assert(seq![s[0]] + t.insert(j - 1, x) =~= s.insert(j, x));
    }
}

proof fn lemma_insert_stable_ordered(x: (Seq<char>, Seq<char>), s: Seq<(Seq<char>, Seq<char>)>)
    requires
        keys_ordered(s),
    ensures
        keys_ordered(insert_stable(x, s)),
        insert_stable(x, s).len() == s.len() + 1,
    decreases s.len(),
{
    if s.len() == 0 {
    } else if key_lt(x.0, s[0].0) {
        let r = seq![x] + s;
        assert forall|i: int, j: int| 0 <= i < j < r.len() implies !key_lt(
            #[trigger] r[j].0,
            #[trigger] r[i].0,
        ) by {
            if i == 0 {
                assert(r[j] == s[j - 1]);
                if j - 1 > 0 {
                    assert(!key_lt(s[j - 1].0, s[0].0));
                    lemma_key_lt_total(s[j - 1].0, s[0].0);
                    if key_lt(s[0].0, s[j - 1].0) {
                        lemma_key_lt_transitive(x.0, s[0].0, s[j - 1].0);
                    }
                }
                lemma_key_lt_asymmetric(x.0, s[j - 1].0);
            } else {
                assert(r[i] == s[i - 1]);
                assert(r[j] == s[j - 1]);
            }
        }
    } else {
        let t = s.drop_first();
        assert(keys_ordered(t)) by {
            assert forall|i: int, j: int| 0 <= i < j < t.len() implies !key_lt(
                #[trigger] t[j].0,
                #[trigger] t[i].0,
            ) by {
                assert(t[i] == s[i + 1]);
                assert(t[j] == s[j + 1]);
            }
        }
        lemma_insert_stable_ordered(x, t);
        let it = insert_stable(x, t);
        let r = seq![s[0]] + it;
        // every element of `it` is either x or an element of t, none below s[0]
        assert forall|k: int| 0 <= k < it.len() implies !key_lt(#[trigger] it[k].0, s[0].0) by {
            lemma_insert_stable_members(x, t, k);
            if it[k] == x {
            } else {
                let m = choose|m: int| 0 <= m < t.len() && t[m] == it[k];
                assert(t[m] == s[m + 1]);
            }
        }
        assert forall|i: int, j: int| 0 <= i < j < r.len() implies !key_lt(
            #[trigger] r[j].0,
            #[trigger] r[i].0,
        ) by {
            if i == 0 {
                assert(r[j] == it[j - 1]);
            } else {
                assert(r[i] == it[i - 1]);
                assert(r[j] == it[j - 1]);
            }
        }
    }
}

proof fn lemma_insert_stable_members(x: (Seq<char>, Seq<char>), s: Seq<(Seq<char>, Seq<char>)>, k: int)
    requires
        0 <= k < insert_stable(x, s).len(),
    ensures
        insert_stable(x, s)[k] == x || exists|m: int| 0 <= m < s.len() && s[m] == insert_stable(x, s)[k],
        insert_stable(x, s).len() == s.len() + 1,
    decreases s.len(),
{
    if s.len() == 0 {
    } else if key_lt(x.0, s[0].0) {
        if k > 0 {
            assert((seq![x] + s)[k] == s[k - 1]);
        }
    } else {
        let t = s.drop_first();
        lemma_insert_stable_members(x, t, 0);
        if k > 0 {
            lemma_insert_stable_members(x, t, k - 1);
            let it = insert_stable(x, t);
            assert((seq![s[0]] + it)[k] == it[k - 1]);
            if it[k - 1] != x {
                let m = choose|m: int| 0 <= m < t.len() && t[m] == it[k - 1];
                assert(s[m + 1] == t[m]);
            }
        } else {
            assert((seq![s[0]] + insert_stable(x, t))[0] == s[0]);
        }
    }
}

proof fn lemma_stable_sort_ordered(s: Seq<(Seq<char>, Seq<char>)>)
    ensures
        keys_ordered(stable_sort(s)),
        stable_sort(s).len() == s.len(),
    decreases s.len(),
{
    if s.len() > 0 {
        lemma_stable_sort_ordered(s.drop_last());
        lemma_insert_stable_ordered(s.last(), stable_sort(s.drop_last()));
    }
}

/// Listed names come out in case-insensitive order: no name's lowercase
/// form sorts before that of a name listed earlier.
pub proof fn law_sorted_names_ordered(names: Seq<Seq<char>>)
    ensures
        sorted_names(names).len() == names.len(),
        forall|i: int, j: int|
            0 <= i < j < names.len() ==> !key_lt(
                #[trigger] stable_sort(keyed(names))[j].0,
                #[trigger] stable_sort(keyed(names))[i].0,
            ),
{
    lemma_stable_sort_ordered(keyed(names));
}

proof fn lemma_insert_stable_position(x: (Seq<char>, Seq<char>), s: Seq<(Seq<char>, Seq<char>)>) -> (j: int)
    ensures
        0 <= j <= s.len(),
        insert_stable(x, s) == s.insert(j, x),
    decreases s.len(),
{
    if s.len() == 0 {
        assert(s.insert(0, x) =~= seq![x]);
        0
    } else if key_lt(x.0, s[0].0) {
        assert(s.insert(0, x) =~= seq![x] + s);
        0
    } else {
        let t = s.drop_first();
        let j = lemma_insert_stable_position(x, t);
        assert(seq![s[0]] + t.insert(j, x) =~= s.insert(j + 1, x));
        j + 1
    }
}

proof fn lemma_stable_sort_keeps_names(s: Seq<(Seq<char>, Seq<char>)>)
    ensures
        names_of(stable_sort(s)).to_multiset() == names_of(s).to_multiset(),
    decreases s.len(),
{
    broadcast use vstd::seq_lib::to_multiset_build, vstd::seq_lib::to_multiset_insert;

    if s.len() > 0 {
        let d = s.drop_last();
        let sd = stable_sort(d);
        lemma_stable_sort_keeps_names(d);
        let j = lemma_insert_stable_position(s.last(), sd);
        assert(names_of(stable_sort(s)) =~= names_of(sd).insert(j, s.last().1));
        assert(names_of(s) =~= names_of(d).push(s.last().1));
        assert(names_of(sd).insert(j, s.last().1).to_multiset() == names_of(sd).to_multiset().insert(
            s.last().1,
        ));
        assert(names_of(d).push(s.last().1).to_multiset() == names_of(d).to_multiset().insert(
            s.last().1,
        ));
    }
}

/// Sorting site names keeps every name, each as often as it was given.
pub proof fn law_sorted_names_keep_names(names: Seq<Seq<char>>)
    ensures
        sorted_names(names).to_multiset() == names.to_multiset(),
{
    lemma_stable_sort_keeps_names(keyed(names));
    assert(names_of(keyed(names)) =~= names);
}

/// Orders names case-insensitively, stably.
pub fn sort_names(names: &Vec<String>) -> (r: Vec<String>)
    ensures
        r.deep_view() == sorted_names(names.deep_view()),
{
    let ghost input = keyed(names.deep_view());
    let mut keys: Vec<Vec<char>> = Vec::new();
    let mut out: Vec<String> = Vec::new();
    let mut i: usize = 0;
    while i < names.len()
        invariant
            i <= names.len(),
            input == keyed(names.deep_view()),
            keys@.len() == out@.len(),
            keys@.len() == i,
            Seq::new(keys@.len(), |k: int| (keys@[k]@, out@[k]@)) == stable_sort(input.take(i as int)),
        decreases names.len() - i,
    {
        let ghost cur = Seq::new(keys@.len(), |k: int| (keys@[k]@, out@[k]@));
        let lowered = to_lower(names[i].as_str());
        let key = chars_of(lowered.as_str());
        let ghost x = (key@, names@[i as int]@);
        assert(input.take(i + 1).drop_last() =~= input.take(i as int));
        assert(input.take(i + 1).last() == input[i as int]);
        assert(input[i as int] == x);
        // first position whose key is greater
        let mut j: usize = 0;
        let mut stop = false;
        while j < keys.len() && !stop
            invariant
                j <= keys.len(),
                keys@.len() == out@.len(),
                cur == Seq::new(keys@.len(), |k: int| (keys@[k]@, out@[k]@)),
                forall|k: int| 0 <= k < j ==> !key_lt(key@, #[trigger] cur[k].0),
                stop ==> j < keys.len() && key_lt(key@, cur[j as int].0),
            decreases 2 * (keys.len() - j) + (if stop {
                0int
            } else {
                1int
            }),
        {
            match compare_keys(&key, &keys[j]) {
                KeyOrder::Less => {
                    stop = true;
                },
                _ => {
                    j = j + 1;
                },
            }
        }
        proof {
            if j < keys.len() {
                assert(cur[j as int].0 == keys@[j as int]@);
            }
            lemma_insert_stable_at(x, cur, j as int);
        }
        keys.insert(j, key);
        out.insert(j, names[i].clone());
        assert(Seq::new(keys@.len(), |k: int| (keys@[k]@, out@[k]@)) =~= cur.insert(j as int, x));
        i = i + 1;
    }
    assert(input.take(names.len() as int) =~= input);
    assert(out.deep_view() =~= names_of(stable_sort(input)));
    out
}

/// A site's name from its file name: without `.yaml`, else without `.yml`.
pub open spec fn site_stem(file: Seq<char>) -> Seq<char> {
    if spec_ends_with(file, ".yaml"@) {
        file.take(file.len() - 5)
    } else if spec_ends_with(file, ".yml"@) {
        file.take(file.len() - 4)
    } else {
        file
    }
}

pub fn site_stem_of(file: &str) -> (r: String)
    ensures
        r@ == site_stem(file@),
{
    let v = chars_of(file);
    let yaml = chars_of(".yaml");
    let yml = chars_of(".yml");
    proof {
        reveal_strlit(".yaml");
        reveal_strlit(".yml");
    }
    if crate::text::ends_with(&v, &yaml) {
        let s = crate::text::subvec(&v, 0, v.len() - 5);
        string_of(&s)
    } else if crate::text::ends_with(&v, &yml) {
        let s = crate::text::subvec(&v, 0, v.len() - 4);
        string_of(&s)
    } else {
        String::from_str(file)
    }
}

pub open spec fn site_lines(files: Seq<Seq<char>>) -> Seq<char>
    decreases files.len(),
{
    if files.len() == 0 {
        Seq::empty()
    } else {
        site_lines(files.drop_last()) + "  "@ + site_stem(files.last()) + "\n"@
    }
}

/// The `sites` listing of the configuration files found in `config_dir`
/// (already limited to `.yaml` / `.yml` files): names in case-insensitive
/// order; nothing when there is none.
pub fn sites_listing(config_dir: &str, files: &Vec<String>) -> (r: Option<String>)
    ensures
        files@.len() == 0 ==> r is None,
        files@.len() > 0 ==> (r matches Some(t) && t@ == "Available sites in "@ + config_dir@
            + ":\n\n"@ + site_lines(sorted_names(files.deep_view()))),
{
    if files.len() == 0 {
        return None;
    }
    let sorted = sort_names(files);
    let mut out = chars_of("Available sites in ");
    push_str(&mut out, config_dir);
    push_str(&mut out, ":\n\n");
    let ghost head = out@;
    let ghost sv = sorted.deep_view();
    let mut i: usize = 0;
    while i < sorted.len()
        invariant
            i <= sorted.len(),
            sv == sorted.deep_view(),
            out@ == head + site_lines(sv.take(i as int)),
        decreases sorted.len() - i,
    {
        assert(sv.take(i + 1).drop_last() =~= sv.take(i as int));
        assert(sv.take(i + 1).last() == sorted@[i as int]@);
        push_str(&mut out, "  ");
        let stem = site_stem_of(sorted[i].as_str());
        push_str(&mut out, stem.as_str());
        push_str(&mut out, "\n");
        assert(out@ =~= head + site_lines(sv.take(i + 1)));
        i = i + 1;
    }
    assert(sv.take(sorted.len() as int) =~= sv);
    Some(string_of(&out))
}

/// The note printed when several site files exist and none was named.
pub fn site_hint(sites: &Vec<String>, active: Option<&str>) -> (r: Option<String>)
    ensures
        sites@.len() <= 1 ==> r is None,
        sites@.len() > 1 ==> (r matches Some(t) && t@ == match active {
            Some(a) => "\nMultiple site configs found ("@ + join(sites.deep_view(), ", "@)
                + "). Active: '"@ + a@
                + "' \u{2014} use 'restie site set <name>' or --site <name> to switch."@,
            None => "\nMultiple site configs found ("@ + join(sites.deep_view(), ", "@)
                + "). No active site set \u{2014} pass --site <name>, or set one with 'restie site set <name>'."@,
        }),
{
    if sites.len() <= 1 {
        return None;
    }
    let mut parts: Vec<Vec<char>> = Vec::new();
    let mut i: usize = 0;
    while i < sites.len()
        invariant
            i <= sites.len(),
            crate::text::views(parts@) == sites.deep_view().take(i as int),
        decreases sites.len() - i,
    {
        let c = chars_of(sites[i].as_str());
        assert(sites.deep_view()[i as int] == sites@[i as int]@);
        let ghost before = parts@;
        parts.push(c);
        assert(parts@ =~= before.push(c));
        assert(crate::text::views(parts@) =~= crate::text::views(before).push(c@));
        assert(sites.deep_view().take(i + 1) =~= sites.deep_view().take(i as int).push(
            sites.deep_view()[i as int],
        ));
        assert(crate::text::views(parts@) =~= sites.deep_view().take(i + 1));
        i = i + 1;
    }
    assert(sites.deep_view().take(sites.len() as int) =~= sites.deep_view());
    let sep = chars_of(", ");
    let joined = crate::text::join_v(&parts, &sep);
    let mut out = chars_of("\nMultiple site configs found (");
    crate::text::append_chars(&mut out, &joined);
    match active {
        Some(a) => {
            push_str(&mut out, "). Active: '");
            push_str(&mut out, a);
            push_str(&mut out, "' \u{2014} use 'restie site set <name>' or --site <name> to switch.");
        },
        None => {
            push_str(
                &mut out,
                "). No active site set \u{2014} pass --site <name>, or set one with 'restie site set <name>'.",
            );
        },
    }
    Some(string_of(&out))
}

} // verus!
