//! Names derived from API descriptions: command names from operation
//! summaries, fallbacks from method and path, and file names from API titles.

use vstd::prelude::*;
use crate::text::{
    CharClass, append_chars, chars_of, collapse_runs, collapse_runs_v, dashify, dashify_v, join,
    join_v, push_str, replace_all, replace_all_v, seq_eq, spec_ascii_alnum, spec_ends_with,
    spec_is_ws, spec_starts_with, split_on, split_on_v, starts_with, str_eq, string_of,
    strip_prefix_repeated, strip_prefix_repeated_v, subvec, to_lower, trim, trim_end, trim_start,
    trim_start_v, trim_v, unicode_lower, views, words_on, words_on_v,
};

verus! {

// ---------------------------------------------------------------------------
// Module word variants
// ---------------------------------------------------------------------------

/// The spellings of a module word that a command name should not repeat:
/// the word, its form without a trailing `s`, and the long forms of
/// `repo(s)` and `org(s)`.
pub open spec fn variants_of(word: Seq<char>) -> Seq<Seq<char>> {
    let base = seq![word];
    let with_singular = if spec_ends_with(word, "s"@) {
        base.push(word.take(word.len() - 1))
    } else {
        base
    };
    if word == "repos"@ || word == "repo"@ {
        with_singular.push("repositories"@).push("repository"@)
    } else if word == "orgs"@ || word == "org"@ {
        with_singular.push("organizations"@).push("organization"@)
    } else {
        with_singular
    }
}

/// Word variants for a module name part.
pub fn word_variants(word: &str) -> (r: Vec<String>)
    ensures
        r.deep_view() == variants_of(word@),
{
    let mut r: Vec<String> = Vec::new();
    r.push(String::from_str(word));
    let w = chars_of(word);
    let s = chars_of("s");
    if crate::text::ends_with(&w, &s) {
        proof {
            reveal_strlit("s");
        }
        let singular = subvec(&w, 0, w.len() - 1);
        assert(singular@ =~= w@.take(w@.len() - 1));
        r.push(string_of(&singular));
    }
    if str_eq(word, "repos") || str_eq(word, "repo") {
        r.push(String::from_str("repositories"));
        r.push(String::from_str("repository"));
    } else if str_eq(word, "orgs") || str_eq(word, "org") {
        r.push(String::from_str("organizations"));
        r.push(String::from_str("organization"));
    }
    assert(r.deep_view() =~= variants_of(word@));
    r
}

/// The variants of every `-`-separated part of a module name.
pub open spec fn module_variants(parts: Seq<Seq<char>>) -> Seq<Seq<char>>
    decreases parts.len(),
{
    if parts.len() == 0 {
        Seq::empty()
    } else {
        module_variants(parts.drop_last()) + variants_of(parts.last())
    }
}

// ---------------------------------------------------------------------------
// Operation ids and fallbacks
// ---------------------------------------------------------------------------

/// `operation_id` without a leading `module/`.
pub open spec fn without_module_prefix(operation_id: Seq<char>, module: Seq<char>) -> Seq<char> {
    let prefix = module + "/"@;
    if spec_starts_with(operation_id, prefix) {
        operation_id.skip(prefix.len() as int)
    } else {
        operation_id
    }
}

/// Strips a `module/` prefix from an operation id (`repos/get` becomes `get`).
pub fn strip_module_prefix(operation_id: &str, module: &str) -> (r: String)
    ensures
        r@ == without_module_prefix(operation_id@, module@),
{
    let mut prefix = chars_of(module);
    push_str(&mut prefix, "/");
    let op = chars_of(operation_id);
    if starts_with(&op, &prefix) {
        let rest = subvec(&op, prefix.len(), op.len());
        assert(rest@ =~= op@.skip(prefix@.len() as int));
        string_of(&rest)
    } else {
        String::from_str(operation_id)
    }
}

/// `s` without `{` and `}`, and with `/` turned into `-`.
pub open spec fn path_word(s: Seq<char>) -> Seq<char>
    decreases s.len(),
{
    if s.len() == 0 {
        s
    } else {
        let rest = path_word(s.drop_last());
        let c = s.last();
        if c == '{' || c == '}' {
            rest
        } else if c == '/' {
            rest.push('-')
        } else {
            rest.push(c)
        }
    }
}

/// The command name used when an operation has neither summary nor id:
/// lowercased method, `-`, and the path without leading slashes or braces,
/// slashes turned into dashes (`GET /repos/{owner}` gives `get-repos-owner`).
pub open spec fn fallback_name(method: Seq<char>, path: Seq<char>) -> Seq<char> {
    unicode_lower(method) + "-"@ + path_word(trim_start(path, CharClass::Exactly('/')))
}

pub fn derive_fallback_name(method: &str, path: &str) -> (r: String)
    ensures
        r@ == fallback_name(method@, path@),
{
    let p = chars_of(path);
    let clean = trim_start_v(&p, &CharClass::Exactly('/'));
    let mut word: Vec<char> = Vec::new();
    let mut i: usize = 0;
    while i < clean.len()
        invariant
            i <= clean.len(),
            word@ == path_word(clean@.take(i as int)),
        decreases clean.len() - i,
    {
        assert(clean@.take(i + 1).drop_last() =~= clean@.take(i as int));
        let c = clean[i];
        if c == '{' || c == '}' {
        } else if c == '/' {
            word.push('-');
        } else {
            word.push(c);
        }
        i = i + 1;
    }
    assert(clean@.take(clean@.len() as int) =~= clean@);
    let lowered = to_lower(method);
    let mut out = chars_of(lowered.as_str());
    push_str(&mut out, "-");
    append_chars(&mut out, &word);
    string_of(&out)
}

// ---------------------------------------------------------------------------
// Command names from summaries
// ---------------------------------------------------------------------------

pub open spec fn is_article(w: Seq<char>) -> bool {
    w == "a"@ || w == "an"@ || w == "the"@
}

/// The words without articles.
pub open spec fn without_articles(ws: Seq<Seq<char>>) -> Seq<Seq<char>>
    decreases ws.len(),
{
    if ws.len() == 0 {
        ws
    } else if is_article(ws.last()) {
        without_articles(ws.drop_last())
    } else {
        without_articles(ws.drop_last()).push(ws.last())
    }
}

/// Short forms of common nouns.
pub open spec fn short_noun(w: Seq<char>) -> Seq<char> {
    if w == "repositories"@ {
        "repos"@
    } else if w == "repository"@ {
        "repo"@
    } else if w == "organizations"@ {
        "orgs"@
    } else if w == "organization"@ {
        "org"@
    } else {
        w
    }
}

pub open spec fn shortened(ws: Seq<Seq<char>>) -> Seq<Seq<char>>
    decreases ws.len(),
{
    if ws.len() == 0 {
        ws
    } else {
        shortened(ws.drop_last()).push(short_noun(ws.last()))
    }
}

/// The words that are not among `drop`.
pub open spec fn without_words(ws: Seq<Seq<char>>, drop: Seq<Seq<char>>) -> Seq<Seq<char>>
    decreases ws.len(),
{
    if ws.len() == 0 {
        ws
    } else if drop.contains(ws.last()) {
        without_words(ws.drop_last(), drop)
    } else {
        without_words(ws.drop_last(), drop).push(ws.last())
    }
}

/// Whether the words end in "for/by the authenticated user".
pub open spec fn ends_with_my(ws: Seq<Seq<char>>) -> bool {
    ws.len() >= 4 && (ws.skip(ws.len() - 4) == seq!["for"@, "the"@, "authenticated"@, "user"@]
        || ws.skip(ws.len() - 4) == seq!["by"@, "the"@, "authenticated"@, "user"@])
}

/// `s` up to its first whitespace character.
pub open spec fn take_until_ws(s: Seq<char>) -> Seq<char>
    decreases s.len(),
{
    if s.len() == 0 || spec_is_ws(s[0]) {
        Seq::empty()
    } else {
        seq![s[0]] + take_until_ws(s.drop_first())
    }
}

/// The first whitespace-separated word of `s`, if any.
pub open spec fn first_word(s: Seq<char>) -> Option<Seq<char>> {
    let t = trim_start(s, CharClass::Whitespace);
    if t.len() == 0 {
        None
    } else {
        Some(take_until_ws(t))
    }
}

/// The words of a summary, lowercased and cut at non-alphanumerics, with a
/// leading "Closed - " removed.
pub open spec fn summary_words(summary: Seq<char>) -> Seq<Seq<char>> {
    let name = strip_prefix_repeated(dashify(unicode_lower(summary)), "closed---"@);
    words_on(trim(collapse_runs(name, '-'), CharClass::Exactly('-')), '-')
}

/// The command name for an operation summary: lowercase words without
/// articles, the module's own word, or a trailing "for/by the authenticated
/// user" (which becomes `mine` after the verb); common nouns shortened;
/// joined with `-`. When nothing is left, the first word of the summary
/// lowercased, or `command`.
pub open spec fn command_name(summary: Seq<char>, module: Seq<char>) -> Seq<char> {
    let words0 = summary_words(summary);
    let has_my = ends_with_my(words0);
    let words1 = if has_my {
        words0.take(words0.len() - 4)
    } else {
        words0
    };
    let words = without_words(
        shortened(without_articles(words1)),
        module_variants(split_on(module, '-')),
    );
    let joined = if has_my && words.len() > 0 {
        join(seq![words[0], "mine"@] + words.skip(1), "-"@)
    } else {
        join(words, "-"@)
    };
    let result = trim(replace_all(joined, "--"@, "-"@), CharClass::Exactly('-'));
    if result.len() == 0 {
        match first_word(summary) {
            Some(w) => unicode_lower(w),
            None => "command"@,
        }
    } else {
        result
    }
}

/// A word that can stand in a command name: not empty, without a dash, and
/// not an article.
pub open spec fn name_word(w: Seq<char>) -> bool {
    w.len() > 0 && !w.contains('-') && !is_article(w)
}

/// Not empty and without a dash.
pub open spec fn plain_word(w: Seq<char>) -> bool {
    w.len() > 0 && !w.contains('-')
}

proof fn lemma_summary_words_plain(summary: Seq<char>)
    ensures
        forall|k: int| 0 <= k < summary_words(summary).len() ==> plain_word(#[trigger] summary_words(summary)[k]),
{
    broadcast use Seq::lemma_filter_contains_rev, Seq::lemma_filter_pred;

    let name = strip_prefix_repeated(dashify(unicode_lower(summary)), "closed---"@);
    let x = trim(collapse_runs(name, '-'), CharClass::Exactly('-'));
    let parts = split_on(x, '-');
    let ws = words_on(x, '-');
    crate::auth::lemma_split_pieces_dash_free(x);
    assert forall|k: int| 0 <= k < ws.len() implies plain_word(#[trigger] ws[k]) by {
        assert(ws.contains(ws[k]));
        assert(parts.contains(ws[k]));
        let j = choose|j: int| 0 <= j < parts.len() && parts[j] == ws[k];
        assert(!parts[j].contains('-'));
    }
}

proof fn lemma_without_articles(ws: Seq<Seq<char>>)
    requires
        forall|k: int| 0 <= k < ws.len() ==> plain_word(#[trigger] ws[k]),
    ensures
        forall|k: int| 0 <= k < without_articles(ws).len() ==> name_word(#[trigger] without_articles(ws)[k]),
    decreases ws.len(),
{
    if ws.len() > 0 {
        let d = ws.drop_last();
        assert forall|k: int| 0 <= k < d.len() implies plain_word(#[trigger] d[k]) by {
            assert(d[k] == ws[k]);
        }
        lemma_without_articles(d);
        assert(plain_word(ws[ws.len() - 1]));
        let r = without_articles(ws);
        if !is_article(ws.last()) {
            assert(r == without_articles(d).push(ws.last()));
            assert(name_word(ws.last()));
            assert forall|k: int| 0 <= k < r.len() implies name_word(#[trigger] r[k]) by {
                if k < r.len() - 1 {
                    assert(r[k] == without_articles(d)[k]);
                }
            }
        } else {
            assert(r == without_articles(d));
        }
    }
}

proof fn lemma_shortened(ws: Seq<Seq<char>>)
    requires
        forall|k: int| 0 <= k < ws.len() ==> name_word(#[trigger] ws[k]),
    ensures
        forall|k: int| 0 <= k < shortened(ws).len() ==> name_word(#[trigger] shortened(ws)[k]),
    decreases ws.len(),
{
    if ws.len() > 0 {
        let d = ws.drop_last();
        assert forall|k: int| 0 <= k < d.len() implies name_word(#[trigger] d[k]) by {
            assert(d[k] == ws[k]);
        }
        lemma_shortened(d);
        assert(name_word(ws[ws.len() - 1]));
        lemma_short_noun(ws.last());
        let r = shortened(ws);
        assert forall|k: int| 0 <= k < r.len() implies name_word(#[trigger] r[k]) by {
            if k < r.len() - 1 {
                assert(r[k] == shortened(d)[k]);
            }
        }
    }
}

proof fn lemma_short_noun(w: Seq<char>)
    requires
        name_word(w),
    ensures
        name_word(short_noun(w)),
{
    reveal_strlit("repos");
    reveal_strlit("repo");
    reveal_strlit("orgs");
    reveal_strlit("org");
    reveal_strlit("a");
    reveal_strlit("an");
    reveal_strlit("the");
    let r = short_noun(w);
    if r != w {
        assert(r.len() >= 3);
        assert(r[0] == 'r' || r[0] == 'o');
        assert(r != "a"@ && r != "an"@ && r != "the"@);
        assert forall|i: int| 0 <= i < r.len() implies r[i] != '-' by {
        }
    }
}

proof fn lemma_without_words(ws: Seq<Seq<char>>, drop: Seq<Seq<char>>)
    requires
        forall|k: int| 0 <= k < ws.len() ==> name_word(#[trigger] ws[k]),
    ensures
        forall|k: int| 0 <= k < without_words(ws, drop).len() ==> name_word(#[trigger] without_words(ws, drop)[k]),
    decreases ws.len(),
{
    if ws.len() > 0 {
        let d = ws.drop_last();
        assert forall|k: int| 0 <= k < d.len() implies name_word(#[trigger] d[k]) by {
            assert(d[k] == ws[k]);
        }
        lemma_without_words(d, drop);
        assert(name_word(ws[ws.len() - 1]));
        let r = without_words(ws, drop);
        assert forall|k: int| 0 <= k < r.len() implies name_word(#[trigger] r[k]) by {
            if k < without_words(d, drop).len() {
                assert(r[k] == without_words(d, drop)[k]);
            }
        }
    }
}

proof fn lemma_join_plain(ws: Seq<Seq<char>>)
    requires
        ws.len() > 0,
        forall|k: int| 0 <= k < ws.len() ==> plain_word(#[trigger] ws[k]),
    ensures
        join(ws, "-"@).len() > 0,
        join(ws, "-"@)[0] != '-',
        join(ws, "-"@).last() != '-',
        forall|i: int| 0 <= i < join(ws, "-"@).len() - 1 ==> !(#[trigger] join(ws, "-"@)[i] == '-' && join(ws, "-"@)[i + 1] == '-'),
    decreases ws.len(),
{
    reveal_strlit("-");
    let j = join(ws, "-"@);
    assert(plain_word(ws[0]));
    assert(ws[0][0] != '-') by {
        assert(!ws[0].contains('-'));
    }
    if ws.len() == 1 {
        assert(ws[0][ws[0].len() - 1] != '-');
        assert forall|i: int| 0 <= i < j.len() - 1 implies !(#[trigger] j[i] == '-' && j[i + 1] == '-') by {
            assert(j[i] != '-');
        }
    } else {
        let d = ws.drop_last();
        assert forall|k: int| 0 <= k < d.len() implies plain_word(#[trigger] d[k]) by {
            assert(d[k] == ws[k]);
        }
        lemma_join_plain(d);
        let jd = join(d, "-"@);
        let l = ws.last();
        assert(plain_word(ws[ws.len() - 1]));
        assert(j == jd + "-"@ + l);
        assert(l[0] != '-' && l[l.len() - 1] != '-') by {
            assert(!l.contains('-'));
        }
        assert(j[0] == jd[0]);
        assert(j.last() == l[l.len() - 1]);
        assert forall|i: int| 0 <= i < j.len() - 1 implies !(#[trigger] j[i] == '-' && j[i + 1] == '-') by {
            if i < jd.len() - 1 {
                assert(j[i] == jd[i]);
                assert(j[i + 1] == jd[i + 1]);
            } else if i == jd.len() - 1 {
                assert(j[i] == jd.last());
            } else if i == jd.len() {
                assert(j[i + 1] == l[0]);
            } else {
                assert(j[i] == l[i - jd.len() - 1]);
                assert(!l.contains('-'));
            }
        }
    }
}

/// No part of a command name made from a summary is an article ("a", "an"
/// or "the"): every `-`-separated part is a kept word of the summary. The
/// one exception is the fallback used when no word is left, the summary's
/// first word (or `command`).
pub proof fn law_command_name_has_no_articles(summary: Seq<char>, module: Seq<char>)
    ensures
        ({
            let r = command_name(summary, module);
            let parts = split_on(r, '-');
            ||| r == (match first_word(summary) {
                Some(w) => unicode_lower(w),
                None => "command"@,
            })
            ||| forall|k: int|
                0 <= k < parts.len() ==> #[trigger] parts[k] != "a"@ && parts[k] != "an"@ && parts[k]
                    != "the"@ && parts[k].len() > 0
        }),
{
    reveal_strlit("mine");
    reveal_strlit("a");
    reveal_strlit("an");
    reveal_strlit("the");
    reveal_strlit("--");
    reveal_strlit("-");
    let words0 = summary_words(summary);
    lemma_summary_words_plain(summary);
    let has_my = ends_with_my(words0);
    let words1 = if has_my {
        words0.take(words0.len() - 4)
    } else {
        words0
    };
    assert forall|k: int| 0 <= k < words1.len() implies plain_word(#[trigger] words1[k]) by {
        assert(words1[k] == words0[k]);
    }
    lemma_without_articles(words1);
    lemma_shortened(without_articles(words1));
    let drop = module_variants(split_on(module, '-'));
    lemma_without_words(shortened(without_articles(words1)), drop);
    let words = without_words(shortened(without_articles(words1)), drop);
    let list = if has_my && words.len() > 0 {
        seq![words[0], "mine"@] + words.skip(1)
    } else {
        words
    };
    assert forall|k: int| 0 <= k < list.len() implies name_word(#[trigger] list[k]) by {
        if has_my && words.len() > 0 {
            if k == 0 {
                assert(list[k] == words[0]);
            } else if k == 1 {
                assert(list[k] == "mine"@);
                assert forall|i: int| 0 <= i < list[k].len() implies list[k][i] != '-' by {
                }
            } else {
                assert(list[k] == words[k - 1]);
            }
        }
    }
    let joined = join(list, "-"@);
    if list.len() > 0 {
        assert forall|k: int| 0 <= k < list.len() implies plain_word(#[trigger] list[k]) by {
            assert(name_word(list[k]));
        }
        lemma_join_plain(list);
        assert(!crate::text::spec_contains(joined, "--"@)) by {
            if crate::text::spec_contains(joined, "--"@) {
                let i = choose|i: int| crate::text::occurs_at(joined, "--"@, i);
                assert(joined.subrange(i, i + 2)[0] == joined[i]);
                assert(joined.subrange(i, i + 2)[1] == joined[i + 1]);
                assert(!(joined[i] == '-' && joined[i + 1] == '-'));
            }
        }
        crate::cli::lemma_replace_absent(joined, "--"@, "-"@);
        assert(trim_end(joined, CharClass::Exactly('-')) == joined);
        assert(trim_start(joined, CharClass::Exactly('-')) == joined);
        assert forall|k: int| 0 <= k < list.len() implies !(#[trigger] list[k]).contains('-') by {
            assert(name_word(list[k]));
        }
        crate::auth::lemma_split_join(list);
        let r = command_name(summary, module);
        assert(r == joined);
        assert forall|k: int| 0 <= k < split_on(r, '-').len() implies #[trigger] split_on(r, '-')[k] != "a"@
            && split_on(r, '-')[k] != "an"@ && split_on(r, '-')[k] != "the"@ && split_on(r, '-')[k].len() > 0 by {
            assert(name_word(list[k]));
        }
    } else {
        assert(joined =~= Seq::<char>::empty());
        assert(replace_all(joined, "--"@, "-"@) =~= Seq::<char>::empty());
        assert(trim(replace_all(joined, "--"@, "-"@), CharClass::Exactly('-')).len() == 0);
    }
}

fn lit(s: &str) -> (r: Vec<char>)
    ensures
        r@ == s@,
{
    chars_of(s)
}

fn vec_has(ws: &Vec<Vec<char>>, w: &Vec<char>) -> (b: bool)
    ensures
        b == views(ws@).contains(w@),
{
    let mut i: usize = 0;
    while i < ws.len()
        invariant
            i <= ws.len(),
            forall|j: int| 0 <= j < i ==> views(ws@)[j] != w@,
        decreases ws.len() - i,
    {
        if seq_eq(&ws[i], w) {
            assert(views(ws@)[i as int] == w@);
            return true;
        }
        i = i + 1;
    }
    false
}

fn ends_with_my_v(ws: &Vec<Vec<char>>) -> (b: bool)
    ensures
        b == ends_with_my(views(ws@)),
{
    if ws.len() < 4 {
        return false;
    }
    let n = ws.len();
    let a = &ws[n - 4];
    let t = &ws[n - 3];
    let u = &ws[n - 2];
    let v = &ws[n - 1];
    let ghost tail = views(ws@).skip(n - 4);
    assert(tail.len() == 4);
    assert(tail[0] == a@ && tail[1] == t@ && tail[2] == u@ && tail[3] == v@);
    let rest = seq_eq(t, &lit("the")) && seq_eq(u, &lit("authenticated")) && seq_eq(v, &lit("user"));
    let for_form = seq_eq(a, &lit("for")) && rest;
    let by_form = seq_eq(a, &lit("by")) && rest;
    proof {
        let f = seq!["for"@, "the"@, "authenticated"@, "user"@];
        let g = seq!["by"@, "the"@, "authenticated"@, "user"@];
        if for_form {
            assert(tail =~= f);
        }
        if by_form {
            assert(tail =~= g);
        }
        if tail == f {
            assert(tail[0] == f[0]);
            assert(tail[1] == f[1]);
            assert(tail[2] == f[2]);
            assert(tail[3] == f[3]);
        }
        if tail == g {
            assert(tail[0] == g[0]);
            assert(tail[1] == g[1]);
            assert(tail[2] == g[2]);
            assert(tail[3] == g[3]);
        }
    }
    for_form || by_form
}

fn first_word_v(s: &Vec<char>) -> (r: Option<Vec<char>>)
    ensures
        match r {
            Some(w) => first_word(s@) == Some(w@),
            None => first_word(s@) is None,
        },
{
    let t = trim_start_v(s, &CharClass::Whitespace);
    if t.len() == 0 {
        return None;
    }
    let mut i: usize = 0;
    assert(t@.skip(0) =~= t@);
    assert(t@.take(0) =~= Seq::<char>::empty());
    while i < t.len() && !crate::text::is_ws(t[i])
        invariant
            i <= t.len(),
            take_until_ws(t@) == t@.take(i as int) + take_until_ws(t@.skip(i as int)),
        decreases t.len() - i,
    {
        let ghost rest = t@.skip(i as int);
        assert(rest[0] == t@[i as int]);
        assert(rest.drop_first() =~= t@.skip(i + 1));
        assert(take_until_ws(rest) == seq![t@[i as int]] + take_until_ws(t@.skip(i + 1)));
        assert(t@.take(i + 1) =~= t@.take(i as int) + seq![t@[i as int]]);
        assert(t@.take(i as int) + (seq![t@[i as int]] + take_until_ws(t@.skip(i + 1)))
            =~= t@.take(i + 1) + take_until_ws(t@.skip(i + 1)));
        i = i + 1;
    }
    let w = subvec(&t, 0, i);
    assert(w@ =~= t@.take(i as int));
    assert(take_until_ws(t@.skip(i as int)) =~= Seq::<char>::empty());
    Some(w)
}

/// Converts an API summary to a short command name, stripping the module
/// word ("Get a repository" in module `repos` gives `get`; "List repositories
/// for the authenticated user" gives `list-mine`).
pub fn summary_to_command_name(summary: &str, module: &str) -> (r: String)
    ensures
        r@ == command_name(summary@, module@),
{
    let lowered = to_lower(summary);
    let lv = chars_of(lowered.as_str());
    let d = dashify_v(&lv);
    let closed = lit("closed---");
    let name1 = strip_prefix_repeated_v(&d, &closed);
    let name2 = collapse_runs_v(&name1, '-');
    let name3 = trim_v(&name2, &CharClass::Exactly('-'));
    let words0 = words_on_v(&name3, '-');
    let ghost w0 = views(words0@);
    let has_my = ends_with_my_v(&words0);
    // drop the "for the authenticated user" tail
    let keep = if has_my { words0.len() - 4 } else { words0.len() };
    // remove articles and shorten nouns
    let mut words2: Vec<Vec<char>> = Vec::new();
    let mut i: usize = 0;
    let ghost w1 = w0.take(keep as int);
    assert(has_my ==> w1 == w0.take(w0.len() - 4));
    assert(!has_my ==> w1 =~= w0);
    while i < keep
        invariant
            keep <= words0.len(),
            w0 == views(words0@),
            w1 == w0.take(keep as int),
            i <= keep,
            views(words2@) == shortened(without_articles(w1.take(i as int))),
        decreases keep - i,
    {
        let w = &words0[i];
        assert(w@ == w1[i as int]);
        assert(w1.take(i + 1).drop_last() =~= w1.take(i as int));
        assert(w1.take(i + 1).last() == w1[i as int]);
        let article = seq_eq(w, &lit("a")) || seq_eq(w, &lit("an")) || seq_eq(w, &lit("the"));
        if !article {
            let short = if seq_eq(w, &lit("repositories")) {
                lit("repos")
            } else if seq_eq(w, &lit("repository")) {
                lit("repo")
            } else if seq_eq(w, &lit("organizations")) {
                lit("orgs")
            } else if seq_eq(w, &lit("organization")) {
                lit("org")
            } else {
                subvec(w, 0, w.len())
            };
            assert(short@ =~= short_noun(w@));
            let ghost before = views(words2@);
            words2.push(short);
            assert(views(words2@) =~= before.push(short@));
            proof {
                let wa = without_articles(w1.take(i as int));
                assert(without_articles(w1.take(i + 1)) == wa.push(w@));
                assert(wa.push(w@).drop_last() =~= wa);
                assert(shortened(wa.push(w@)) == shortened(wa).push(short_noun(w@)));
            }
        } else {
            assert(without_articles(w1.take(i + 1)) == without_articles(w1.take(i as int)));
        }
        i = i + 1;
    }
    assert(w1.take(keep as int) =~= w1);
    // strip the module word and its variants
    let mv = chars_of(module);
    let parts = split_on_v(&mv, '-');
    let mut variants: Vec<Vec<char>> = Vec::new();
    let mut k: usize = 0;
    while k < parts.len()
        invariant
            k <= parts.len(),
            views(variants@) == module_variants(views(parts@).take(k as int)),
        decreases parts.len() - k,
    {
        assert(views(parts@).take(k + 1).drop_last() =~= views(parts@).take(k as int));
        let ps = string_of(&parts[k]);
        let vs = word_variants(ps.as_str());
        let mut j: usize = 0;
        let ghost before = views(variants@);
        while j < vs.len()
            invariant
                j <= vs.len(),
                views(variants@) == before + vs.deep_view().take(j as int),
            decreases vs.len() - j,
        {
            let x = chars_of(vs[j].as_str());
            assert(vs.deep_view()[j as int] == vs@[j as int]@);
            assert(x@ == vs.deep_view()[j as int]);
            let ghost mid = views(variants@);
            variants.push(x);
            assert(views(variants@) =~= mid.push(x@));
            assert(vs.deep_view().take(j + 1) =~= vs.deep_view().take(j as int).push(x@));
            assert(views(variants@) =~= before + vs.deep_view().take(j + 1));
            j = j + 1;
        }
        assert(vs.deep_view().take(vs.len() as int) =~= vs.deep_view());
        k = k + 1;
    }
    assert(views(parts@).take(parts.len() as int) =~= views(parts@));
    let mut words: Vec<Vec<char>> = Vec::new();
    let mut m: usize = 0;
    let ghost w2 = views(words2@);
    while m < words2.len()
        invariant
            m <= words2.len(),
            w2 == views(words2@),
            views(words@) == without_words(w2.take(m as int), views(variants@)),
        decreases words2.len() - m,
    {
        assert(w2.take(m + 1).drop_last() =~= w2.take(m as int));
        if !vec_has(&variants, &words2[m]) {
            let ghost before = views(words@);
            let c = subvec(&words2[m], 0, words2[m].len());
            assert(c@ =~= words2@[m as int]@);
            words.push(c);
            assert(views(words@) =~= before.push(c@));
        }
        m = m + 1;
    }
    assert(w2.take(words2.len() as int) =~= w2);
    // join, inserting "mine" after the verb
    let dash = lit("-");
    let joined = if has_my && words.len() > 0 {
        let mut ws: Vec<Vec<char>> = Vec::new();
        let first = subvec(&words[0], 0, words[0].len());
        assert(first@ =~= words@[0]@);
        let mine = lit("mine");
        ws.push(first);
        ws.push(mine);
        let mut q: usize = 1;
        let ghost wv = views(words@);
        proof {
            reveal_strlit("mine");
            assert(views(ws@) =~= seq![wv[0], "mine"@] + wv.skip(1).take(0));
        }
        while q < words.len()
            invariant
                1 <= q <= words.len(),
                wv == views(words@),
                views(ws@) == seq![wv[0], "mine"@] + wv.skip(1).take(q - 1),
            decreases words.len() - q,
        {
            let c = subvec(&words[q], 0, words[q].len());
            assert(c@ =~= wv[q as int]);
            let ghost before = views(ws@);
            ws.push(c);
            assert(views(ws@) =~= before.push(wv[q as int]));
            assert(wv.skip(1).take(q as int) =~= wv.skip(1).take(q - 1).push(wv[q as int]));
            q = q + 1;
        }
        assert(wv.skip(1).take(words.len() - 1) =~= wv.skip(1));
        join_v(&ws, &dash)
    } else {
        join_v(&words, &dash)
    };
    let dd = lit("--");
    proof {
        reveal_strlit("--");
    }
    let replaced = replace_all_v(&joined, &dd, &dash);
    let result = trim_v(&replaced, &CharClass::Exactly('-'));
    if result.len() == 0 {
        let sv = chars_of(summary);
        match first_word_v(&sv) {
            Some(w) => {
                let ws = string_of(&w);
                to_lower(ws.as_str())
            },
            None => String::from_str("command"),
        }
    } else {
        string_of(&result)
    }
}

// ---------------------------------------------------------------------------
// File names from API titles
// ---------------------------------------------------------------------------

/// The first maximal run of ASCII letters and digits in `s`.
pub open spec fn first_alnum_run(s: Seq<char>) -> Seq<char>
    decreases s.len(),
{
    if s.len() == 0 {
        s
    } else if !spec_ascii_alnum(s[0]) {
        first_alnum_run(s.drop_first())
    } else {
        alnum_prefix(s)
    }
}

pub open spec fn alnum_prefix(s: Seq<char>) -> Seq<char>
    decreases s.len(),
{
    if s.len() == 0 || !spec_ascii_alnum(s[0]) {
        Seq::empty()
    } else {
        seq![s[0]] + alnum_prefix(s.drop_first())
    }
}

/// A lowercased title without "rest api", "api", "v3", "v2" and "v1" (in
/// that order) and without surrounding whitespace.
pub open spec fn stripped_title(lower: Seq<char>) -> Seq<char> {
    trim(
        replace_all(
            replace_all(
                replace_all(
                    replace_all(replace_all(lower, "rest api"@, Seq::empty()), "api"@, Seq::empty()),
                    "v3"@,
                    Seq::empty(),
                ),
                "v2"@,
                Seq::empty(),
            ),
            "v1"@,
            Seq::empty(),
        ),
        CharClass::Whitespace,
    )
}

/// None of the words a title is cleaned of occurs in `l`.
pub open spec fn free_of_markers(l: Seq<char>) -> bool {
    &&& !crate::text::spec_contains(l, "rest api"@)
    &&& !crate::text::spec_contains(l, "api"@)
    &&& !crate::text::spec_contains(l, "v3"@)
    &&& !crate::text::spec_contains(l, "v2"@)
    &&& !crate::text::spec_contains(l, "v1"@)
}

/// `l + x` still holds no `p` when `p` has no space, `x` starts with one and
/// holds no `p` itself.
proof fn lemma_absent_after_space(l: Seq<char>, x: Seq<char>, p: Seq<char>)
    requires
        !crate::text::spec_contains(l, p),
        !crate::text::spec_contains(x, p),
        x.len() > 0,
        x[0] == ' ',
        forall|k: int| 0 <= k < p.len() ==> p[k] != ' ',
    ensures
        !crate::text::spec_contains(l + x, p),
{
    if crate::text::spec_contains(l + x, p) {
        let i = choose|i: int| crate::text::occurs_at(l + x, p, i);
        crate::text::lemma_occurrence_after(l, x, p, i);
        if i >= l.len() {
            assert(crate::text::spec_contains(x, p));
        }
    }
}

proof fn lemma_version_step(l: Seq<char>, d: char, n: char)
    requires
        !crate::text::spec_contains(l, seq!['v', n]),
        d != 'v' && n != 'v' && d != ' ' && n != ' ',
    ensures
        replace_all(l + seq![' ', 'v', d], seq!['v', n], Seq::empty()) == (if d == n {
            l + seq![' ']
        } else {
            l + seq![' ', 'v', d]
        }),
        replace_all(l + seq![' '], seq!['v', n], Seq::empty()) == l + seq![' '],
{
    let p = seq!['v', n];
    let x = seq![' ', 'v', d];
    let sp = seq![' '];
    let e = Seq::<char>::empty();
    assert(!crate::text::spec_contains(sp, p)) by {
        if crate::text::spec_contains(sp, p) {
            let j = choose|j: int| crate::text::occurs_at(sp, p, j);
        }
    }
    lemma_absent_after_space(l, sp, p);
    crate::cli::lemma_replace_absent(l + sp, p, e);
    if d == n {
        assert forall|i: int| 0 <= i < l.len() && i + p.len() > l.len() implies !#[trigger] crate::text::occurs_at(
            l + x,
            p,
            i,
        ) by {
            if crate::text::occurs_at(l + x, p, i) {
                crate::text::lemma_occurrence_after(l, x, p, i);
            }
        }
        crate::text::lemma_replace_concat(l, x, p, e);
        crate::cli::lemma_replace_absent(l, p, e);
        let vd = seq!['v', d];
        assert(x.take(2) != p) by {
            assert(x.take(2)[0] == ' ');
        }
        assert(x.drop_first() =~= vd);
        assert(replace_all(x, p, e) == seq![' '] + replace_all(vd, p, e));
        assert(vd.take(2) =~= p);
        assert(vd.skip(2) =~= e);
        assert(replace_all(vd, p, e) == e + replace_all(e, p, e));
        assert(replace_all(x, p, e) =~= sp);
    } else {
        assert(!crate::text::spec_contains(x, p)) by {
            if crate::text::spec_contains(x, p) {
                let j = choose|j: int| crate::text::occurs_at(x, p, j);
                assert(x.subrange(j, j + 2)[0] == x[j]);
                assert(x.subrange(j, j + 2)[1] == x[j + 1]);
            }
        }
        lemma_absent_after_space(l, x, p);
        crate::cli::lemma_replace_absent(l + x, p, e);
    }
}

proof fn lemma_trim_trailing_space(l: Seq<char>)
    ensures
        trim(l + seq![' '], CharClass::Whitespace) == trim(l, CharClass::Whitespace),
{
    let s = l + seq![' '];
    assert(s.last() == ' ');
    assert(crate::text::spec_is_ws(' '));
    assert(s.drop_last() =~= l);
    assert(trim_end(s, CharClass::Whitespace) == trim_end(l, CharClass::Whitespace));
}

/// A version marker ` v1`, ` v2` or ` v3` at the end of a lowercased title
/// is cleaned away: the title names the same file with or without it.
pub proof fn law_version_marker_dropped(l: Seq<char>, d: char)
    requires
        d == '1' || d == '2' || d == '3',
        free_of_markers(l),
    ensures
        stripped_title(l + seq![' ', 'v', d]) == stripped_title(l),
{
    reveal_strlit("rest api");
    reveal_strlit("api");
    reveal_strlit("v3");
    reveal_strlit("v2");
    reveal_strlit("v1");
    let e = Seq::<char>::empty();
    let x = seq![' ', 'v', d];
    let sp = seq![' '];
    // "rest api" and "api" occur neither in `l` nor across or after it.
    let ra = "rest api"@;
    assert(!crate::text::spec_contains(l + x, ra)) by {
        if crate::text::spec_contains(l + x, ra) {
            let i = choose|i: int| crate::text::occurs_at(l + x, ra, i);
            crate::text::lemma_occurrence_after(l, x, ra, i);
            if i < l.len() {
                assert(ra[l.len() - i] == ' ');
                assert(l.len() - i == 4);
            }
        }
    }
    crate::cli::lemma_replace_absent(l + x, ra, e);
    assert(!crate::text::spec_contains(x, "api"@)) by {
        if crate::text::spec_contains(x, "api"@) {
            let j = choose|j: int| crate::text::occurs_at(x, "api"@, j);
            assert(x.subrange(j, j + 3)[0] == x[j]);
        }
    }
    lemma_absent_after_space(l, x, "api"@);
    crate::cli::lemma_replace_absent(l + x, "api"@, e);
    assert("v3"@ =~= seq!['v', '3']);
    assert("v2"@ =~= seq!['v', '2']);
    assert("v1"@ =~= seq!['v', '1']);
    lemma_version_step(l, d, '3');
    let c3 = if d == '3' { l + sp } else { l + x };
    lemma_version_step(l, d, '2');
    let c2 = if d == '3' || d == '2' { l + sp } else { l + x };
    assert(replace_all(c3, "v2"@, e) == c2);
    lemma_version_step(l, d, '1');
    assert(replace_all(c2, "v1"@, e) == l + sp);
    lemma_trim_trailing_space(l);
    // and `l` alone is left as it is
    crate::cli::lemma_replace_absent(l, ra, e);
    crate::cli::lemma_replace_absent(l, "api"@, e);
    crate::cli::lemma_replace_absent(l, "v3"@, e);
    crate::cli::lemma_replace_absent(l, "v2"@, e);
    crate::cli::lemma_replace_absent(l, "v1"@, e);
}

/// A config file name for an API title: lowercased, without "rest api",
/// "api", "v3", "v2", "v1", non-alphanumerics as single dashes, no dashes at
/// the ends. When nothing is left: the title's first alphanumeric word
/// lowercased, or `site`.
pub open spec fn filename_for(title: Seq<char>) -> Seq<char> {
    let stripped = stripped_title(unicode_lower(title));
    let name = trim(
        collapse_runs(trim(dashify(stripped), CharClass::Exactly('-')), '-'),
        CharClass::Exactly('-'),
    );
    if name.len() == 0 {
        let w = first_alnum_run(title);
        if w.len() == 0 {
            "site"@
        } else {
            unicode_lower(w)
        }
    } else {
        name
    }
}

/// ASCII lowercase letters, digits and dashes only.
pub open spec fn stem_char(c: char) -> bool {
    (spec_ascii_alnum(c) && !crate::text::is_ascii_capital(c)) || c == '-'
}

/// No ASCII capital letter in `s`.
pub open spec fn no_capitals(s: Seq<char>) -> bool {
    forall|i: int| 0 <= i < s.len() ==> !crate::text::is_ascii_capital(#[trigger] s[i])
}

proof fn lemma_replace_keeps_no_capitals(s: Seq<char>, p: Seq<char>, t: Seq<char>)
    requires
        no_capitals(s),
        no_capitals(t),
    ensures
        no_capitals(replace_all(s, p, t)),
    decreases s.len(),
{
    if p.len() == 0 || s.len() < p.len() {
    } else if s.take(p.len() as int) == p {
        let rest = s.skip(p.len() as int);
        assert forall|i: int| 0 <= i < rest.len() implies !crate::text::is_ascii_capital(#[trigger] rest[i]) by {
            assert(rest[i] == s[i + p.len()]);
        }
        lemma_replace_keeps_no_capitals(rest, p, t);
        let r = t + replace_all(rest, p, t);
        assert forall|i: int| 0 <= i < r.len() implies !crate::text::is_ascii_capital(#[trigger] r[i]) by {
            if i >= t.len() {
                assert(r[i] == replace_all(rest, p, t)[i - t.len()]);
            }
        }
    } else {
        let rest = s.drop_first();
        assert forall|i: int| 0 <= i < rest.len() implies !crate::text::is_ascii_capital(#[trigger] rest[i]) by {
            assert(rest[i] == s[i + 1]);
        }
        lemma_replace_keeps_no_capitals(rest, p, t);
        let r = seq![s[0]] + replace_all(rest, p, t);
        assert forall|i: int| 0 <= i < r.len() implies !crate::text::is_ascii_capital(#[trigger] r[i]) by {
            if i >= 1 {
                assert(r[i] == replace_all(rest, p, t)[i - 1]);
            }
        }
    }
}

/// Two dashes in a row end at position `i` of `s`.
pub open spec fn double_dash_at(s: Seq<char>, i: int) -> bool {
    s[i - 1] == '-' && s[i] == '-'
}

/// A usable file stem: not empty, made of ASCII lowercase letters, digits and single
/// dashes, with no dash at either end.
pub open spec fn is_file_stem(s: Seq<char>) -> bool {
    &&& s.len() > 0
    &&& forall|i: int| 0 <= i < s.len() ==> stem_char(#[trigger] s[i])
    &&& s[0] != '-'
    &&& s.last() != '-'
    &&& forall|i: int| 1 <= i < s.len() ==> !#[trigger] double_dash_at(s, i)
}

proof fn lemma_trim_start_is_suffix(s: Seq<char>, cls: CharClass) -> (k: int)
    ensures
        0 <= k <= s.len(),
        trim_start(s, cls) == s.skip(k),
        trim_start(s, cls).len() > 0 ==> !crate::text::class_has(cls, trim_start(s, cls)[0]),
    decreases s.len(),
{
    if s.len() > 0 && crate::text::class_has(cls, s[0]) {
        let k = lemma_trim_start_is_suffix(s.drop_first(), cls);
        assert(s.drop_first().skip(k) =~= s.skip(k + 1));
        k + 1
    } else {
        assert(s.skip(0) =~= s);
        0
    }
}

proof fn lemma_trim_end_is_prefix(s: Seq<char>, cls: CharClass) -> (j: int)
    ensures
        0 <= j <= s.len(),
        trim_end(s, cls) == s.take(j),
        trim_end(s, cls).len() > 0 ==> !crate::text::class_has(cls, trim_end(s, cls).last()),
    decreases s.len(),
{
    if s.len() > 0 && crate::text::class_has(cls, s.last()) {
        let j = lemma_trim_end_is_prefix(s.drop_last(), cls);
        assert(s.drop_last().take(j) =~= s.take(j));
        j
    } else {
        assert(s.take(s.len() as int) =~= s);
        s.len() as int
    }
}

/// `trim` keeps a stretch of `s` whose ends are outside `cls`.
pub proof fn lemma_trim_is_stretch(s: Seq<char>, cls: CharClass) -> (ij: (int, int))
    ensures
        0 <= ij.0 <= ij.1 <= s.len(),
        trim(s, cls) == s.subrange(ij.0, ij.1),
        trim(s, cls).len() > 0 ==> !crate::text::class_has(cls, trim(s, cls)[0])
            && !crate::text::class_has(cls, trim(s, cls).last()),
{
    let t = trim_end(s, cls);
    let j = lemma_trim_end_is_prefix(s, cls);
    let k = lemma_trim_start_is_suffix(t, cls);
    assert(t.skip(k) =~= s.subrange(k, j));
    let r = trim(s, cls);
    if r.len() > 0 {
        assert(r.last() == t.last());
    }
    (k, j)
}

/// Collapsing dash runs keeps the last character, keeps letters, digits and
/// dashes only, and leaves no two dashes in a row.
proof fn lemma_collapse_dashes(s: Seq<char>)
    ensures
        s.len() > 0 ==> collapse_runs(s, '-').len() > 0 && collapse_runs(s, '-').last() == s.last(),
        (forall|i: int| 0 <= i < s.len() ==> stem_char(#[trigger] s[i])) ==> (forall|i: int|
            0 <= i < collapse_runs(s, '-').len() ==> stem_char(#[trigger] collapse_runs(s, '-')[i])),
        forall|i: int|
            1 <= i < collapse_runs(s, '-').len() ==> !#[trigger] double_dash_at(
                collapse_runs(s, '-'),
                i,
            ),
    decreases s.len(),
{
    if s.len() > 0 {
        let t = s.drop_last();
        let rt = collapse_runs(t, '-');
        lemma_collapse_dashes(t);
        let r = collapse_runs(s, '-');
        if (forall|i: int| 0 <= i < s.len() ==> stem_char(#[trigger] s[i])) {
            assert forall|i: int| 0 <= i < t.len() implies stem_char(#[trigger] t[i]) by {
                assert(t[i] == s[i]);
            }
        }
        if s.len() >= 2 && s.last() == '-' && s[s.len() - 2] == '-' {
            assert(r == rt);
        } else {
            assert(r == rt.push(s.last()));
            assert forall|i: int| 1 <= i < r.len() implies !#[trigger] double_dash_at(r, i) by {
                if i < r.len() - 1 {
                    assert(r[i] == rt[i]);
                    assert(r[i - 1] == rt[i - 1]);
                    assert(!double_dash_at(rt, i));
                } else {
                    assert(t.len() > 0);
                    assert(r[i - 1] == rt.last());
                    assert(rt.last() == s[s.len() - 2]);
                }
            }
            if (forall|i: int| 0 <= i < s.len() ==> stem_char(#[trigger] s[i])) {
                assert forall|i: int| 0 <= i < r.len() implies stem_char(#[trigger] r[i]) by {
                    if i < r.len() - 1 {
                        assert(r[i] == rt[i]);
                    } else {
                        assert(r[i] == s[s.len() - 1]);
                    }
                }
            }
        }
    }
}

proof fn lemma_alnum_prefix(s: Seq<char>)
    ensures
        forall|i: int| 0 <= i < alnum_prefix(s).len() ==> spec_ascii_alnum(#[trigger] alnum_prefix(s)[i]),
    decreases s.len(),
{
    if s.len() > 0 && spec_ascii_alnum(s[0]) {
        lemma_alnum_prefix(s.drop_first());
        let r = alnum_prefix(s);
        assert forall|i: int| 0 <= i < r.len() implies spec_ascii_alnum(#[trigger] r[i]) by {
            if i > 0 {
                assert(r[i] == alnum_prefix(s.drop_first())[i - 1]);
            }
        }
    }
}

proof fn lemma_first_alnum_run(s: Seq<char>)
    ensures
        forall|i: int|
            0 <= i < first_alnum_run(s).len() ==> spec_ascii_alnum(#[trigger] first_alnum_run(s)[i]),
    decreases s.len(),
{
    if s.len() > 0 {
        let r = first_alnum_run(s);
        if !spec_ascii_alnum(s[0]) {
            lemma_first_alnum_run(s.drop_first());
            assert(r == first_alnum_run(s.drop_first()));
        } else {
            lemma_alnum_prefix(s);
            assert(r == alnum_prefix(s));
        }
    }
}

/// The file stem made from a title without anything left after cleanup.
proof fn lemma_cleaned_name_is_stem(stripped: Seq<char>)
    requires
        no_capitals(stripped),
        trim(
            collapse_runs(trim(dashify(stripped), CharClass::Exactly('-')), '-'),
            CharClass::Exactly('-'),
        ).len() > 0,
    ensures
        is_file_stem(
            trim(
                collapse_runs(trim(dashify(stripped), CharClass::Exactly('-')), '-'),
                CharClass::Exactly('-'),
            ),
        ),
{
    let d = dashify(stripped);
    let t1 = trim(d, CharClass::Exactly('-'));
    let c = collapse_runs(t1, '-');
    let name = trim(c, CharClass::Exactly('-'));
    let (i1, j1) = lemma_trim_is_stretch(d, CharClass::Exactly('-'));
    assert forall|i: int| 0 <= i < t1.len() implies stem_char(#[trigger] t1[i]) by {
        assert(t1[i] == d[i + i1]);
        assert(!crate::text::is_ascii_capital(stripped[i + i1]));
    }
    lemma_collapse_dashes(t1);
    let (i2, j2) = lemma_trim_is_stretch(c, CharClass::Exactly('-'));
    assert forall|i: int| 0 <= i < name.len() implies stem_char(#[trigger] name[i]) by {
        assert(name[i] == c[i + i2]);
    }
    assert forall|i: int| 1 <= i < name.len() implies !#[trigger] double_dash_at(name, i) by {
        assert(name[i] == c[i + i2]);
        assert(name[i - 1] == c[i + i2 - 1]);
        assert(!double_dash_at(c, i + i2));
    }
}

fn first_alnum_run_v(s: &Vec<char>) -> (r: Vec<char>)
    ensures
        r@ == first_alnum_run(s@),
{
    let mut i: usize = 0;
    assert(s@.skip(0) =~= s@);
    while i < s.len() && !crate::text::ascii_alnum(s[i])
        invariant
            i <= s.len(),
            first_alnum_run(s@) == first_alnum_run(s@.skip(i as int)),
        decreases s.len() - i,
    {
        assert(s@.skip(i as int).drop_first() =~= s@.skip(i + 1));
        i = i + 1;
    }
    let start = i;
    proof {
        if start < s.len() {
            assert(s@.skip(start as int)[0] == s@[start as int]);
        } else {
            assert(s@.skip(start as int).len() == 0);
        }
        assert(first_alnum_run(s@) == alnum_prefix(s@.skip(start as int)));
    }
    while i < s.len() && crate::text::ascii_alnum(s[i])
        invariant
            start <= i <= s.len(),
            alnum_prefix(s@.skip(start as int)) == s@.subrange(start as int, i as int)
                + alnum_prefix(s@.skip(i as int)),
        decreases s.len() - i,
    {
        assert(s@.skip(i as int).drop_first() =~= s@.skip(i + 1));
        assert(s@.subrange(start as int, i + 1) =~= s@.subrange(start as int, i as int) + seq![
            s@[i as int],
        ]);
        i = i + 1;
    }
    assert(alnum_prefix(s@.skip(i as int)) =~= Seq::<char>::empty());
    subvec(s, start, i)
}

/// Derives a config file name from an API title ("GitHub v3 REST API" gives
/// `github`, "Amazon EC2 API" gives `amazon-ec2`).
pub fn site_name_to_filename(title: &str) -> (r: String)
    ensures
        r@ == filename_for(title@),
        is_file_stem(r@),
{
    let lowered = to_lower(title);
    let mut s = chars_of(lowered.as_str());
    let empty: Vec<char> = Vec::new();
    proof {
        reveal_strlit("rest api");
        reveal_strlit("api");
        reveal_strlit("v3");
        reveal_strlit("v2");
        reveal_strlit("v1");
    }
    assert(empty@ =~= Seq::<char>::empty());
    assert(no_capitals(s@));
    let p1 = lit("rest api");
    proof {
        lemma_replace_keeps_no_capitals(s@, p1@, empty@);
    }
    s = replace_all_v(&s, &p1, &empty);
    let p2 = lit("api");
    proof {
        lemma_replace_keeps_no_capitals(s@, p2@, empty@);
    }
    s = replace_all_v(&s, &p2, &empty);
    let p3 = lit("v3");
    proof {
        lemma_replace_keeps_no_capitals(s@, p3@, empty@);
    }
    s = replace_all_v(&s, &p3, &empty);
    let p4 = lit("v2");
    proof {
        lemma_replace_keeps_no_capitals(s@, p4@, empty@);
    }
    s = replace_all_v(&s, &p4, &empty);
    let p5 = lit("v1");
    proof {
        lemma_replace_keeps_no_capitals(s@, p5@, empty@);
    }
    s = replace_all_v(&s, &p5, &empty);
    let stripped = trim_v(&s, &CharClass::Whitespace);
    proof {
        let (a, b) = lemma_trim_is_stretch(s@, CharClass::Whitespace);
        assert forall|i: int| 0 <= i < stripped@.len() implies !crate::text::is_ascii_capital(
            #[trigger] stripped@[i],
        ) by {
            assert(stripped@[i] == s@[i + a]);
        }
    }
    let d = dashify_v(&stripped);
    let t1 = trim_v(&d, &CharClass::Exactly('-'));
    let c = collapse_runs_v(&t1, '-');
    let name = trim_v(&c, &CharClass::Exactly('-'));
    if name.len() == 0 {
        let tv = chars_of(title);
        let w = first_alnum_run_v(&tv);
        if w.len() == 0 {
            proof {
                reveal_strlit("site");
            }
            String::from_str("site")
        } else {
            let ws = string_of(&w);
            proof {
                lemma_first_alnum_run(tv@);
                assert(crate::text::all_ascii(ws@));
            }
            let r = to_lower(ws.as_str());
            proof {
                assert forall|i: int| 0 <= i < r@.len() implies stem_char(#[trigger] r@[i]) by {
                    assert(r@[i] == crate::text::ascii_lower(ws@[i]));
                    assert(spec_ascii_alnum(ws@[i]));
                }
            }
            r
        }
    } else {
        proof {
            lemma_cleaned_name_is_stem(stripped@);
        }
        string_of(&name)
    }
}

} // verus!
