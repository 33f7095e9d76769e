//! Character-level text utilities. Specifications are stated over
//! `Seq<char>` (the view of `str` and `String`); executable counterparts
//! work on `Vec<char>` and convert at the boundaries.

use vstd::prelude::*;

verus! {

// ---------------------------------------------------------------------------
// Character classes
// ---------------------------------------------------------------------------

/// Unicode `White_Space` property, as used by `char::is_whitespace`.
pub open spec fn spec_is_ws(c: char) -> bool {
    let u = c as u32;
    ||| (0x09 <= u && u <= 0x0d)
    ||| u == 0x20
    ||| u == 0x85
    ||| u == 0xa0
    ||| u == 0x1680
    ||| (0x2000 <= u && u <= 0x200a)
    ||| u == 0x2028
    ||| u == 0x2029
    ||| u == 0x202f
    ||| u == 0x205f
    ||| u == 0x3000
}

pub fn is_ws(c: char) -> (r: bool)
    ensures
        r == spec_is_ws(c),
{
    let u = c as u32;
    (0x09 <= u && u <= 0x0d) || u == 0x20 || u == 0x85 || u == 0xa0 || u == 0x1680 || (0x2000
        <= u && u <= 0x200a) || u == 0x2028 || u == 0x2029 || u == 0x202f || u == 0x205f || u
        == 0x3000
}

/// ASCII letters and digits (`char::is_ascii_alphanumeric`).
pub open spec fn spec_ascii_alnum(c: char) -> bool {
    ('a' <= c && c <= 'z') || ('A' <= c && c <= 'Z') || ('0' <= c && c <= '9')
}

pub fn ascii_alnum(c: char) -> (r: bool)
    ensures
        r == spec_ascii_alnum(c),
{
    ('a' <= c && c <= 'z') || ('A' <= c && c <= 'Z') || ('0' <= c && c <= '9')
}

pub open spec fn spec_is_ascii(c: char) -> bool {
    (c as u32) < 128
}

pub open spec fn all_ascii(s: Seq<char>) -> bool {
    forall|i: int| 0 <= i < s.len() ==> spec_is_ascii(#[trigger] s[i])
}

pub open spec fn ascii_lower(c: char) -> char {
    if 'A' <= c && c <= 'Z' {
        ((c as u32) + 32) as char
    } else {
        c
    }
}

pub open spec fn ascii_upper(c: char) -> char {
    if 'a' <= c && c <= 'z' {
        ((c as u32) - 32) as char
    } else {
        c
    }
}

pub open spec fn map_ascii_lower(s: Seq<char>) -> Seq<char> {
    s.map_values(|c: char| ascii_lower(c))
}

pub open spec fn map_ascii_upper(s: Seq<char>) -> Seq<char> {
    s.map_values(|c: char| ascii_upper(c))
}

// ---------------------------------------------------------------------------
// Unicode case mapping (std)
// ---------------------------------------------------------------------------

/// What `str::to_lowercase` returns for a string.
pub uninterp spec fn unicode_lower(s: Seq<char>) -> Seq<char>;

/// What `str::to_uppercase` returns for a string.
pub uninterp spec fn unicode_upper(s: Seq<char>) -> Seq<char>;

/// What `char::to_uppercase` yields for a character, collected.
pub uninterp spec fn unicode_upper_char(c: char) -> Seq<char>;

/// An ASCII capital letter.
pub open spec fn is_ascii_capital(c: char) -> bool {
    'A' <= c && c <= 'Z'
}

/// Calls `str::to_lowercase`. Claims the result is a function of the input
/// alone; that an all-ASCII input is mapped letter by letter to ASCII
/// lowercase (the Unicode lowercase mapping of ASCII); and that the result
/// holds no ASCII capital letter (A-Z lowercase to a-z, and no lowercase
/// mapping yields one). Nothing else is claimed about non-ASCII input.
#[verifier::external_body]
pub(crate) fn to_lower(s: &str) -> (r: String)
    ensures
        r@ == unicode_lower(s@),
        all_ascii(s@) ==> r@ == map_ascii_lower(s@),
        forall|i: int| 0 <= i < r@.len() ==> !is_ascii_capital(#[trigger] r@[i]),
{
    s.to_lowercase()
}

/// Calls `str::to_uppercase`. Claims determinism, and that an all-ASCII
/// input is mapped letter by letter to ASCII uppercase.
#[verifier::external_body]
pub(crate) fn to_upper(s: &str) -> (r: String)
    ensures
        r@ == unicode_upper(s@),
        all_ascii(s@) ==> r@ == map_ascii_upper(s@),
{
    s.to_uppercase()
}

/// Calls `char::to_uppercase` and collects the characters it yields.
/// Claims determinism, and that an ASCII character yields exactly its
/// ASCII uppercase form.
#[verifier::external_body]
pub(crate) fn char_to_upper(c: char) -> (r: String)
    ensures
        r@ == unicode_upper_char(c),
        spec_is_ascii(c) ==> r@ == seq![ascii_upper(c)],
{
    c.to_uppercase().collect()
}

/// The view of an optional string.
pub open spec fn opt_text(o: Option<String>) -> Option<Seq<char>> {
    match o {
        Some(s) => Some(s@),
        None => None,
    }
}

// ---------------------------------------------------------------------------
// Conversions
// ---------------------------------------------------------------------------

/// The characters of a string slice, in order.
pub fn chars_of(s: &str) -> (v: Vec<char>)
    ensures
        v@ == s@,
{
    let mut v: Vec<char> = Vec::new();
    for c in it: s.chars()
        invariant
            v@ == s@.take(it.index() as int),
            it.seq() == s@,
    {
        v.push(c);
    }
    v
}

/// Builds a `String` from characters (`FromIterator<&char> for String`).
/// Claims the string holds exactly those characters, in order.
#[verifier::external_body]
pub(crate) fn string_of(v: &Vec<char>) -> (s: String)
    ensures
        s@ == v@,
{
    v.iter().collect()
}

// ---------------------------------------------------------------------------
// Prefix, suffix, equality, search
// ---------------------------------------------------------------------------

pub open spec fn spec_starts_with(s: Seq<char>, p: Seq<char>) -> bool {
    p.len() <= s.len() && s.take(p.len() as int) == p
}

pub open spec fn spec_ends_with(s: Seq<char>, p: Seq<char>) -> bool {
    p.len() <= s.len() && s.skip(s.len() - p.len()) == p
}

/// `p` occurs in `s` starting at index `i`.
pub open spec fn occurs_at(s: Seq<char>, p: Seq<char>, i: int) -> bool {
    0 <= i && i + p.len() <= s.len() && s.subrange(i, i + p.len()) == p
}

pub open spec fn spec_contains(s: Seq<char>, p: Seq<char>) -> bool {
    exists|i: int| occurs_at(s, p, i)
}

pub fn seq_eq(a: &Vec<char>, b: &Vec<char>) -> (r: bool)
    ensures
        r == (a@ == b@),
{
    if a.len() != b.len() {
        return false;
    }
    let mut i: usize = 0;
    while i < a.len()
        invariant
            a.len() == b.len(),
            i <= a.len(),
            a@.take(i as int) == b@.take(i as int),
        decreases a.len() - i,
    {
        if a[i] != b[i] {
            assert(a@[i as int] != b@[i as int]);
            return false;
        }
        assert(a@.take(i + 1) == a@.take(i as int).push(a@[i as int]));
        assert(b@.take(i + 1) == b@.take(i as int).push(b@[i as int]));
        i = i + 1;
    }
    assert(a@ == a@.take(a.len() as int));
    assert(b@ == b@.take(b.len() as int));
    true
}

pub fn str_eq(a: &str, b: &str) -> (r: bool)
    ensures
        r == (a@ == b@),
{
    let av = chars_of(a);
    let bv = chars_of(b);
    seq_eq(&av, &bv)
}

/// Whether `p` occurs in `s` at index `at`.
pub fn matches_at(s: &Vec<char>, p: &Vec<char>, at: usize) -> (r: bool)
    ensures
        r == occurs_at(s@, p@, at as int),
{
    if at > s.len() || p.len() > s.len() - at {
        return false;
    }
    let mut j: usize = 0;
    while j < p.len()
        invariant
            at + p.len() <= s.len(),
            j <= p.len(),
            forall|k: int| 0 <= k < j ==> s@[at + k] == p@[k],
        decreases p.len() - j,
    {
        if s[at + j] != p[j] {
            assert(s@.subrange(at as int, at + p.len())[j as int] != p@[j as int]);
            return false;
        }
        j = j + 1;
    }
    assert(s@.subrange(at as int, at + p.len()) =~= p@);
    true
}

pub fn starts_with(s: &Vec<char>, p: &Vec<char>) -> (r: bool)
    ensures
        r == spec_starts_with(s@, p@),
{
    let r = matches_at(s, p, 0);
    proof {
        if p@.len() <= s@.len() {
            assert(s@.take(p@.len() as int) =~= s@.subrange(0, p@.len() as int));
        }
    }
    r
}

pub fn ends_with(s: &Vec<char>, p: &Vec<char>) -> (r: bool)
    ensures
        r == spec_ends_with(s@, p@),
{
    if p.len() > s.len() {
        return false;
    }
    let r = matches_at(s, p, s.len() - p.len());
    proof {
        assert(s@.skip(s@.len() - p@.len()) =~= s@.subrange(
            s@.len() - p@.len(),
            s@.len() - p@.len() + p@.len(),
        ));
    }
    r
}

/// Index of the first occurrence of `p` in `s` at or after `from`.
pub open spec fn first_occurrence_from(s: Seq<char>, p: Seq<char>, from: int) -> Option<int>
    decreases s.len() + 1 - from,
{
    if from < 0 || from + p.len() > s.len() {
        None
    } else if occurs_at(s, p, from) {
        Some(from)
    } else {
        first_occurrence_from(s, p, from + 1)
    }
}

pub proof fn lemma_first_occurrence_from(s: Seq<char>, p: Seq<char>, from: int)
    requires
        0 <= from,
    ensures
        match first_occurrence_from(s, p, from) {
            Some(i) => from <= i && occurs_at(s, p, i) && forall|j: int|
                from <= j < i ==> !occurs_at(s, p, j),
            None => forall|j: int| from <= j ==> !occurs_at(s, p, j),
        },
    decreases s.len() + 1 - from,
{
    if from + p.len() > s.len() {
    } else if occurs_at(s, p, from) {
    } else {
        lemma_first_occurrence_from(s, p, from + 1);
    }
}

pub fn find_from(s: &Vec<char>, p: &Vec<char>, from: usize) -> (r: Option<usize>)
    ensures
        match r {
            Some(i) => first_occurrence_from(s@, p@, from as int) == Some(i as int),
            None => first_occurrence_from(s@, p@, from as int) is None,
        },
{
    let mut i = from;
    while i <= s.len() && p.len() <= s.len() - i
        invariant
            from <= i,
            first_occurrence_from(s@, p@, from as int) == first_occurrence_from(
                s@,
                p@,
                i as int,
            ),
        decreases s.len() + 1 - i,
    {
        if matches_at(s, p, i) {
            return Some(i);
        }
        if i == s.len() {
            assert(first_occurrence_from(s@, p@, i + 1) is None);
            return None;
        }
        i = i + 1;
    }
    None
}

pub fn contains(s: &Vec<char>, p: &Vec<char>) -> (r: bool)
    ensures
        r == spec_contains(s@, p@),
{
    let r = find_from(s, p, 0);
    proof {
        lemma_first_occurrence_from(s@, p@, 0);
    }
    r.is_some()
}

/// Index of the first occurrence of `c` in `s`, if any.
pub open spec fn first_index_of(s: Seq<char>, c: char) -> Option<int>
    decreases s.len(),
{
    if s.len() == 0 {
        None
    } else if s.last() == c {
        match first_index_of(s.drop_last(), c) {
            Some(i) => Some(i),
            None => Some(s.len() - 1),
        }
    } else {
        first_index_of(s.drop_last(), c)
    }
}

/// What `first_index_of` finds: the index of an occurrence with none before.
pub proof fn lemma_first_index_of(s: Seq<char>, c: char)
    ensures
        match first_index_of(s, c) {
            Some(i) => 0 <= i < s.len() && s[i] == c && forall|k: int| 0 <= k < i ==> s[k] != c,
            None => forall|k: int| 0 <= k < s.len() ==> s[k] != c,
        },
    decreases s.len(),
{
    if s.len() > 0 {
        lemma_first_index_of(s.drop_last(), c);
        assert forall|k: int| 0 <= k < s.len() - 1 implies s.drop_last()[k] == s[k] by {}
    }
}

proof fn lemma_first_index_of_at(s: Seq<char>, c: char, i: int)
    requires
        0 <= i < s.len(),
        s[i] == c,
        forall|k: int| 0 <= k < i ==> s[k] != c,
    ensures
        first_index_of(s, c) == Some(i),
    decreases s.len(),
{
    if i < s.len() - 1 {
        lemma_first_index_of_at(s.drop_last(), c, i);
    } else {
        lemma_first_index_of_none(s.drop_last(), c);
    }
}

proof fn lemma_first_index_of_none(s: Seq<char>, c: char)
    requires
        forall|k: int| 0 <= k < s.len() ==> s[k] != c,
    ensures
        first_index_of(s, c) is None,
    decreases s.len(),
{
    if s.len() > 0 {
        lemma_first_index_of_none(s.drop_last(), c);
    }
}

pub fn first_index_of_v(s: &Vec<char>, c: char) -> (r: Option<usize>)
    ensures
        match r {
            Some(i) => first_index_of(s@, c) == Some(i as int) && i < s.len(),
            None => first_index_of(s@, c) is None,
        },
{
    let mut i: usize = 0;
    while i < s.len()
        invariant
            i <= s.len(),
            forall|k: int| 0 <= k < i ==> s@[k] != c,
        decreases s.len() - i,
    {
        if s[i] == c {
            proof {
                lemma_first_index_of_at(s@, c, i as int);
            }
            return Some(i);
        }
        i = i + 1;
    }
    proof {
        lemma_first_index_of_none(s@, c);
    }
    None
}

// ---------------------------------------------------------------------------
// Slicing
// ---------------------------------------------------------------------------

pub fn subvec(v: &Vec<char>, from: usize, to: usize) -> (r: Vec<char>)
    requires
        from <= to <= v.len(),
    ensures
        r@ == v@.subrange(from as int, to as int),
{
    let mut r: Vec<char> = Vec::new();
    let mut i = from;
    while i < to
        invariant
            from <= i <= to <= v.len(),
            r@ == v@.subrange(from as int, i as int),
        decreases to - i,
    {
        r.push(v[i]);
        assert(v@.subrange(from as int, i + 1) =~= v@.subrange(from as int, i as int).push(
            v@[i as int],
        ));
        i = i + 1;
    }
    r
}

/// Appends the characters of `s` to `out`.
pub fn push_str(out: &mut Vec<char>, s: &str)
    ensures
        final(out)@ == old(out)@ + s@,
{
    let v = chars_of(s);
    append_chars(out, &v);
}

pub fn append_chars(out: &mut Vec<char>, t: &Vec<char>)
    ensures
        final(out)@ == old(out)@ + t@,
{
    let mut i: usize = 0;
    let ghost start = out@;
    while i < t.len()
        invariant
            i <= t.len(),
            out@ == start + t@.take(i as int),
        decreases t.len() - i,
    {
        out.push(t[i]);
        assert(t@.take(i + 1) =~= t@.take(i as int).push(t@[i as int]));
        i = i + 1;
    }
    assert(t@.take(t.len() as int) =~= t@);
}

// ---------------------------------------------------------------------------
// Trimming
// ---------------------------------------------------------------------------

/// Which characters a trim removes.
pub enum CharClass {
    Whitespace,
    Exactly(char),
}

pub open spec fn class_has(cls: CharClass, c: char) -> bool {
    match cls {
        CharClass::Whitespace => spec_is_ws(c),
        CharClass::Exactly(d) => c == d,
    }
}

pub fn class_test(cls: &CharClass, c: char) -> (r: bool)
    ensures
        r == class_has(*cls, c),
{
    match cls {
        CharClass::Whitespace => is_ws(c),
        CharClass::Exactly(d) => c == *d,
    }
}

/// `s` without its leading characters of class `cls`.
pub open spec fn trim_start(s: Seq<char>, cls: CharClass) -> Seq<char>
    decreases s.len(),
{
    if s.len() > 0 && class_has(cls, s[0]) {
        trim_start(s.drop_first(), cls)
    } else {
        s
    }
}

/// `s` without its trailing characters of class `cls`.
pub open spec fn trim_end(s: Seq<char>, cls: CharClass) -> Seq<char>
    decreases s.len(),
{
    if s.len() > 0 && class_has(cls, s.last()) {
        trim_end(s.drop_last(), cls)
    } else {
        s
    }
}

/// `s` without leading and trailing characters of class `cls`.
pub open spec fn trim(s: Seq<char>, cls: CharClass) -> Seq<char> {
    trim_start(trim_end(s, cls), cls)
}

proof fn lemma_trim_start_skip(s: Seq<char>, cls: CharClass, i: int)
    requires
        0 <= i <= s.len(),
        forall|k: int| 0 <= k < i ==> class_has(cls, #[trigger] s[k]),
    ensures
        trim_start(s, cls) == trim_start(s.skip(i), cls),
    decreases i,
{
    if i > 0 {
        assert(s.drop_first().skip(i - 1) =~= s.skip(i));
        assert forall|k: int| 0 <= k < i - 1 implies class_has(
            cls,
            #[trigger] s.drop_first()[k],
        ) by {
            assert(s.drop_first()[k] == s[k + 1]);
        }
        lemma_trim_start_skip(s.drop_first(), cls, i - 1);
    } else {
        assert(s.skip(0) =~= s);
    }
}

proof fn lemma_trim_end_take(s: Seq<char>, cls: CharClass, j: int)
    requires
        0 <= j <= s.len(),
        forall|k: int| j <= k < s.len() ==> class_has(cls, #[trigger] s[k]),
    ensures
        trim_end(s, cls) == trim_end(s.take(j), cls),
    decreases s.len() - j,
{
    if j < s.len() {
        assert(s.drop_last().take(j) =~= s.take(j));
        lemma_trim_end_take(s.drop_last(), cls, j);
    } else {
        assert(s.take(j) =~= s);
    }
}

/// Index of the first character not of class `cls` (or the length).
pub fn leading_run(s: &Vec<char>, cls: &CharClass) -> (i: usize)
    ensures
        i <= s.len(),
        trim_start(s@, *cls) == s@.skip(i as int),
{
    let mut i: usize = 0;
    while i < s.len() && class_test(cls, s[i])
        invariant
            i <= s.len(),
            forall|k: int| 0 <= k < i ==> class_has(*cls, #[trigger] s@[k]),
        decreases s.len() - i,
    {
        i = i + 1;
    }
    proof {
        lemma_trim_start_skip(s@, *cls, i as int);
    }
    i
}

/// One past the last character not of class `cls` (or zero).
pub fn trailing_run_start(s: &Vec<char>, cls: &CharClass) -> (j: usize)
    ensures
        j <= s.len(),
        trim_end(s@, *cls) == s@.take(j as int),
{
    let mut j: usize = s.len();
    while j > 0 && class_test(cls, s[j - 1])
        invariant
            j <= s.len(),
            forall|k: int| j <= k < s.len() ==> class_has(*cls, #[trigger] s@[k]),
        decreases j,
    {
        j = j - 1;
    }
    proof {
        lemma_trim_end_take(s@, *cls, j as int);
    }
    j
}

pub fn trim_start_v(s: &Vec<char>, cls: &CharClass) -> (r: Vec<char>)
    ensures
        r@ == trim_start(s@, *cls),
{
    let i = leading_run(s, cls);
    let r = subvec(s, i, s.len());
    assert(s@.skip(i as int) =~= s@.subrange(i as int, s@.len() as int));
    r
}

pub fn trim_end_v(s: &Vec<char>, cls: &CharClass) -> (r: Vec<char>)
    ensures
        r@ == trim_end(s@, *cls),
{
    let j = trailing_run_start(s, cls);
    let r = subvec(s, 0, j);
    assert(s@.take(j as int) =~= s@.subrange(0, j as int));
    r
}

pub fn trim_v(s: &Vec<char>, cls: &CharClass) -> (r: Vec<char>)
    ensures
        r@ == trim(s@, *cls),
{
    let e = trim_end_v(s, cls);
    trim_start_v(&e, cls)
}

/// `s` with every leading copy of `p` removed (`str::trim_start_matches`).
pub open spec fn strip_prefix_repeated(s: Seq<char>, p: Seq<char>) -> Seq<char>
    decreases s.len(),
{
    if p.len() > 0 && spec_starts_with(s, p) {
        strip_prefix_repeated(s.skip(p.len() as int), p)
    } else {
        s
    }
}

pub fn strip_prefix_repeated_v(s: &Vec<char>, p: &Vec<char>) -> (r: Vec<char>)
    ensures
        r@ == strip_prefix_repeated(s@, p@),
{
    let mut i: usize = 0;
    if p.len() == 0 {
        return subvec(s, 0, s.len());
    }
    assert(s@.skip(0) =~= s@);
    while i <= s.len() && matches_at(s, p, i)
        invariant
            p.len() > 0,
            i <= s.len(),
            strip_prefix_repeated(s@, p@) == strip_prefix_repeated(s@.skip(i as int), p@),
        decreases s.len() - i,
    {
        proof {
            let t = s@.skip(i as int);
            assert(t.take(p@.len() as int) =~= s@.subrange(i as int, i + p@.len()));
            assert(t.skip(p@.len() as int) =~= s@.skip(i + p@.len()));
        }
        i = i + p.len();
    }
    proof {
        let t = s@.skip(i as int);
        if p@.len() <= t.len() {
            assert(t.take(p@.len() as int) =~= s@.subrange(i as int, i + p@.len()));
        }
    }
    let r = subvec(s, i, s.len());
    assert(s@.skip(i as int) =~= s@.subrange(i as int, s@.len() as int));
    r
}

// ---------------------------------------------------------------------------
// Replacement
// ---------------------------------------------------------------------------

/// Every non-overlapping occurrence of `p` in `s`, scanning from the left,
/// replaced by `t` (`str::replace` with a non-empty pattern).
pub open spec fn replace_all(s: Seq<char>, p: Seq<char>, t: Seq<char>) -> Seq<char>
    decreases s.len(),
{
    if p.len() == 0 || s.len() < p.len() {
        s
    } else if s.take(p.len() as int) == p {
        t + replace_all(s.skip(p.len() as int), p, t)
    } else {
        seq![s[0]] + replace_all(s.drop_first(), p, t)
    }
}

/// Replacing in `a + b` replaces in `a` and in `b` separately when no
/// occurrence of `p` starts in `a` and ends in `b`.
pub proof fn lemma_replace_concat(a: Seq<char>, b: Seq<char>, p: Seq<char>, t: Seq<char>)
    requires
        p.len() > 0,
        forall|i: int| 0 <= i < a.len() && i + p.len() > a.len() ==> !#[trigger] occurs_at(a + b, p, i),
    ensures
        replace_all(a + b, p, t) == replace_all(a, p, t) + replace_all(b, p, t),
    decreases a.len(),
{
    let s = a + b;
    if a.len() == 0 {
        assert(s =~= b);
        assert(replace_all(a, p, t) =~= Seq::<char>::empty());
        assert(replace_all(a, p, t) + replace_all(b, p, t) =~= replace_all(b, p, t));
    } else if s.len() < p.len() {
        assert(replace_all(a, p, t) == a);
        assert(replace_all(b, p, t) == b);
        assert(a + b =~= s);
    } else if s.take(p.len() as int) == p {
        assert(s.subrange(0, p.len() as int) =~= s.take(p.len() as int));
        assert(occurs_at(s, p, 0));
        assert(p.len() <= a.len());
        assert(a.take(p.len() as int) =~= s.take(p.len() as int));
        let a2 = a.skip(p.len() as int);
        assert(s.skip(p.len() as int) =~= a2 + b);
        assert forall|i: int| 0 <= i < a2.len() && i + p.len() > a2.len() implies !#[trigger] occurs_at(a2 + b, p, i) by {
            if occurs_at(a2 + b, p, i) {
                assert((a + b).subrange(i + p.len(), i + p.len() + p.len()) =~= (a2 + b).subrange(i, i + p.len()));
                assert(occurs_at(a + b, p, i + p.len()));
            }
        }
        lemma_replace_concat(a2, b, p, t);
        assert(replace_all(s, p, t) == t + replace_all(a2 + b, p, t));
        assert(replace_all(a, p, t) == t + replace_all(a2, p, t));
        assert(t + (replace_all(a2, p, t) + replace_all(b, p, t)) =~= (t + replace_all(a2, p, t))
            + replace_all(b, p, t));
    } else {
        let a2 = a.drop_first();
        assert(s.drop_first() =~= a2 + b);
        assert forall|i: int| 0 <= i < a2.len() && i + p.len() > a2.len() implies !#[trigger] occurs_at(a2 + b, p, i) by {
            if occurs_at(a2 + b, p, i) {
                assert((a + b).subrange(i + 1, i + 1 + p.len()) =~= (a2 + b).subrange(i, i + p.len()));
                assert(occurs_at(a + b, p, i + 1));
            }
        }
        lemma_replace_concat(a2, b, p, t);
        if a.len() < p.len() {
            assert(replace_all(a, p, t) == a);
            assert(replace_all(a2, p, t) == a2);
        } else {
            assert(a.take(p.len() as int) =~= s.take(p.len() as int));
        }
        assert(replace_all(a, p, t) =~= seq![a[0]] + replace_all(a2, p, t));
        assert(replace_all(s, p, t) == seq![s[0]] + replace_all(a2 + b, p, t));
        assert(seq![a[0]] + (replace_all(a2, p, t) + replace_all(b, p, t)) =~= (seq![a[0]] + replace_all(
            a2,
            p,
            t,
        )) + replace_all(b, p, t));
    }
}

/// An occurrence of `p` in `l + x` when `l` holds none: it either starts in
/// `l`, covers the first character of `x` and fits in `l + x`, or lies
/// within `x`.
pub proof fn lemma_occurrence_after(l: Seq<char>, x: Seq<char>, p: Seq<char>, i: int)
    requires
        occurs_at(l + x, p, i),
        !spec_contains(l, p),
    ensures
        (i < l.len() && i + p.len() > l.len() && p[l.len() - i] == x[0]) || (i >= l.len() && occurs_at(
            x,
            p,
            i - l.len(),
        )),
{
    if i + p.len() <= l.len() {
        assert((l + x).subrange(i, i + p.len()) =~= l.subrange(i, i + p.len()));
        assert(occurs_at(l, p, i));
    } else if i < l.len() {
        assert((l + x).subrange(i, i + p.len())[l.len() - i] == (l + x)[l.len() as int]);
    } else {
        assert((l + x).subrange(i, i + p.len()) =~= x.subrange(i - l.len(), i - l.len() + p.len()));
    }
}

pub fn replace_all_v(s: &Vec<char>, p: &Vec<char>, t: &Vec<char>) -> (r: Vec<char>)
    requires
        p.len() > 0,
    ensures
        r@ == replace_all(s@, p@, t@),
{
    let mut out: Vec<char> = Vec::new();
    let mut i: usize = 0;
    assert(s@.skip(0) =~= s@);
    assert(out@ + replace_all(s@, p@, t@) =~= replace_all(s@, p@, t@));
    while i < s.len()
        invariant
            p.len() > 0,
            i <= s.len(),
            replace_all(s@, p@, t@) == out@ + replace_all(s@.skip(i as int), p@, t@),
        decreases s.len() - i,
    {
        let ghost rest = s@.skip(i as int);
        if matches_at(s, p, i) {
            proof {
                assert(rest.take(p@.len() as int) =~= s@.subrange(i as int, i + p@.len()));
                assert(rest.skip(p@.len() as int) =~= s@.skip(i + p@.len()));
            }
            append_chars(&mut out, t);
            i = i + p.len();
        } else {
            proof {
                if p@.len() <= rest.len() {
                    assert(rest.take(p@.len() as int) =~= s@.subrange(i as int, i + p@.len()));
                }
                assert(rest.drop_first() =~= s@.skip(i + 1));
            }
            out.push(s[i]);
            i = i + 1;
        }
    }
    assert(s@.skip(i as int).len() == 0);
    assert(out@ + seq![] =~= out@);
    out
}

/// Each character that is not an ASCII letter or digit replaced by `-`.
pub open spec fn dashify(s: Seq<char>) -> Seq<char> {
    s.map_values(|c: char| if spec_ascii_alnum(c) { c } else { '-' })
}

pub fn dashify_v(s: &Vec<char>) -> (r: Vec<char>)
    ensures
        r@ == dashify(s@),
{
    let mut r: Vec<char> = Vec::new();
    let mut i: usize = 0;
    while i < s.len()
        invariant
            i <= s.len(),
            r@ == dashify(s@.take(i as int)),
        decreases s.len() - i,
    {
        let c = s[i];
        if ascii_alnum(c) {
            r.push(c);
        } else {
            r.push('-');
        }
        assert(dashify(s@.take(i + 1)) =~= dashify(s@.take(i as int)).push(
            if spec_ascii_alnum(c) { c } else { '-' },
        ));
        i = i + 1;
    }
    assert(s@.take(s@.len() as int) =~= s@);
    r
}

/// Every run of consecutive `c` characters shortened to a single `c`.
pub open spec fn collapse_runs(s: Seq<char>, c: char) -> Seq<char>
    decreases s.len(),
{
    if s.len() == 0 {
        s
    } else if s.len() >= 2 && s.last() == c && s[s.len() - 2] == c {
        collapse_runs(s.drop_last(), c)
    } else {
        collapse_runs(s.drop_last(), c).push(s.last())
    }
}

pub fn collapse_runs_v(s: &Vec<char>, c: char) -> (r: Vec<char>)
    ensures
        r@ == collapse_runs(s@, c),
{
    let mut r: Vec<char> = Vec::new();
    let mut i: usize = 0;
    while i < s.len()
        invariant
            i <= s.len(),
            r@ == collapse_runs(s@.take(i as int), c),
        decreases s.len() - i,
    {
        let ghost pre = s@.take(i + 1);
        assert(pre.drop_last() =~= s@.take(i as int));
        if !(i >= 1 && s[i] == c && s[i - 1] == c) {
            r.push(s[i]);
        }
        i = i + 1;
    }
    assert(s@.take(s@.len() as int) =~= s@);
    r
}

// ---------------------------------------------------------------------------
// Splitting and joining
// ---------------------------------------------------------------------------

/// The pieces of `s` between occurrences of `c` (`str::split(c)`); there is
/// always at least one piece.
pub open spec fn split_on(s: Seq<char>, c: char) -> Seq<Seq<char>>
    decreases s.len(),
{
    if s.len() == 0 {
        seq![Seq::<char>::empty()]
    } else {
        let r = split_on(s.drop_last(), c);
        if s.last() == c {
            r.push(Seq::<char>::empty())
        } else {
            r.update(r.len() - 1, r.last().push(s.last()))
        }
    }
}

pub proof fn lemma_split_on_nonempty(s: Seq<char>, c: char)
    ensures
        split_on(s, c).len() >= 1,
    decreases s.len(),
{
    if s.len() > 0 {
        lemma_split_on_nonempty(s.drop_last(), c);
    }
}

/// The views of a vector of character vectors.
pub open spec fn views(v: Seq<Vec<char>>) -> Seq<Seq<char>> {
    v.map_values(|x: Vec<char>| x@)
}

pub fn split_on_v(s: &Vec<char>, c: char) -> (r: Vec<Vec<char>>)
    ensures
        views(r@) == split_on(s@, c),
{
    let mut parts: Vec<Vec<char>> = Vec::new();
    let mut cur: Vec<char> = Vec::new();
    let mut i: usize = 0;
    while i < s.len()
        invariant
            i <= s.len(),
            views(parts@).push(cur@) == split_on(s@.take(i as int), c),
        decreases s.len() - i,
    {
        let ghost pre = s@.take(i + 1);
        assert(pre.drop_last() =~= s@.take(i as int));
        proof {
            lemma_split_on_nonempty(s@.take(i as int), c);
        }
        if s[i] == c {
            let done = cur;
            parts.push(done);
            cur = Vec::new();
            assert(views(parts@) =~= views(old_parts_helper(parts@)).push(done@));
        } else {
            cur.push(s[i]);
        }
        assert(views(parts@).push(cur@) =~= split_on(pre, c));
        i = i + 1;
    }
    assert(s@.take(s@.len() as int) =~= s@);
    parts.push(cur);
    assert(views(parts@) =~= split_on(s@, c));
    parts
}

spec fn old_parts_helper(v: Seq<Vec<char>>) -> Seq<Vec<char>> {
    v.drop_last()
}

/// The non-empty pieces of `s` between occurrences of `c`.
pub open spec fn words_on(s: Seq<char>, c: char) -> Seq<Seq<char>> {
    split_on(s, c).filter(|w: Seq<char>| w.len() > 0)
}

pub fn words_on_v(s: &Vec<char>, c: char) -> (r: Vec<Vec<char>>)
    ensures
        views(r@) == words_on(s@, c),
{
    let parts = split_on_v(s, c);
    let ghost pv = views(parts@);
    let mut r: Vec<Vec<char>> = Vec::new();
    let mut i: usize = 0;
    while i < parts.len()
        invariant
            i <= parts.len(),
            pv == views(parts@),
            views(r@) == pv.take(i as int).filter(|w: Seq<char>| w.len() > 0),
        decreases parts.len() - i,
    {
        reveal_with_fuel(Seq::filter, 1);
        assert(pv.take(i + 1).drop_last() =~= pv.take(i as int));
        if parts[i].len() > 0 {
            let w = subvec(&parts[i], 0, parts[i].len());
            assert(w@ =~= parts@[i as int]@);
            r.push(w);
            assert(views(r@) =~= views(r@.drop_last()).push(w@));
        }
        i = i + 1;
    }
    assert(pv.take(parts@.len() as int) =~= pv);
    r
}

/// The pieces joined with `sep` between consecutive pieces.
pub open spec fn join(ws: Seq<Seq<char>>, sep: Seq<char>) -> Seq<char>
    decreases ws.len(),
{
    if ws.len() == 0 {
        Seq::<char>::empty()
    } else if ws.len() == 1 {
        ws[0]
    } else {
        join(ws.drop_last(), sep) + sep + ws.last()
    }
}

pub fn join_v(ws: &Vec<Vec<char>>, sep: &Vec<char>) -> (r: Vec<char>)
    ensures
        r@ == join(views(ws@), sep@),
{
    let mut r: Vec<char> = Vec::new();
    let mut i: usize = 0;
    while i < ws.len()
        invariant
            i <= ws.len(),
            r@ == join(views(ws@).take(i as int), sep@),
        decreases ws.len() - i,
    {
        assert(views(ws@).take(i + 1).drop_last() =~= views(ws@).take(i as int));
        if i > 0 {
            append_chars(&mut r, sep);
        }
        append_chars(&mut r, &ws[i]);
        proof {
            if i == 0 {
                assert(r@ =~= views(ws@).take(1)[0]);
            }
        }
        i = i + 1;
    }
    assert(views(ws@).take(ws@.len() as int) =~= views(ws@));
    r
}

// ---------------------------------------------------------------------------
// Paths
// ---------------------------------------------------------------------------

/// `dir` extended by `part` as `PathBuf::push` does on Unix: an absolute
/// `part` replaces `dir`; otherwise a `/` is put between them unless `dir`
/// is empty or already ends with one.
pub open spec fn join_path(dir: Seq<char>, part: Seq<char>) -> Seq<char> {
    if part.len() > 0 && part[0] == '/' {
        part
    } else if dir.len() == 0 || dir.last() == '/' {
        dir + part
    } else {
        dir + seq!['/'] + part
    }
}

pub fn join_path_v(dir: &str, part: &str) -> (r: String)
    ensures
        r@ == join_path(dir@, part@),
{
    let d = chars_of(dir);
    let p = chars_of(part);
    if p.len() > 0 && p[0] == '/' {
        return string_of(&p);
    }
    let mut out = d;
    if !(out.len() == 0 || out[out.len() - 1] == '/') {
        out.push('/');
    }
    append_chars(&mut out, &p);
    string_of(&out)
}

// ---------------------------------------------------------------------------
// Numbers and layout
// ---------------------------------------------------------------------------

pub open spec fn digit_char(d: nat) -> char {
    ((48 + d) as u32) as char
}

/// Bytes a character takes in UTF-8.
pub open spec fn utf8_width(c: char) -> nat {
    if (c as u32) < 0x80 {
        1
    } else if (c as u32) < 0x800 {
        2
    } else if (c as u32) < 0x10000 {
        3
    } else {
        4
    }
}

/// Bytes a string takes in UTF-8 (what `str::len` reports).
pub open spec fn utf8_len(s: Seq<char>) -> nat
    decreases s.len(),
{
    if s.len() == 0 {
        0
    } else {
        utf8_len(s.drop_last()) + utf8_width(s.last())
    }
}

pub fn utf8_len_v(s: &Vec<char>) -> (r: u128)
    ensures
        r == utf8_len(s@),
        r <= 4 * s@.len(),
{
    let mut total: u128 = 0;
    let mut i: usize = 0;
    while i < s.len()
        invariant
            i <= s.len(),
            total == utf8_len(s@.take(i as int)),
            total <= 4 * i,
        decreases s.len() - i,
    {
        assert(s@.take(i + 1).drop_last() =~= s@.take(i as int));
        let u = s[i] as u32;
        let w: u128 = if u < 0x80 {
            1
        } else if u < 0x800 {
            2
        } else if u < 0x10000 {
            3
        } else {
            4
        };
        total = total + w;
        i = i + 1;
    }
    assert(s@.take(s.len() as int) =~= s@);
    total
}

/// Decimal rendering of a natural number, as `{}` formats it.
pub open spec fn decimal(n: nat) -> Seq<char>
    decreases n,
{
    if n < 10 {
        seq![digit_char(n)]
    } else {
        decimal(n / 10).push(digit_char(n % 10))
    }
}

pub fn decimal_v(n: u128) -> (r: Vec<char>)
    ensures
        r@ == decimal(n as nat),
    decreases n,
{
    let d = (n % 10) as u32;
    let ch = char_from_digit(d);
    if n < 10 {
        let mut v: Vec<char> = Vec::new();
        v.push(ch);
        v
    } else {
        let mut v = decimal_v(n / 10);
        v.push(ch);
        v
    }
}

fn char_from_digit(d: u32) -> (c: char)
    requires
        d < 10,
    ensures
        c == digit_char(d as nat),
{
    if d == 0 { '0' }
    else if d == 1 { '1' }
    else if d == 2 { '2' }
    else if d == 3 { '3' }
    else if d == 4 { '4' }
    else if d == 5 { '5' }
    else if d == 6 { '6' }
    else if d == 7 { '7' }
    else if d == 8 { '8' }
    else { '9' }
}

/// `s` padded with spaces on the right to at least `w` characters
/// (the `{:<w}` format).
pub open spec fn pad_right(s: Seq<char>, w: nat) -> Seq<char> {
    if s.len() >= w {
        s
    } else {
        s + Seq::new((w - s.len()) as nat, |i: int| ' ')
    }
}

/// `pad_right` with a width that need not fit in `usize`.
pub fn pad_right_wide(out: &mut Vec<char>, s: &Vec<char>, w: u128)
    ensures
        final(out)@ == old(out)@ + pad_right(s@, w as nat),
{
    append_chars(out, s);
    let ghost mid = out@;
    let mut k: u128 = s.len() as u128;
    while k < w
        invariant
            k == s.len() || (s.len() < k && k <= w),
            out@ == mid + Seq::new((k - s.len()) as nat, |i: int| ' '),
        decreases w - k,
    {
        out.push(' ');
        assert(Seq::new((k + 1 - s.len()) as nat, |i: int| ' ') =~= Seq::new(
            (k - s.len()) as nat,
            |i: int| ' ',
        ).push(' '));
        k = k + 1;
    }
    proof {
        if s@.len() >= w {
            assert(Seq::new((k - s.len()) as nat, |i: int| ' ') =~= Seq::<char>::empty());
            assert(out@ =~= mid);
        } else {
            assert(k == w);
        }
    }
}

pub fn pad_right_v(out: &mut Vec<char>, s: &Vec<char>, w: usize)
    ensures
        final(out)@ == old(out)@ + pad_right(s@, w as nat),
{
    append_chars(out, s);
    let ghost mid = out@;
    let mut k = s.len();
    while k < w
        invariant
            k == s.len() || (s.len() < k && k <= w),
            out@ == mid + Seq::new((k - s.len()) as nat, |i: int| ' '),
        decreases w - k,
    {
        out.push(' ');
        assert(Seq::new((k + 1 - s.len()) as nat, |i: int| ' ') =~= Seq::new(
            (k - s.len()) as nat,
            |i: int| ' ',
        ).push(' '));
        k = k + 1;
    }
    proof {
        if s@.len() >= w {
            assert(Seq::new((k - s.len()) as nat, |i: int| ' ') =~= Seq::<char>::empty());
            assert(out@ =~= mid);
        } else {
            assert(k == w);
        }
    }
}

} // verus!
