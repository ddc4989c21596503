//! Character-level string utilities shared by the naming, registry and
//! code-generation components. All executable functions are specified
//! against `Seq<char>` views.

use vstd::prelude::*;

verus! {

/// `s` ends with `suffix`.
pub open spec fn ends_with(s: Seq<char>, suffix: Seq<char>) -> bool {
    suffix.len() <= s.len() && s.subrange(s.len() - suffix.len(), s.len() as int) == suffix
}

/// `s` starts with `prefix`.
pub open spec fn starts_with(s: Seq<char>, prefix: Seq<char>) -> bool {
    prefix.len() <= s.len() && s.subrange(0, prefix.len() as int) == prefix
}

/// Relies on `String::push`: appends the given character to the string.
#[verifier::external_body]
pub(crate) fn push_char(s: &mut String, c: char)
    ensures
        final(s)@ == old(s)@.push(c),
{
    s.push(c);
}

/// Constant-name folding of one character: ASCII lower case letters are
/// raised to upper case and `-` becomes `_`; everything else is kept.
pub open spec fn const_char(c: char) -> char {
    if c == '-' {
        '_'
    } else if 'a' <= c && c <= 'z' {
        (c as u8 - 32) as char
    } else {
        c
    }
}

/// Constant-name folding of a whole string.
pub open spec fn const_case(s: Seq<char>) -> Seq<char> {
    s.map_values(|c: char| const_char(c))
}

fn const_case_char(c: char) -> (r: char)
    ensures
        r == const_char(c),
{
    if c == '-' {
        '_'
    } else if 'a' <= c && c <= 'z' {
        (c as u8 - 32) as char
    } else {
        c
    }
}

/// Executable constant-name folding, e.g. `document-save` to `DOCUMENT_SAVE`.
pub fn to_const_case(s: &str) -> (r: String)
    ensures
        r@ == const_case(s@),
{
    let n = s.unicode_len();
    let mut r = String::new();
    let mut i: usize = 0;
    while i < n
        invariant
            n == s@.len(),
            i <= n,
            r@ == const_case(s@).subrange(0, i as int),
        decreases n - i,
    {
        let c = const_case_char(s.get_char(i));
        push_char(&mut r, c);
        assert(r@ =~= const_case(s@).subrange(0, i + 1));
        i += 1;
    }
    assert(r@ =~= const_case(s@));
    r
}

/// `s` with every occurrence of the character `from` replaced by `to`.
pub open spec fn replace_char(s: Seq<char>, from: char, to: char) -> Seq<char> {
    s.map_values(|c: char| if c == from { to } else { c })
}

/// Executable single-character replacement.
pub fn str_replace_char(s: &str, from: char, to: char) -> (r: String)
    ensures
        r@ == replace_char(s@, from, to),
{
    let n = s.unicode_len();
    let mut r = String::new();
    let mut i: usize = 0;
    while i < n
        invariant
            n == s@.len(),
            i <= n,
            r@ == replace_char(s@, from, to).subrange(0, i as int),
        decreases n - i,
    {
        let c = s.get_char(i);
        let d = if c == from { to } else { c };
        push_char(&mut r, d);
        assert(r@ =~= replace_char(s@, from, to).subrange(0, i + 1));
        i += 1;
    }
    assert(r@ =~= replace_char(s@, from, to));
    r
}

/// A concatenation ends with its second part.
pub proof fn lemma_concat_ends_with(a: Seq<char>, b: Seq<char>)
    ensures
        ends_with(a + b, b),
{
    let s = a + b;
    assert forall|k: int| 0 <= k < b.len() implies #[trigger] s.subrange(
        s.len() - b.len(),
        s.len() as int,
    )[k] == b[k] by {
        assert(s.subrange(s.len() - b.len(), s.len() as int)[k] == s[a.len() + k]);
        assert(s[a.len() + k] == b[k]);
    }
    assert(s.subrange(s.len() - b.len(), s.len() as int) =~= b);
}

/// A string ending in `suffix` also ends in any ending of `suffix`.
pub proof fn lemma_ends_with_tail(s: Seq<char>, suffix: Seq<char>, tail: Seq<char>)
    requires
        ends_with(s, suffix),
        ends_with(suffix, tail),
    ensures
        ends_with(s, tail),
{
    assert forall|k: int| 0 <= k < tail.len() implies #[trigger] s.subrange(
        s.len() - tail.len(),
        s.len() as int,
    )[k] == tail[k] by {
        assert(s.subrange(s.len() - tail.len(), s.len() as int)[k] == s[s.len() - tail.len() + k]);
        assert(s.subrange(s.len() - suffix.len(), s.len() as int)[suffix.len() - tail.len() + k]
            == s[s.len() - tail.len() + k]);
        assert(suffix.subrange(suffix.len() - tail.len(), suffix.len() as int)[k] == suffix[
            suffix.len() - tail.len() + k]);
    }
    assert(s.subrange(s.len() - tail.len(), s.len() as int) =~= tail);
}

/// `pat` occurs in `s` at position `i`.
pub open spec fn matches_at(s: Seq<char>, i: int, pat: Seq<char>) -> bool {
    0 <= i && i + pat.len() <= s.len() && s.subrange(i, i + pat.len()) == pat
}

/// Executable test for `pat` occurring at position `i`.
pub fn str_matches_at(s: &str, i: usize, pat: &str) -> (r: bool)
    requires
        i <= s@.len(),
    ensures
        r == matches_at(s@, i as int, pat@),
{
    let n = s.unicode_len();
    let m = pat.unicode_len();
    if m > n - i {
        assert(!matches_at(s@, i as int, pat@));
        return false;
    }
    let mut j: usize = 0;
    while j < m
        invariant
            n == s@.len(),
            m == pat@.len(),
            i + m <= n,
            j <= m,
            forall|k: int| 0 <= k < j ==> s@[i + k] == pat@[k],
        decreases m - j,
    {
        let a = s.get_char(i + j);
        let b = pat.get_char(j);
        if a != b {
            assert(!matches_at(s@, i as int, pat@)) by {
                if matches_at(s@, i as int, pat@) {
                    assert(s@.subrange(i as int, i + pat@.len())[j as int] == s@[i + j]);
                }
            }
            return false;
        }
        j += 1;
    }
    assert(s@.subrange(i as int, i + pat@.len()) =~= pat@);
    true
}

/// `s` with every occurrence of `from` replaced by `to`, scanning left to
/// right over non-overlapping matches. An empty pattern leaves `s` unchanged.
pub open spec fn replace_all(s: Seq<char>, from: Seq<char>, to: Seq<char>) -> Seq<char>
    decreases s.len(),
{
    if from.len() == 0 || s.len() < from.len() {
        s
    } else if s.subrange(0, from.len() as int) == from {
        to + replace_all(s.skip(from.len() as int), from, to)
    } else {
        seq![s[0]] + replace_all(s.drop_first(), from, to)
    }
}

/// Executable replacement of every occurrence of `from` by `to`.
pub fn str_replace_all(s: &str, from: &str, to: &str) -> (r: String)
    requires
        from@.len() > 0,
    ensures
        r@ == replace_all(s@, from@, to@),
{
    let n = s.unicode_len();
    let m = from.unicode_len();
    let mut r = String::new();
    let mut i: usize = 0;
    proof {
        assert(s@.skip(0) =~= s@);
        assert(r@ + replace_all(s@, from@, to@) =~= replace_all(s@, from@, to@));
    }
    while i < n
        invariant
            n == s@.len(),
            m == from@.len(),
            m > 0,
            i <= n,
            replace_all(s@, from@, to@) == r@ + replace_all(s@.skip(i as int), from@, to@),
        decreases n - i,
    {
        let ghost rest = s@.skip(i as int);
        if str_matches_at(s, i, from) {
            proof {
                assert(rest.len() == n - i);
                assert forall|k: int| 0 <= k < m implies #[trigger] rest.subrange(0, m as int)[k]
                    == from@[k] by {
                    assert(rest.subrange(0, m as int)[k] == rest[k]);
                    assert(rest[k] == s@[i + k]);
                    assert(s@.subrange(i as int, i + m)[k] == s@[i + k]);
                }
                assert(rest.subrange(0, m as int) =~= from@);
                assert(rest.skip(m as int) =~= s@.skip(i + m));
                assert(replace_all(rest, from@, to@) == to@ + replace_all(
                    s@.skip(i + m),
                    from@,
                    to@,
                ));
            }
            r.append(to);
            i += m;
            proof {
                assert(r@ + replace_all(s@.skip(i as int), from@, to@) =~= replace_all(
                    s@,
                    from@,
                    to@,
                ));
            }
        } else {
            proof {
                assert(rest.len() == n - i);
                if rest.len() >= m && rest.subrange(0, m as int) == from@ {
                    assert forall|k: int| 0 <= k < m implies #[trigger] s@.subrange(
                        i as int,
                        i + m,
                    )[k] == from@[k] by {
                        assert(s@.subrange(i as int, i + m)[k] == s@[i + k]);
                        assert(rest[k] == s@[i + k]);
                        assert(rest.subrange(0, m as int)[k] == rest[k]);
                    }
                    assert(s@.subrange(i as int, i + m) =~= from@);
                    assert(matches_at(s@, i as int, from@));
                }
                assert(rest[0] == s@[i as int]);
                assert(rest.drop_first() =~= s@.skip(i + 1));
                assert(replace_all(rest, from@, to@) == seq![s@[i as int]] + replace_all(
                    s@.skip(i + 1),
                    from@,
                    to@,
                ));
            }
            let c = s.get_char(i);
            push_char(&mut r, c);
            i += 1;
            proof {
                assert(r@ + replace_all(s@.skip(i as int), from@, to@) =~= replace_all(
                    s@,
                    from@,
                    to@,
                ));
            }
        }
    }
    proof {
        assert(s@.skip(n as int).len() == 0);
        assert(r@ + replace_all(s@.skip(n as int), from@, to@) =~= r@);
    }
    r
}

/// `s` with the suffix stripped as often as it occurs at the end, as
/// `str::trim_end_matches` does. An empty suffix leaves `s` unchanged.
pub open spec fn trim_suffix(s: Seq<char>, suffix: Seq<char>) -> Seq<char>
    decreases s.len(),
{
    if suffix.len() == 0 {
        s
    } else if ends_with(s, suffix) {
        trim_suffix(s.take(s.len() - suffix.len()), suffix)
    } else {
        s
    }
}

/// Executable repeated suffix stripping.
pub fn str_trim_suffix(s: &str, suffix: &str) -> (r: String)
    requires
        suffix@.len() > 0,
    ensures
        r@ == trim_suffix(s@, suffix@),
{
    let mut cur = String::from_str(s);
    let m = suffix.unicode_len();
    loop
        invariant
            m == suffix@.len(),
            m > 0,
            trim_suffix(s@, suffix@) == trim_suffix(cur@, suffix@),
        ensures
            cur@ == trim_suffix(s@, suffix@),
        decreases cur@.len(),
    {
        if !str_ends_with(cur.as_str(), suffix) {
            break;
        }
        let k = cur.as_str().unicode_len() - m;
        let shorter = String::from_str(cur.as_str().substring_char(0, k));
        proof {
            assert(shorter@ =~= cur@.take(cur@.len() - suffix@.len()));
        }
        cur = shorter;
    }
    cur
}

/// `s` with the prefix stripped as often as it occurs at the start, as
/// `str::trim_start_matches` does. An empty prefix leaves `s` unchanged.
pub open spec fn trim_prefix(s: Seq<char>, prefix: Seq<char>) -> Seq<char>
    decreases s.len(),
{
    if prefix.len() == 0 {
        s
    } else if starts_with(s, prefix) {
        trim_prefix(s.skip(prefix.len() as int), prefix)
    } else {
        s
    }
}

/// Executable repeated prefix stripping.
pub fn str_trim_prefix(s: &str, prefix: &str) -> (r: String)
    requires
        prefix@.len() > 0,
    ensures
        r@ == trim_prefix(s@, prefix@),
{
    let mut cur = String::from_str(s);
    let m = prefix.unicode_len();
    loop
        invariant
            m == prefix@.len(),
            m > 0,
            trim_prefix(s@, prefix@) == trim_prefix(cur@, prefix@),
        ensures
            cur@ == trim_prefix(s@, prefix@),
        decreases cur@.len(),
    {
        if !str_starts_with(cur.as_str(), prefix) {
            break;
        }
        let n = cur.as_str().unicode_len();
        let shorter = String::from_str(cur.as_str().substring_char(m, n));
        proof {
            assert(shorter@ =~= cur@.skip(prefix@.len() as int));
        }
        cur = shorter;
    }
    cur
}

/// `sub` occurs somewhere in `s`.
pub open spec fn contains_sub(s: Seq<char>, sub: Seq<char>) -> bool {
    exists|i: int| matches_at(s, i, sub)
}

/// Executable substring search.
pub fn str_contains(s: &str, sub: &str) -> (r: bool)
    ensures
        r == contains_sub(s@, sub@),
{
    let n = s.unicode_len();
    let m = sub.unicode_len();
    if m > n {
        assert(!contains_sub(s@, sub@));
        return false;
    }
    if m == 0 {
        assert(matches_at(s@, 0, sub@)) by {
            assert(s@.subrange(0, 0) =~= sub@);
        }
        return true;
    }
    let mut i: usize = 0;
    while i <= n - m
        invariant
            n == s@.len(),
            m == sub@.len(),
            0 < m <= n,
            i <= n - m + 1,
            forall|j: int| 0 <= j < i ==> !matches_at(s@, j, sub@),
        decreases n - i,
    {
        if str_matches_at(s, i, sub) {
            assert(contains_sub(s@, sub@));
            return true;
        }
        i += 1;
    }
    assert(!contains_sub(s@, sub@)) by {
        if contains_sub(s@, sub@) {
            let j = choose|j: int| matches_at(s@, j, sub@);
            assert(j < i);
        }
    }
    false
}

/// The parts joined with the separator between consecutive parts.
pub open spec fn join_with(parts: Seq<Seq<char>>, sep: char) -> Seq<char>
    decreases parts.len(),
{
    if parts.len() == 0 {
        Seq::empty()
    } else if parts.len() == 1 {
        parts[0]
    } else {
        parts[0] + seq![sep] + join_with(parts.drop_first(), sep)
    }
}

proof fn lemma_join_snoc(parts: Seq<Seq<char>>, x: Seq<char>, sep: char)
    requires
        parts.len() > 0,
    ensures
        join_with(parts.push(x), sep) == join_with(parts, sep) + seq![sep] + x,
    decreases parts.len(),
{
    if parts.len() == 1 {
        assert(parts.push(x).len() == 2);
        assert(parts.push(x)[0] == parts[0]);
        assert(parts.push(x).drop_first() =~= seq![x]);
        assert(join_with(seq![x], sep) == x);
    } else {
        assert(parts.push(x).drop_first() =~= parts.drop_first().push(x));
        lemma_join_snoc(parts.drop_first(), x, sep);
        assert(parts.push(x)[0] == parts[0]);
        assert(join_with(parts.push(x), sep) == parts[0] + seq![sep] + join_with(
            parts.drop_first().push(x),
            sep,
        ));
        assert(parts[0] + seq![sep] + (join_with(parts.drop_first(), sep) + seq![sep] + x) =~= (
        parts[0] + seq![sep] + join_with(parts.drop_first(), sep)) + seq![sep] + x);
    }
}

/// The views of a vector of strings.
pub open spec fn seq_views(parts: Seq<String>) -> Seq<Seq<char>> {
    parts.map_values(|p: String| p@)
}

/// Executable joining of the parts with a separator character.
pub fn join_strings(parts: &Vec<String>, sep: char) -> (r: String)
    ensures
        r@ == join_with(seq_views(parts@), sep),
{
    let mut r = String::new();
    if parts.len() == 0 {
        assert(r@ =~= join_with(seq_views(parts@), sep));
        return r;
    }
    let mut i: usize = 0;
    while i < parts.len()
        invariant
            parts@.len() > 0,
            i <= parts@.len(),
            i > 0 ==> r@ == join_with(seq_views(parts@).take(i as int), sep),
            i == 0 ==> r@ =~= Seq::<char>::empty(),
        decreases parts@.len() - i,
    {
        if i > 0 {
            push_char(&mut r, sep);
        }
        r.append(parts[i].as_str());
        proof {
            let views = seq_views(parts@);
            assert(views[i as int] == parts@[i as int]@);
            if i == 0 {
                assert(views.take(1)[0] == views[0]);
                assert(views.take(1).len() == 1);
                assert(r@ =~= join_with(views.take(1), sep));
            } else {
                assert(views.take(i as int).len() > 0);
                lemma_join_snoc(views.take(i as int), views[i as int], sep);
                assert(views.take(i as int).push(views[i as int]) =~= views.take(i + 1));
                assert(r@ =~= join_with(views.take(i + 1), sep));
            }
        }
        i += 1;
    }
    proof {
        assert(seq_views(parts@).take(parts@.len() as int) =~= seq_views(parts@));
    }
    r
}

/// Strict lexicographic order on character sequences, by code point.
pub open spec fn lex_lt(a: Seq<char>, b: Seq<char>) -> bool
    decreases a.len(),
{
    if b.len() == 0 {
        false
    } else if a.len() == 0 {
        true
    } else if a[0] != b[0] {
        a[0] < b[0]
    } else {
        lex_lt(a.drop_first(), b.drop_first())
    }
}

pub proof fn lemma_lex_irreflexive(a: Seq<char>)
    ensures
        !lex_lt(a, a),
    decreases a.len(),
{
    if a.len() > 0 {
        lemma_lex_irreflexive(a.drop_first());
    }
}

pub proof fn lemma_lex_transitive(a: Seq<char>, b: Seq<char>, c: Seq<char>)
    requires
        lex_lt(a, b),
        lex_lt(b, c),
    ensures
        lex_lt(a, c),
    decreases a.len(),
{
    if a.len() > 0 {
        if a[0] == b[0] && b[0] == c[0] {
            lemma_lex_transitive(a.drop_first(), b.drop_first(), c.drop_first());
        }
    }
}

/// Unfolds `lex_lt` across an equal prefix of length `i`.
proof fn lemma_lex_common_prefix(a: Seq<char>, b: Seq<char>, i: int)
    requires
        0 <= i <= a.len(),
        i <= b.len(),
        a.subrange(0, i) == b.subrange(0, i),
    ensures
        lex_lt(a, b) == lex_lt(a.skip(i), b.skip(i)),
    decreases i,
{
    if i > 0 {
        assert(a.subrange(0, i)[0] == a[0]);
        assert(b.subrange(0, i)[0] == b[0]);
        assert(a[0] == b[0]);
        assert(a.len() > 0 && b.len() > 0);
        assert forall|k: int| 0 <= k < i - 1 implies #[trigger] a.drop_first()[k]
            == b.drop_first()[k] by {
            assert(a.subrange(0, i)[k + 1] == a[k + 1]);
            assert(b.subrange(0, i)[k + 1] == b[k + 1]);
            assert(a.drop_first()[k] == a[k + 1]);
            assert(b.drop_first()[k] == b[k + 1]);
        }
        assert(a.drop_first().subrange(0, i - 1) =~= b.drop_first().subrange(0, i - 1));
        lemma_lex_common_prefix(a.drop_first(), b.drop_first(), i - 1);
        assert(a.drop_first().skip(i - 1) =~= a.skip(i));
        assert(b.drop_first().skip(i - 1) =~= b.skip(i));
    } else {
        assert(a.skip(0) =~= a);
        assert(b.skip(0) =~= b);
    }
}

/// Three-way ordering of two strings.
#[derive(Clone, Copy, PartialEq, Eq, Structural, Debug)]
pub enum KeyOrder {
    Less,
    Equal,
    Greater,
}

/// Executable lexicographic comparison by code point.
pub fn str_compare(a: &str, b: &str) -> (r: KeyOrder)
    ensures
        r is Less <==> lex_lt(a@, b@),
        r is Equal <==> a@ == b@,
        r is Greater <==> lex_lt(b@, a@),
{
    let n = a.unicode_len();
    let m = b.unicode_len();
    let mut i: usize = 0;
    while i < n && i < m
        invariant
            n == a@.len(),
            m == b@.len(),
            i <= n,
            i <= m,
            a@.subrange(0, i as int) == b@.subrange(0, i as int),
        decreases n - i,
    {
        let x = a.get_char(i);
        let y = b.get_char(i);
        if x != y {
            proof {
                lemma_lex_common_prefix(a@, b@, i as int);
                lemma_lex_common_prefix(b@, a@, i as int);
                assert(a@.skip(i as int)[0] == a@[i as int]);
                assert(b@.skip(i as int)[0] == b@[i as int]);
                assert(a@ != b@) by {
                    if a@ == b@ {
                        assert(a@[i as int] == b@[i as int]);
                    }
                }
            }
            if x < y {
                return KeyOrder::Less;
            } else {
                return KeyOrder::Greater;
            }
        }
        proof {
            assert forall|k: int| 0 <= k < i + 1 implies #[trigger] a@[k] == b@[k] by {
                if k < i {
                    assert(a@.subrange(0, i as int)[k] == a@[k]);
                    assert(b@.subrange(0, i as int)[k] == b@[k]);
                }
            }
            assert(a@.subrange(0, i + 1) =~= b@.subrange(0, i + 1));
        }
        i += 1;
    }
    proof {
        lemma_lex_common_prefix(a@, b@, i as int);
        lemma_lex_common_prefix(b@, a@, i as int);
    }
    if n == m {
        proof {
            assert forall|k: int| 0 <= k < a@.len() implies #[trigger] a@[k] == b@[k] by {
                assert(a@.subrange(0, i as int)[k] == a@[k]);
                assert(b@.subrange(0, i as int)[k] == b@[k]);
            }
            assert(a@ =~= b@);
            lemma_lex_irreflexive(a@);
        }
        KeyOrder::Equal
    } else if n < m {
        proof {
            assert(a@.skip(i as int).len() == 0);
            assert(b@.skip(i as int).len() > 0);
            assert(a@.len() != b@.len());
        }
        KeyOrder::Less
    } else {
        proof {
            assert(b@.skip(i as int).len() == 0);
            assert(a@.skip(i as int).len() > 0);
            assert(a@.len() != b@.len());
        }
        KeyOrder::Greater
    }
}

/// Executable suffix test.
pub fn str_ends_with(s: &str, suffix: &str) -> (r: bool)
    ensures
        r == ends_with(s@, suffix@),
{
    let n = s.unicode_len();
    let m = suffix.unicode_len();
    if m > n {
        assert(!ends_with(s@, suffix@));
        return false;
    }
    let mut i: usize = 0;
    while i < m
        invariant
            m <= n,
            n == s@.len(),
            m == suffix@.len(),
            i <= m,
            forall|j: int| 0 <= j < i ==> s@[n - m + j] == suffix@[j],
        decreases m - i,
    {
        let a = s.get_char(n - m + i);
        let b = suffix.get_char(i);
        if a != b {
            assert(!ends_with(s@, suffix@)) by {
                if ends_with(s@, suffix@) {
                    assert(s@.subrange(n - m, n as int)[i as int] == suffix@[i as int]);
                }
            }
            return false;
        }
        i += 1;
    }
    assert(ends_with(s@, suffix@)) by {
        assert(s@.subrange(n - m, n as int) =~= suffix@);
    }
    true
}

/// Executable prefix test.
pub fn str_starts_with(s: &str, prefix: &str) -> (r: bool)
    ensures
        r == starts_with(s@, prefix@),
{
    let n = s.unicode_len();
    let m = prefix.unicode_len();
    if m > n {
        assert(!starts_with(s@, prefix@));
        return false;
    }
    let mut i: usize = 0;
    while i < m
        invariant
            m <= n,
            n == s@.len(),
            m == prefix@.len(),
            i <= m,
            forall|j: int| 0 <= j < i ==> s@[j] == prefix@[j],
        decreases m - i,
    {
        let a = s.get_char(i);
        let b = prefix.get_char(i);
        if a != b {
            assert(!starts_with(s@, prefix@)) by {
                if starts_with(s@, prefix@) {
                    assert(s@.subrange(0, m as int)[i as int] == prefix@[i as int]);
                }
            }
            return false;
        }
        i += 1;
    }
    assert(starts_with(s@, prefix@)) by {
        assert(s@.subrange(0, m as int) =~= prefix@);
    }
    true
}

} // verus!
