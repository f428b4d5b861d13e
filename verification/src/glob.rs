//! gitignore-style glob matching shared by the permission model and the
//! tool/hook/skill config gates. two modes: path mode (`*` stops at `/`, for
//! file paths) and command mode (`*` matches anything, for shell commands).

use crate::table;
use crate::table::Table;
use crate::text;
use vstd::prelude::*;

verus! {

// --- what a pattern matches ---

/// the number of stars at the front of a pattern.
pub open spec fn leading_stars(p: Seq<char>) -> nat
    decreases p.len(),
{
    if p.len() > 0 && p[0] == '*' {
        1 + leading_stars(p.drop_first())
    } else {
        0
    }
}

/// what a run of `n` stars may stand for: anything, but a single star of path
/// mode stands for no text with a slash.
pub open spec fn star_covers(n: nat, s: Seq<char>, path_mode: bool) -> bool {
    n >= 2 || !path_mode || !s.contains('/')
}

/// one character of a pattern other than a star against one of the input.
pub open spec fn char_matches(p: char, c: char, path_mode: bool) -> bool {
    p == c || (p == '?' && (!path_mode || c != '/'))
}

/// the whole input matches the whole pattern. a run of stars stands for
/// nothing, or takes one more character that it covers.
pub open spec fn matches(p: Seq<char>, s: Seq<char>, path_mode: bool) -> bool
    decreases p.len() + s.len(),
{
    let n = leading_stars(p);
    if p.len() == 0 {
        s.len() == 0
    } else if 0 < n <= p.len() {
        ||| matches(p.skip(n as int), s, path_mode)
        ||| s.len() > 0 && star_covers(n, s.take(1), path_mode) && matches(
            p,
            s.drop_first(),
            path_mode,
        )
    } else {
        s.len() > 0 && char_matches(p[0], s[0], path_mode) && matches(
            p.drop_first(),
            s.drop_first(),
            path_mode,
        )
    }
}

/// a run of `n` stars takes the first `k` characters of `s`, and the rest of
/// the pattern matches the rest of `s`.
pub open spec fn star_split(
    rest: Seq<char>,
    n: nat,
    s: Seq<char>,
    k: int,
    path_mode: bool,
) -> bool {
    0 <= k <= s.len() && star_covers(n, s.take(k), path_mode) && matches(rest, s.skip(k), path_mode)
}

/// the number of wildcard characters of a pattern.
pub open spec fn wildcards(p: Seq<char>) -> nat {
    text::count(p, '*') + text::count(p, '?')
}

/// how specific a pattern is: the number of its bytes that are no wildcards.
pub open spec fn specificity(p: Seq<char>) -> nat {
    (text::utf8_len(p) - wildcards(p)) as nat
}

/// the specificity of a pattern that matches.
pub open spec fn glob_score(p: Seq<char>, s: Seq<char>, path_mode: bool) -> Option<nat> {
    if matches(p, s, path_mode) {
        Some(specificity(p))
    } else {
        None
    }
}

/// the number of characters of a pattern before its first wildcard.
pub open spec fn literal_prefix(p: Seq<char>) -> nat
    decreases p.len(),
{
    if p.len() == 0 || p[0] == '*' || p[0] == '?' {
        0
    } else {
        1 + literal_prefix(p.drop_first())
    }
}

// --- the best of several patterns ---

/// where a pattern stands among others: what comes first weighs most.
pub struct Rank {
    pub first: int,
    pub second: int,
    pub third: int,
}

/// one rank is higher than another.
pub open spec fn outranks(a: Rank, b: Rank) -> bool {
    ||| a.first > b.first
    ||| a.first == b.first && a.second > b.second
    ||| a.first == b.first && a.second == b.second && a.third > b.third
}

/// a way to rank patterns; `None` is for one that does not apply.
pub type Score = spec_fn(Seq<char>) -> Option<Rank>;

/// ranks the patterns of a lookup that match `s`: the longer literal prefix comes
/// first, then the larger number of literal bytes, then the smaller number of
/// wildcards.
pub open spec fn by_prefix(s: Seq<char>) -> Score {
    |p: Seq<char>|
        if matches(p, s, false) {
            Some(
                Rank {
                    first: literal_prefix(p) as int,
                    second: specificity(p) as int,
                    third: -(wildcards(p) as int),
                },
            )
        } else {
            None
        }
}

/// `p` is preferred to `q`: it has the higher rank, or at equal ranks it comes
/// earlier in key order.
pub open spec fn preferred(score: Score, p: Seq<char>, q: Seq<char>) -> bool {
    ||| outranks(score(p)->0, score(q)->0)
    ||| score(p)->0 == score(q)->0 && text::before(p, q)
}

/// `p` is the one of the patterns `keys` that applies and is preferred to all others.
pub open spec fn is_best(keys: Set<Seq<char>>, score: Score, p: Seq<char>) -> bool {
    &&& keys.contains(p)
    &&& score(p) is Some
    &&& forall|q: Seq<char>| #[trigger]
        keys.contains(q) && score(q) is Some && q != p ==> preferred(score, p, q)
}

/// some pattern applies.
pub open spec fn any_applies(keys: Set<Seq<char>>, score: Score) -> bool {
    exists|q: Seq<char>| #[trigger] keys.contains(q) && score(q) is Some
}

/// the one of the patterns `keys` that applies and is preferred to all others.
pub open spec fn best(keys: Set<Seq<char>>, score: Score) -> Option<Seq<char>> {
    if any_applies(keys, score) {
        Some(choose|p: Seq<char>| is_best(keys, score, p))
    } else {
        None
    }
}

/// there is at most one best pattern.
pub proof fn lemma_best(keys: Set<Seq<char>>, score: Score, p: Seq<char>)
    requires
        is_best(keys, score, p),
    ensures
        best(keys, score) == Some(p),
{
    let q = choose|q: Seq<char>| is_best(keys, score, q);
    assert(is_best(keys, score, q));
    if p != q {
        assert(preferred(score, p, q) && preferred(score, q, p));
        if text::before(p, q) {
            text::lemma_before_asymmetric(p, q);
        }
    }
}

/// the state of a search for the best pattern after the first `n` entries.
pub open spec fn best_so_far<V>(
    s: Seq<(String, V)>,
    score: Score,
    n: int,
    b: Option<int>,
) -> bool {
    match b {
        None => forall|i: int| 0 <= i < n ==> score(#[trigger] s[i].0@) is None,
        Some(j) => {
            &&& 0 <= j < n
            &&& score(s[j].0@) is Some
            &&& forall|i: int|
                0 <= i < n && i != j && score(#[trigger] s[i].0@) is Some ==> preferred(
                    score,
                    s[j].0@,
                    s[i].0@,
                )
        },
    }
}

/// preference is transitive.
proof fn lemma_preferred_transitive(score: Score, p: Seq<char>, q: Seq<char>, r: Seq<char>)
    requires
        preferred(score, p, q),
        preferred(score, q, r),
    ensures
        preferred(score, p, r),
{
    if text::before(p, q) && text::before(q, r) {
        text::lemma_before_transitive(p, q, r);
    }
}

/// an entry that does not apply, or to which the best one is preferred, changes nothing.
pub proof fn lemma_keep_best<V>(s: Seq<(String, V)>, score: Score, n: int, b: Option<int>)
    requires
        0 <= n < s.len(),
        best_so_far(s, score, n, b),
        match b {
            None => score(s[n].0@) is None,
            Some(j) => score(s[n].0@) is None || preferred(score, s[j].0@, s[n].0@),
        },
    ensures
        best_so_far(s, score, n + 1, b),
{
}

/// an entry that applies and is preferred to the best one takes its place.
pub proof fn lemma_new_best<V>(s: Seq<(String, V)>, score: Score, n: int, b: Option<int>)
    requires
        0 <= n < s.len(),
        best_so_far(s, score, n, b),
        score(s[n].0@) is Some,
        match b {
            None => true,
            Some(j) => preferred(score, s[n].0@, s[j].0@),
        },
    ensures
        best_so_far(s, score, n + 1, Some(n)),
{
    assert forall|i: int| 0 <= i < n + 1 && i != n && score(#[trigger] s[i].0@) is Some implies preferred(
        score,
        s[n].0@,
        s[i].0@,
    ) by {
        match b {
            None => {},
            Some(j) => {
                if i != j {
                    lemma_preferred_transitive(score, s[n].0@, s[j].0@, s[i].0@);
                }
            },
        }
    }
}

/// the result of a search through all entries is the best pattern.
pub proof fn lemma_search_done<V>(s: Seq<(String, V)>, score: Score, b: Option<int>)
    requires
        table::sorted(s),
        best_so_far(s, score, s.len() as int, b),
    ensures
        match b {
            None => best(table::map_of(s).dom(), score) is None,
            Some(j) => {
                &&& best(table::map_of(s).dom(), score) == Some(s[j].0@)
                &&& table::map_of(s).contains_key(s[j].0@)
                &&& table::map_of(s)[s[j].0@] == s[j].1
            },
        },
{
    let m = table::map_of(s).dom();
    table::lemma_map_of(s);
    match b {
        None => {
            if any_applies(m, score) {
                let q = choose|q: Seq<char>| #[trigger] m.contains(q) && score(q) is Some;
                assert(table::map_of(s).contains_key(q));
                let i = choose|i: int| 0 <= i < s.len() && #[trigger] s[i].0@ == q;
                assert(score(s[i].0@) is None);
            }
        },
        Some(j) => {
            let p = s[j].0@;
            assert forall|q: Seq<char>| #[trigger]
                m.contains(q) && score(q) is Some && q != p implies preferred(score, p, q) by {
                assert(table::map_of(s).contains_key(q));
                let i = choose|i: int| 0 <= i < s.len() && #[trigger] s[i].0@ == q;
                assert(score(s[i].0@) is Some);
            }
            assert(is_best(m, score, p));
            lemma_best(m, score, p);
        },
    }
}

/// a rank that is computed with.
#[derive(Debug, Clone, Copy)]
pub struct Standing {
    pub first: i128,
    pub second: i128,
    pub third: i128,
}

impl View for Standing {
    type V = Rank;

    open spec fn view(&self) -> Rank {
        Rank { first: self.first as int, second: self.second as int, third: self.third as int }
    }
}

/// whether one rank is higher than another.
fn is_higher(a: &Standing, b: &Standing) -> (r: bool)
    ensures
        r == outranks(a@, b@),
{
    a.first > b.first || (a.first == b.first && (a.second > b.second || (a.second == b.second
        && a.third > b.third)))
}

/// something that ranks patterns.
pub(crate) trait Ranking {
    /// how it ranks them.
    spec fn score(&self) -> Score;

    /// the rank of a pattern, if it applies.
    fn rank(&self, pattern: &str) -> (r: Option<Standing>)
        ensures
            match r {
                Some(m) => self.score()(pattern@) == Some(m@),
                None => self.score()(pattern@) is None,
            },
    ;
}

/// the number of the entry whose pattern applies and is preferred to all others
/// that do.
pub(crate) fn find_best<T, R: Ranking>(map: &Table<T>, ranking: &R) -> (r: Option<usize>)
    ensures
        match r {
            Some(i) => {
                &&& i < map.list().len()
                &&& best(map@.dom(), ranking.score()) == Some(map.list()[i as int].0@)
                &&& map@.contains_key(map.list()[i as int].0@)
                &&& map@[map.list()[i as int].0@] == map.list()[i as int].1
            },
            None => best(map@.dom(), ranking.score()) is None,
        },
{
    let ghost score = ranking.score();
    let n = map.len();
    let mut found: Option<(usize, Standing)> = None;
    let mut i: usize = 0;
    while i < n
        invariant
            i <= n,
            n == map.list().len(),
            table::sorted(map.list()),
            score == ranking.score(),
            match found {
                None => best_so_far(map.list(), score, i as int, None),
                Some((j, a)) => {
                    &&& best_so_far(map.list(), score, i as int, Some(j as int))
                    &&& score(map.list()[j as int].0@) == Some(a@)
                },
            },
        decreases n - i,
    {
        let pattern = map.key_at(i);
        let ghost state = match found {
            None => None::<int>,
            Some((j, a)) => Some(j as int),
        };
        match ranking.rank(pattern.as_str()) {
            None => {
                proof {
                    lemma_keep_best(map.list(), score, i as int, state);
                }
            },
            Some(a) => {
                let better = match &found {
                    None => true,
                    Some((_, b)) => is_higher(&a, b),
                };
                proof {
                    if let Some((j, b)) = found {
                        assert(text::before(map.list()[j as int].0@, map.list()[i as int].0@));
                    }
                    if better {
                        lemma_new_best(map.list(), score, i as int, state);
                    } else {
                        lemma_keep_best(map.list(), score, i as int, state);
                    }
                }
                if better {
                    found = Some((i, a));
                }
            },
        }
        i += 1;
    }
    match found {
        None => {
            proof {
                lemma_search_done(map.list(), score, None);
            }
            None
        },
        Some((j, _)) => {
            proof {
                lemma_search_done(map.list(), score, Some(j as int));
            }
            Some(j)
        },
    }
}

/// the number of wildcards in a glob pattern.
pub fn pattern_wildcards(p: &str) -> (r: usize)
    ensures
        r == wildcards(p@),
        r <= p@.len(),
{
    proof {
        lemma_wildcards_bound(p@);
    }
    let n = p.unicode_len();
    text::count_of(p, '*') + text::count_of(p, '?')
}

/// the number of bytes of a pattern that are no wildcards.
pub fn literal_bytes(p: &str) -> (r: usize)
    ensures
        r == specificity(p@),
{
    proof {
        text::lemma_utf8_len_bound(p@);
        lemma_wildcards_bound(p@);
    }
    text::byte_len(p) - pattern_wildcards(p)
}

// --- measures of patterns ---

/// a pattern has at most as many wildcards as characters.
pub proof fn lemma_wildcards_bound(p: Seq<char>)
    ensures
        wildcards(p) <= p.len(),
    decreases p.len(),
{
    if p.len() > 0 {
        lemma_wildcards_bound(p.drop_last());
    }
}

/// counting goes piece by piece.
pub proof fn lemma_count_concat(a: Seq<char>, b: Seq<char>, c: char)
    ensures
        text::count(a + b, c) == text::count(a, c) + text::count(b, c),
    decreases b.len(),
{
    if b.len() == 0 {
        assert(a + b =~= a);
    } else {
        assert((a + b).drop_last() =~= a + b.drop_last());
        lemma_count_concat(a, b.drop_last(), c);
    }
}

/// specificity goes piece by piece.
pub proof fn lemma_specificity_concat(a: Seq<char>, b: Seq<char>)
    ensures
        specificity(a + b) == specificity(a) + specificity(b),
        wildcards(a + b) == wildcards(a) + wildcards(b),
{
    text::lemma_utf8_len_concat(a, b);
    lemma_count_concat(a, b, '*');
    lemma_count_concat(a, b, '?');
    text::lemma_utf8_len_bound(a);
    text::lemma_utf8_len_bound(b);
    lemma_wildcards_bound(a);
    lemma_wildcards_bound(b);
}

/// the run of stars at the front of a pattern.
pub proof fn lemma_leading_stars(p: Seq<char>)
    ensures
        leading_stars(p) <= p.len(),
        forall|i: int| 0 <= i < leading_stars(p) ==> p[i] == '*',
        leading_stars(p) < p.len() ==> p[leading_stars(p) as int] != '*',
        (p.len() > 0 && p[0] == '*') <==> leading_stars(p) > 0,
        leading_stars(p) > 0 ==> leading_stars(p.drop_first()) == leading_stars(p) - 1,
    decreases p.len(),
{
    if p.len() > 0 && p[0] == '*' {
        let t = p.drop_first();
        lemma_leading_stars(t);
        assert forall|i: int| 0 <= i < leading_stars(p) implies p[i] == '*' by {
            if i > 0 {
                assert(p[i] == t[i - 1]);
            }
        }
    }
}

/// a run of stars has no literal characters.
proof fn lemma_stars_not_specific(p: Seq<char>)
    requires
        forall|i: int| 0 <= i < p.len() ==> p[i] == '*',
    ensures
        specificity(p) == 0,
        wildcards(p) == p.len(),
    decreases p.len(),
{
    if p.len() > 0 {
        let t = p.drop_first();
        lemma_stars_not_specific(t);
        assert(p =~= seq![p[0]] + t);
        lemma_specificity_concat(seq![p[0]], t);
        lemma_single(p[0]);
    }
}

/// the measures of a pattern of one character.
proof fn lemma_single(c: char)
    ensures
        text::count(seq![c], '*') == if c == '*' { 1nat } else { 0nat },
        text::count(seq![c], '?') == if c == '?' { 1nat } else { 0nat },
        text::utf8_len(seq![c]) == vstd::utf8::encode_scalar(c as u32).len(),
        c == '*' || c == '?' ==> text::utf8_len(seq![c]) == 1,
{
    assert(seq![c].drop_last() =~= Seq::empty());
    assert(text::count(Seq::empty(), '*') == 0);
    assert(text::count(Seq::empty(), '?') == 0);
    text::lemma_utf8_len_first(seq![c]);
    assert(seq![c].drop_first() =~= Seq::empty());
    assert(text::utf8_len(Seq::empty()) == 0);
}

// --- laws ---

/// a pattern that begins with a run of stars matches a text exactly where the
/// run covers some prefix of it and the rest of the pattern matches what follows.
pub proof fn law_star(p: Seq<char>, s: Seq<char>, path_mode: bool)
    requires
        leading_stars(p) > 0,
    ensures
        matches(p, s, path_mode) <==> exists|k: int|
            star_split(p.skip(leading_stars(p) as int), leading_stars(p), s, k, path_mode),
    decreases s.len(),
{
    lemma_leading_stars(p);
    let n = leading_stars(p);
    let rest = p.skip(n as int);
    assert(s.skip(0) =~= s);
    assert(s.take(0) =~= Seq::empty());
    if matches(p, s, path_mode) {
        if matches(rest, s, path_mode) {
            assert(star_split(rest, n, s, 0, path_mode));
        } else {
            let t = s.drop_first();
            law_star(p, t, path_mode);
            let k = choose|k: int| star_split(rest, n, t, k, path_mode);
            assert(s.skip(k + 1) =~= t.skip(k));
            assert(s.take(k + 1) =~= s.take(1) + t.take(k));
            assert(star_split(rest, n, s, k + 1, path_mode));
        }
    }
    if exists|k: int| star_split(rest, n, s, k, path_mode) {
        let k = choose|k: int| star_split(rest, n, s, k, path_mode);
        if k > 0 {
            let t = s.drop_first();
            assert(s.skip(k) =~= t.skip(k - 1));
            let u = t.take(k - 1);
            assert forall|c: char| u.contains(c) implies s.take(k).contains(c) by {
                let j = choose|j: int| 0 <= j < u.len() && u[j] == c;
                assert(s.take(k)[j + 1] == c);
            }
            assert forall|c: char| s.take(1).contains(c) implies s.take(k).contains(c) by {
                assert(s.take(k)[0] == s.take(1)[0]);
            }
            assert(star_split(rest, n, t, k - 1, path_mode));
            law_star(p, t, path_mode);
        }
    }
}

/// a pattern that matches has no more literal bytes than the input has bytes.
pub proof fn law_specificity_bounded(p: Seq<char>, s: Seq<char>, path_mode: bool)
    requires
        matches(p, s, path_mode),
    ensures
        specificity(p) <= text::utf8_len(s),
    decreases p.len(),
{
    let n = leading_stars(p);
    lemma_leading_stars(p);
    if p.len() == 0 {
        assert(p =~= Seq::empty());
        assert(text::utf8_len(p) == 0);
    } else if n > 0 {
        law_star(p, s, path_mode);
        let k = choose|k: int| star_split(p.skip(n as int), n, s, k, path_mode);
        law_specificity_bounded(p.skip(n as int), s.skip(k), path_mode);
        lemma_stars_not_specific(p.take(n as int));
        lemma_specificity_concat(p.take(n as int), p.skip(n as int));
        assert(p =~= p.take(n as int) + p.skip(n as int));
        text::lemma_utf8_len_concat(s.take(k), s.skip(k));
        assert(s =~= s.take(k) + s.skip(k));
    } else {
        law_specificity_bounded(p.drop_first(), s.drop_first(), path_mode);
        lemma_single(p[0]);
        lemma_specificity_concat(seq![p[0]], p.drop_first());
        assert(p =~= seq![p[0]] + p.drop_first());
        text::lemma_utf8_len_first(s);
    }
}

/// a pattern without wildcards matches itself and nothing else.
pub proof fn law_literal_pattern(p: Seq<char>, s: Seq<char>, path_mode: bool)
    requires
        wildcards(p) == 0,
    ensures
        matches(p, s, path_mode) <==> p == s,
        specificity(p) == text::utf8_len(p),
    decreases p.len(),
{
    lemma_leading_stars(p);
    if p.len() == 0 {
        assert(p == s <==> s.len() == 0) by {
            if s.len() == 0 {
                assert(p =~= s);
            }
        }
    } else {
        let first = seq![p[0]];
        assert(p =~= first + p.drop_first());
        lemma_specificity_concat(first, p.drop_first());
        lemma_single(p[0]);
        assert(p[0] != '*' && p[0] != '?');
        if s.len() > 0 {
            law_literal_pattern(p.drop_first(), s.drop_first(), path_mode);
            if p.drop_first() == s.drop_first() && p[0] == s[0] {
                assert(s =~= seq![s[0]] + s.drop_first());
                assert(p == s);
            }
        }
    }
}

/// a pattern of stars alone: two or more match everything; a single one
/// matches everything in command mode and, in path mode, what has no slash.
pub proof fn law_stars(p: Seq<char>, s: Seq<char>, path_mode: bool)
    requires
        p.len() > 0,
        forall|i: int| 0 <= i < p.len() ==> p[i] == '*',
    ensures
        matches(p, s, path_mode) <==> star_covers(p.len(), s, path_mode),
        specificity(p) == 0,
{
    lemma_leading_stars(p);
    lemma_stars_not_specific(p);
    let n = leading_stars(p);
    assert(n == p.len());
    assert(p.skip(n as int) =~= Seq::empty());
    assert(s.take(s.len() as int) =~= s);
    assert(s.skip(s.len() as int) =~= Seq::empty());
    law_star(p, s, path_mode);
    if star_covers(n, s, path_mode) {
        assert(star_split(p.skip(n as int), n, s, s.len() as int, path_mode));
    }
    if matches(p, s, path_mode) {
        let k = choose|k: int| star_split(p.skip(n as int), n, s, k, path_mode);
        assert(s.skip(k).len() == 0);
        assert(k == s.len());
    }
}

/// what matches in path mode matches in command mode.
pub proof fn law_path_mode_is_narrower(p: Seq<char>, s: Seq<char>)
    requires
        matches(p, s, true),
    ensures
        matches(p, s, false),
    decreases p.len(),
{
    let n = leading_stars(p);
    lemma_leading_stars(p);
    if p.len() > 0 {
        if n > 0 {
            law_star(p, s, true);
            let k = choose|k: int| star_split(p.skip(n as int), n, s, k, true);
            law_path_mode_is_narrower(p.skip(n as int), s.skip(k));
            assert(star_split(p.skip(n as int), n, s, k, false));
            law_star(p, s, false);
        } else {
            law_path_mode_is_narrower(p.drop_first(), s.drop_first());
        }
    }
}

/// on a text without a slash both modes match alike.
pub proof fn law_modes_agree_without_slash(p: Seq<char>, s: Seq<char>)
    requires
        !s.contains('/'),
    ensures
        matches(p, s, true) == matches(p, s, false),
    decreases p.len(),
{
    let n = leading_stars(p);
    lemma_leading_stars(p);
    if matches(p, s, true) {
        law_path_mode_is_narrower(p, s);
    } else if matches(p, s, false) && p.len() > 0 {
        if n > 0 {
            let rest = p.skip(n as int);
            law_star(p, s, false);
            let k = choose|k: int| star_split(rest, n, s, k, false);
            assert(forall|i: int| 0 <= i < s.take(k).len() ==> s.take(k)[i] == s[i]);
            assert(forall|i: int| 0 <= i < s.skip(k).len() ==> s.skip(k)[i] == s[i + k]);
            law_modes_agree_without_slash(rest, s.skip(k));
            assert(star_split(rest, n, s, k, true));
            law_star(p, s, true);
        } else {
            let t = s.drop_first();
            assert(forall|i: int| 0 <= i < t.len() ==> t[i] == s[i + 1]);
            assert(s[0] != '/');
            law_modes_agree_without_slash(p.drop_first(), t);
        }
    }
}

/// the empty text is matched by patterns of stars alone.
pub proof fn law_empty_input(p: Seq<char>, path_mode: bool)
    ensures
        matches(p, Seq::empty(), path_mode) <==> forall|i: int| 0 <= i < p.len() ==> p[i] == '*',
    decreases p.len(),
{
    let s = Seq::<char>::empty();
    lemma_leading_stars(p);
    let n = leading_stars(p);
    if n > 0 {
        let rest = p.skip(n as int);
        law_empty_input(rest, path_mode);
        if matches(p, s, path_mode) {
            law_star(p, s, path_mode);
            let k = choose|k: int| star_split(rest, n, s, k, path_mode);
            assert(s.skip(k) =~= s);
            assert forall|i: int| 0 <= i < p.len() implies p[i] == '*' by {
                if i >= n {
                    assert(rest[i - n] == p[i]);
                }
            }
        }
        if forall|i: int| 0 <= i < p.len() ==> p[i] == '*' {
            assert forall|i: int| 0 <= i < rest.len() implies rest[i] == '*' by {
                assert(rest[i] == p[i + n]);
            }
            assert(matches(rest, s, path_mode));
        }
    } else if p.len() > 0 {
        assert(p[0] != '*');
    }
}

/// patterns in a row match texts in a row.
pub proof fn law_concatenation(
    p: Seq<char>,
    q: Seq<char>,
    s: Seq<char>,
    t: Seq<char>,
    path_mode: bool,
)
    requires
        matches(p, s, path_mode),
        matches(q, t, path_mode),
    ensures
        matches(p + q, s + t, path_mode),
    decreases p.len(),
{
    lemma_leading_stars(p);
    lemma_leading_stars(p + q);
    let n = leading_stars(p);
    if p.len() == 0 {
        assert(p + q =~= q);
        assert(s + t =~= t);
    } else if n > 0 {
        law_star(p, s, path_mode);
        let k = choose|k: int| star_split(p.skip(n as int), n, s, k, path_mode);
        law_concatenation(p.skip(n as int), q, s.skip(k), t, path_mode);
        if n < p.len() {
            lemma_star_run(p, n);
            lemma_star_run_extends(p, q);
            assert((p + q).skip(n as int) =~= p.skip(n as int) + q);
            assert((s + t).skip(k) =~= s.skip(k) + t);
            assert((s + t).take(k) =~= s.take(k));
            assert(star_split((p + q).skip(n as int), n, s + t, k, path_mode));
            law_star(p + q, s + t, path_mode);
        } else {
            assert(p.skip(n as int) =~= Seq::empty());
            assert(k == s.len());
            assert(s.take(k) =~= s);
            lemma_stars_before(p, q, s, t, path_mode);
        }
    } else {
        law_concatenation(p.drop_first(), q, s.drop_first(), t, path_mode);
        assert((p + q).drop_first() =~= p.drop_first() + q);
        assert((s + t).drop_first() =~= s.drop_first() + t);
        assert((p + q)[0] == p[0]);
        assert((s + t)[0] == s[0]);
    }
}

/// a run of stars that ends inside the pattern.
proof fn lemma_star_run(p: Seq<char>, n: nat)
    requires
        n == leading_stars(p),
        n < p.len(),
    ensures
        p[n as int] != '*',
{
    lemma_leading_stars(p);
}

/// a run of stars that ends inside `p` is the run of `p + q`.
proof fn lemma_star_run_extends(p: Seq<char>, q: Seq<char>)
    requires
        leading_stars(p) < p.len(),
    ensures
        leading_stars(p + q) == leading_stars(p),
    decreases p.len(),
{
    lemma_leading_stars(p);
    if p[0] == '*' {
        assert((p + q).drop_first() =~= p.drop_first() + q);
        lemma_star_run_extends(p.drop_first(), q);
        assert((p + q)[0] == '*');
    } else {
        assert((p + q)[0] == p[0]);
    }
}

/// stars in front of a pattern make one run with the stars that it begins with.
proof fn lemma_star_runs_add(p: Seq<char>, q: Seq<char>)
    requires
        leading_stars(p) == p.len(),
    ensures
        leading_stars(p + q) == p.len() + leading_stars(q),
    decreases p.len(),
{
    lemma_leading_stars(p);
    if p.len() == 0 {
        assert(p + q =~= q);
    } else {
        assert((p + q).drop_first() =~= p.drop_first() + q);
        assert((p + q)[0] == '*');
        lemma_star_runs_add(p.drop_first(), q);
    }
}

/// stars in front of a pattern match whatever they cover in front of its text.
proof fn lemma_stars_before(
    p: Seq<char>,
    q: Seq<char>,
    s: Seq<char>,
    t: Seq<char>,
    path_mode: bool,
)
    requires
        p.len() > 0,
        leading_stars(p) == p.len(),
        star_covers(p.len(), s, path_mode),
        matches(q, t, path_mode),
    ensures
        matches(p + q, s + t, path_mode),
{
    lemma_star_runs_add(p, q);
    lemma_leading_stars(q);
    let n = leading_stars(p + q);
    let m = leading_stars(q);
    if m == 0 {
        let k = s.len() as int;
        assert((p + q).skip(n as int) =~= q);
        assert((s + t).skip(k) =~= t);
        assert((s + t).take(k) =~= s);
        assert(star_split((p + q).skip(n as int), n, s + t, k, path_mode));
        law_star(p + q, s + t, path_mode);
    } else {
        law_star(q, t, path_mode);
        let j = choose|j: int| star_split(q.skip(m as int), m, t, j, path_mode);
        let k = s.len() + j;
        assert((p + q).skip(n as int) =~= q.skip(m as int));
        assert((s + t).skip(k) =~= t.skip(j));
        assert(star_split((p + q).skip(n as int), n, s + t, k, path_mode));
        law_star(p + q, s + t, path_mode);
    }
}

/// a pattern that matches has no more characters before its first wildcard than
/// the text has; one without wildcards has no others.
pub proof fn law_prefix_bounded(p: Seq<char>, s: Seq<char>, path_mode: bool)
    requires
        matches(p, s, path_mode),
    ensures
        literal_prefix(p) <= s.len(),
        wildcards(p) == 0 ==> literal_prefix(p) == s.len(),
    decreases p.len(),
{
    lemma_leading_stars(p);
    if wildcards(p) == 0 {
        law_literal_pattern(p, s, path_mode);
    }
    if p.len() > 0 {
        assert(p =~= seq![p[0]] + p.drop_first());
        lemma_specificity_concat(seq![p[0]], p.drop_first());
        lemma_single(p[0]);
        if p[0] != '*' && p[0] != '?' {
            law_prefix_bounded(p.drop_first(), s.drop_first(), path_mode);
        }
    }
}

/// an entry for exactly this text, without wildcards, is the best one.
pub proof fn law_exact_entry_wins(keys: Set<Seq<char>>, s: Seq<char>)
    requires
        keys.contains(s),
        wildcards(s) == 0,
    ensures
        best(keys, by_prefix(s)) == Some(s),
{
    let score = by_prefix(s);
    law_literal_pattern(s, s, false);
    law_prefix_bounded(s, s, false);
    assert forall|q: Seq<char>| #[trigger]
        keys.contains(q) && score(q) is Some && q != s implies preferred(score, s, q) by {
        law_specificity_bounded(q, s, false);
        law_prefix_bounded(q, s, false);
        if wildcards(q) == 0 {
            law_literal_pattern(q, s, false);
        }
    }
    lemma_best(keys, score, s);
}

/// of two patterns that apply one is preferred to the other.
proof fn lemma_preferred_total(score: Score, p: Seq<char>, q: Seq<char>)
    requires
        p != q,
    ensures
        preferred(score, p, q) || preferred(score, q, p),
{
    text::lemma_before_total(p, q);
}

/// of finitely many patterns of which some applies there is a best one.
pub proof fn lemma_best_exists(keys: Set<Seq<char>>, score: Score)
    requires
        keys.finite(),
        any_applies(keys, score),
    ensures
        best(keys, score) is Some,
        is_best(keys, score, best(keys, score)->0),
    decreases keys.len(),
{
    let k = choose|q: Seq<char>| #[trigger] keys.contains(q) && score(q) is Some;
    let rest = keys.remove(k);
    if any_applies(rest, score) {
        lemma_best_exists(rest, score);
        let b = best(rest, score)->0;
        lemma_preferred_total(score, b, k);
        if preferred(score, b, k) {
            assert forall|q: Seq<char>| #[trigger]
                keys.contains(q) && score(q) is Some && q != b implies preferred(score, b, q) by {
                if q != k {
                    assert(rest.contains(q));
                }
            }
            assert(is_best(keys, score, b));
        } else {
            assert forall|q: Seq<char>| #[trigger]
                keys.contains(q) && score(q) is Some && q != k implies preferred(score, k, q) by {
                assert(rest.contains(q));
                if q != b {
                    lemma_preferred_transitive(score, k, b, q);
                }
            }
            assert(is_best(keys, score, k));
        }
    } else {
        assert forall|q: Seq<char>| #[trigger]
            keys.contains(q) && score(q) is Some && q != k implies preferred(score, k, q) by {
            assert(rest.contains(q));
        }
        assert(is_best(keys, score, k));
    }
}

/// the best pattern of a lookup matches, and no other one that matches has a
/// longer literal prefix; at equal prefixes none is more specific, and at equal
/// specificity none has fewer wildcards.
pub proof fn law_longest_prefix_wins(
    keys: Set<Seq<char>>,
    s: Seq<char>,
    p: Seq<char>,
    q: Seq<char>,
)
    requires
        is_best(keys, by_prefix(s), p),
        keys.contains(q),
        matches(q, s, false),
    ensures
        best(keys, by_prefix(s)) == Some(p),
        matches(p, s, false),
        literal_prefix(q) <= literal_prefix(p),
        literal_prefix(q) == literal_prefix(p) ==> specificity(q) <= specificity(p),
        literal_prefix(q) == literal_prefix(p) && specificity(q) == specificity(p) ==> wildcards(p)
            <= wildcards(q),
{
    lemma_best(keys, by_prefix(s), p);
    let score = by_prefix(s);
    assert(score(q) is Some);
}

// --- matching ---

/// glob matching with optional path-aware semantics.
/// `**` always matches any sequence of characters.
/// in path mode: `*` matches non-`/` chars, `?` matches one non-`/` char.
/// in command mode: `*` and `?` match any character (including `/`).
/// returns a specificity score (higher = more literal, fewer wildcards) on a
/// match, so the most specific of several matching patterns can be chosen.
pub fn glob_matches(pattern: &str, input: &str, path_mode: bool) -> (r: Option<usize>)
    ensures
        match r {
            Some(n) => glob_score(pattern@, input@, path_mode) == Some(n as nat),
            None => glob_score(pattern@, input@, path_mode) is None,
        },
{
    let p = text::chars_of(pattern);
    let s = text::chars_of(input);
    if glob_matches_recursive(p.as_slice(), s.as_slice(), path_mode) {
        Some(literal_bytes(pattern))
    } else {
        None
    }
}

/// whether the whole input matches the whole pattern.
pub fn glob_matches_recursive(pattern: &[char], input: &[char], path_mode: bool) -> (r: bool)
    ensures
        r == matches(pattern@, input@, path_mode),
    decreases pattern@.len(),
{
    if pattern.len() == 0 {
        return input.len() == 0;
    }
    proof {
        lemma_leading_stars(pattern@);
    }
    if pattern[0] == '*' {
        let rest = skip_stars(pattern);
        let ghost n = leading_stars(pattern@);
        let crosses = !path_mode || pattern.len() - rest.len() >= 2;
        let mut i: usize = 0;
        assert(input@.skip(0) =~= input@);
        loop
            invariant
                i <= input@.len(),
                pattern@.len() > 0,
                n == leading_stars(pattern@),
                0 < n <= pattern@.len(),
                rest@ == pattern@.skip(n as int),
                crosses == (!path_mode || n >= 2),
                matches(pattern@, input@, path_mode) == matches(
                    pattern@,
                    input@.skip(i as int),
                    path_mode,
                ),
            decreases input@.len() - i,
        {
            let tail = vstd::slice::slice_subrange(input, i, input.len());
            assert(tail@ =~= input@.skip(i as int));
            if glob_matches_recursive(rest, tail, path_mode) {
                return true;
            }
            if i == input.len() {
                return false;
            }
            assert(tail@.take(1) =~= seq![input@[i as int]]);
            if !crosses && input[i] == '/' {
                assert(tail@.take(1)[0] == '/');
                return false;
            }
            assert(tail@.drop_first() =~= input@.skip(i + 1));
            i += 1;
        }
    }
    if input.len() == 0 {
        return false;
    }
    let p = pattern[0];
    let c = input[0];
    if p == c || (p == '?' && (!path_mode || c != '/')) {
        let rest = vstd::slice::slice_subrange(pattern, 1, pattern.len());
        let tail = vstd::slice::slice_subrange(input, 1, input.len());
        assert(rest@ =~= pattern@.drop_first());
        assert(tail@ =~= input@.drop_first());
        glob_matches_recursive(rest, tail, path_mode)
    } else {
        false
    }
}

/// skips consecutive `*` characters at the front of a pattern.
pub fn skip_stars(pattern: &[char]) -> (r: &[char])
    ensures
        r@ == pattern@.skip(leading_stars(pattern@) as int),
        leading_stars(pattern@) <= pattern@.len(),
{
    let mut i: usize = 0;
    assert(pattern@.skip(0) =~= pattern@);
    while i < pattern.len() && pattern[i] == '*'
        invariant
            i <= pattern@.len(),
            leading_stars(pattern@) == i + leading_stars(pattern@.skip(i as int)),
        decreases pattern@.len() - i,
    {
        assert(pattern@.skip(i as int).drop_first() =~= pattern@.skip(i + 1));
        i += 1;
    }
    assert(leading_stars(pattern@) == i);
    let r = vstd::slice::slice_subrange(pattern, i, pattern.len());
    assert(r@ =~= pattern@.skip(i as int));
    r
}

/// the number of characters of a pattern before its first wildcard.
pub fn prefix_len(pattern: &str) -> (r: usize)
    ensures
        r == literal_prefix(pattern@),
{
    let chars = text::chars_of(pattern);
    let mut i: usize = 0;
    assert(pattern@.skip(0) =~= pattern@);
    while i < chars.len() && chars[i] != '*' && chars[i] != '?'
        invariant
            i <= chars@.len(),
            chars@ == pattern@,
            literal_prefix(pattern@) == i + literal_prefix(pattern@.skip(i as int)),
        decreases chars@.len() - i,
    {
        assert(pattern@.skip(i as int).drop_first() =~= pattern@.skip(i + 1));
        i += 1;
    }
    i
}

/// ranks the patterns of a lookup of `key`.
struct ByPrefix<'a> {
    key: &'a str,
}

impl<'a> Ranking for ByPrefix<'a> {
    closed spec fn score(&self) -> Score {
        by_prefix(self.key@)
    }

    fn rank(&self, pattern: &str) -> (r: Option<Standing>) {
        match glob_matches(pattern, self.key, false) {
            Some(n) => Some(
                Standing {
                    first: prefix_len(pattern) as i128,
                    second: n as i128,
                    third: -(pattern_wildcards(pattern) as i128),
                },
            ),
            None => None,
        }
    }
}

/// looks up `key` in a map keyed by gitignore-style globs. returns the
/// value of the most-specific matching pattern (longer literal prefix
/// wins; `"*"` has specificity 0 so it acts as a default). returns
/// `default` if nothing matches.
pub fn glob_lookup<T: Clone>(map: &Table<T>, key: &str, default: T) -> (r: T)
    ensures
        match best(map@.dom(), by_prefix(key@)) {
            Some(p) => map@.contains_key(p) && cloned(map@[p], r),
            None => r == default,
        },
{
    match find_best(map, &ByPrefix { key }) {
        Some(i) => map.value_at(i).clone(),
        None => default,
    }
}

/// a pattern of one character that is no star matches that character, and a
/// question mark any one, but no slash in path mode.
pub proof fn law_single_character(c: char, s: Seq<char>, path_mode: bool)
    requires
        c != '*',
    ensures
        matches(seq![c], s, path_mode) <==> s.len() == 1 && (s[0] == c || (c == '?' && !(path_mode
            && s[0] == '/'))),
{
    let p = seq![c];
    lemma_leading_stars(p);
    assert(p.drop_first() =~= Seq::empty());
    reveal_with_fuel(matches, 2);
    assert(p[0] == c);
    if s.len() > 0 {
        assert(s.drop_first().len() == s.len() - 1);
    }
}

/// what follows a character that is no star matches what follows the character
/// that it takes.
pub proof fn law_first_character(c: char, p: Seq<char>, s: Seq<char>, path_mode: bool)
    requires
        c != '*',
    ensures
        matches(seq![c] + p, s, path_mode) <==> s.len() > 0 && matches(
            seq![c],
            s.take(1),
            path_mode,
        ) && matches(p, s.skip(1), path_mode),
{
    let q = seq![c] + p;
    lemma_leading_stars(q);
    assert(q[0] == c);
    assert(q.drop_first() =~= p);
    law_single_character(c, s.take(1), path_mode);
    if s.len() > 0 {
        assert(s.drop_first() =~= s.skip(1));
        assert(s.take(1)[0] == s[0]);
    }
}

/// in command mode, and for two stars in path mode too, a literal text, stars and
/// a literal text match exactly what begins with the one and ends with the other.
pub proof fn law_text_star_text(
    a: Seq<char>,
    stars: Seq<char>,
    b: Seq<char>,
    middle: Seq<char>,
    path_mode: bool,
)
    requires
        stars == seq!['*'] && !path_mode || stars == seq!['*', '*'] || (stars == seq!['*']
            && !middle.contains('/')),
        wildcards(a) == 0,
        wildcards(b) == 0,
    ensures
        matches(a + stars + b, a + middle + b, path_mode),
        specificity(a + stars + b) == text::utf8_len(a) + text::utf8_len(b),
{
    law_literal_pattern(a, a, path_mode);
    law_literal_pattern(b, b, path_mode);
    law_stars(stars, middle, path_mode);
    law_concatenation(a, stars, a, middle, path_mode);
    law_concatenation(a + stars, b, a + middle, b, path_mode);
    lemma_specificity_concat(a, stars);
    lemma_specificity_concat(a + stars, b);
}

/// the wildcards of a pattern are its stars and question marks; all its other
/// characters count, by their bytes, for its specificity.
pub proof fn law_pattern_measures(p: Seq<char>, c: char)
    ensures
        wildcards(p.push(c)) == wildcards(p) + if c == '*' || c == '?' { 1int } else { 0 },
        specificity(p.push(c)) == specificity(p) + if c == '*' || c == '?' {
            0
        } else {
            text::utf8_len(seq![c]) as int
        },
        wildcards(Seq::empty()) == 0,
        specificity(Seq::empty()) == 0,
{
    text::law_count(p, '*', c);
    text::law_count(p, '?', c);
    assert(p.push(c) =~= p + seq![c]);
    text::lemma_utf8_len_concat(p, seq![c]);
    text::lemma_utf8_len_bound(p);
    lemma_wildcards_bound(p);
    lemma_single(c);
}

/// a pattern that matches scores its literal bytes, and one that does not has no
/// score.
pub proof fn law_score(p: Seq<char>, s: Seq<char>, path_mode: bool)
    ensures
        matches(p, s, path_mode) ==> glob_score(p, s, path_mode) == Some(specificity(p)),
        !matches(p, s, path_mode) ==> glob_score(p, s, path_mode) is None,
{
}

/// the literal prefix of a pattern goes up to its first wildcard, or its end.
pub proof fn law_literal_prefix(p: Seq<char>)
    ensures
        literal_prefix(p) <= p.len(),
        forall|i: int| 0 <= i < literal_prefix(p) ==> p[i] != '*' && p[i] != '?',
        literal_prefix(p) < p.len() ==> p[literal_prefix(p) as int] == '*'
            || p[literal_prefix(p) as int] == '?',
    decreases p.len(),
{
    if p.len() > 0 && p[0] != '*' && p[0] != '?' {
        let t = p.drop_first();
        law_literal_prefix(t);
        assert forall|i: int| 0 <= i < literal_prefix(p) implies p[i] != '*' && p[i] != '?' by {
            if i > 0 {
                assert(p[i] == t[i - 1]);
            }
        }
    }
}

/// a pattern is the best of a lookup where each other one that matches has a
/// shorter literal prefix, or at equal prefixes fewer literal bytes, or at equal
/// literal bytes more wildcards.
pub proof fn law_best_of_lookup(keys: Set<Seq<char>>, s: Seq<char>, p: Seq<char>)
    requires
        keys.contains(p),
        matches(p, s, false),
        forall|q: Seq<char>| #[trigger]
            keys.contains(q) && q != p && matches(q, s, false) ==> literal_prefix(q)
                < literal_prefix(p) || literal_prefix(q) == literal_prefix(p) && (specificity(q)
                < specificity(p) || specificity(q) == specificity(p) && wildcards(q) > wildcards(
                p,
            )),
    ensures
        best(keys, by_prefix(s)) == Some(p),
{
    let score = by_prefix(s);
    assert forall|q: Seq<char>| #[trigger]
        keys.contains(q) && score(q) is Some && q != p implies preferred(score, p, q) by {
        assert(keys.contains(q) && q != p && matches(q, s, false));
    }
    lemma_best(keys, score, p);
}

} // verus!
