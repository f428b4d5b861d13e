//! Text as sequences of characters: comparison, trimming, searching,
//! splitting, joining and the decimal notation of numbers.

use vstd::prelude::*;

verus! {

// --- models ---

/// the number of bytes of `s` in UTF-8.
pub open spec fn utf8_len(s: Seq<char>) -> nat {
    vstd::utf8::encode_utf8(s).len()
}

/// the contents of a list of strings.
pub open spec fn texts(v: Seq<String>) -> Seq<Seq<char>> {
    Seq::new(v.len(), |i: int| v[i]@)
}

/// the contents of a string that may be missing.
pub open spec fn text_opt(o: Option<String>) -> Option<Seq<char>> {
    match o {
        Some(s) => Some(s@),
        None => None,
    }
}

/// the contents of a string that may be missing.
pub open spec fn str_opt(o: Option<&str>) -> Option<Seq<char>> {
    match o {
        Some(s) => Some(s@),
        None => None,
    }
}

/// `a` and `b` first differ at `i`, and `a` is the smaller one there.
pub open spec fn smaller_at(a: Seq<char>, b: Seq<char>, i: int) -> bool {
    &&& 0 <= i <= a.len()
    &&& i < b.len()
    &&& forall|j: int| 0 <= j < i ==> a[j] == b[j]
    &&& i < a.len() ==> a[i] < b[i]
}

/// lexicographic order by code point (which is also the order of the bytes).
pub open spec fn before(a: Seq<char>, b: Seq<char>) -> bool {
    exists|i: int| smaller_at(a, b, i)
}

/// the characters that count as white space (the Unicode property White_Space).
pub open spec fn is_white(c: char) -> bool {
    ||| '\u{9}' <= c <= '\u{d}'
    ||| c == '\u{20}'
    ||| c == '\u{85}'
    ||| c == '\u{a0}'
    ||| c == '\u{1680}'
    ||| '\u{2000}' <= c <= '\u{200a}'
    ||| c == '\u{2028}'
    ||| c == '\u{2029}'
    ||| c == '\u{202f}'
    ||| c == '\u{205f}'
    ||| c == '\u{3000}'
}

/// `s` without its leading white space.
pub open spec fn trim_start(s: Seq<char>) -> Seq<char>
    decreases s.len(),
{
    if s.len() > 0 && is_white(s[0]) {
        trim_start(s.drop_first())
    } else {
        s
    }
}

/// `s` without its trailing white space.
pub open spec fn trim_end(s: Seq<char>) -> Seq<char>
    decreases s.len(),
{
    if s.len() > 0 && is_white(s.last()) {
        trim_end(s.drop_last())
    } else {
        s
    }
}

/// `s` without the white space around it.
pub open spec fn trim(s: Seq<char>) -> Seq<char> {
    trim_end(trim_start(s))
}

/// the index of the first `c` in `s`; the length of `s` where there is none.
pub open spec fn position(s: Seq<char>, c: char) -> int
    decreases s.len(),
{
    if s.len() == 0 || s[0] == c {
        0
    } else {
        1 + position(s.drop_first(), c)
    }
}

/// how often `c` stands in `s`.
pub open spec fn count(s: Seq<char>, c: char) -> nat
    decreases s.len(),
{
    if s.len() == 0 {
        0
    } else {
        count(s.drop_last(), c) + if s.last() == c { 1nat } else { 0nat }
    }
}

/// `pat` stands in `s` at index `i`.
pub open spec fn occurs(s: Seq<char>, pat: Seq<char>, i: int) -> bool {
    0 <= i && i + pat.len() <= s.len() && s.subrange(i, i + pat.len()) == pat
}

/// `i` is the first index at which `pat` stands in `s`.
pub open spec fn first_occurrence(s: Seq<char>, pat: Seq<char>, i: int) -> bool {
    occurs(s, pat, i) && forall|j: int| 0 <= j < i ==> !occurs(s, pat, j)
}

/// the first index at which `pat` stands in `s`.
pub open spec fn find(s: Seq<char>, pat: Seq<char>) -> Option<int> {
    if exists|i: int| first_occurrence(s, pat, i) {
        Some(choose|i: int| first_occurrence(s, pat, i))
    } else {
        None
    }
}

/// a line without the carriage return of its line ending.
pub open spec fn without_return(s: Seq<char>) -> Seq<char> {
    if s.len() > 0 && s.last() == '\r' {
        s.drop_last()
    } else {
        s
    }
}

/// the lines of `s`: each ends at a line feed, which may have a carriage
/// return before it; the last one may lack it.
pub open spec fn lines(s: Seq<char>) -> Seq<Seq<char>>
    decreases s.len(),
{
    let i = position(s, '\n');
    if s.len() == 0 {
        Seq::empty()
    } else if 0 <= i < s.len() {
        seq![without_return(s.take(i))] + lines(s.skip(i + 1))
    } else {
        seq![s]
    }
}

/// the parts with `sep` between neighbours.
pub open spec fn join(parts: Seq<Seq<char>>, sep: Seq<char>) -> Seq<char>
    decreases parts.len(),
{
    if parts.len() == 0 {
        Seq::empty()
    } else if parts.len() == 1 {
        parts[0]
    } else {
        join(parts.drop_last(), sep) + sep + parts.last()
    }
}

/// `s` with each line feed written as a backslash and an `n`.
pub open spec fn escape_newlines(s: Seq<char>) -> Seq<char>
    decreases s.len(),
{
    if s.len() == 0 {
        Seq::empty()
    } else {
        escape_newlines(s.drop_last()) + if s.last() == '\n' {
            seq!['\\', 'n']
        } else {
            seq![s.last()]
        }
    }
}

/// `n` times the character `c`.
pub open spec fn repeat(c: char, n: nat) -> Seq<char> {
    Seq::new(n, |i: int| c)
}

/// `s` filled up with blanks to `width` characters.
pub open spec fn pad_right(s: Seq<char>, width: nat) -> Seq<char> {
    if s.len() < width {
        s + repeat(' ', (width - s.len()) as nat)
    } else {
        s
    }
}

/// the decimal digit `d`.
pub open spec fn digit(d: nat) -> char {
    (48 + d) as u8 as char
}

/// `n` in decimal notation.
pub open spec fn decimal(n: nat) -> Seq<char>
    decreases n,
{
    if n < 10 {
        seq![digit(n)]
    } else {
        decimal(n / 10).push(digit(n % 10))
    }
}

/// a path below a base path; an absolute path stands for itself.
pub open spec fn path_join(base: Seq<char>, path: Seq<char>) -> Seq<char> {
    if path.len() > 0 && path[0] == '/' {
        path
    } else if base.len() == 0 || base.last() == '/' {
        base + path
    } else {
        base + seq!['/'] + path
    }
}

// --- properties of the order ---

/// nothing comes before itself.
pub proof fn lemma_before_irreflexive(a: Seq<char>)
    ensures
        !before(a, a),
{
}

/// the order is transitive.
pub proof fn lemma_before_transitive(a: Seq<char>, b: Seq<char>, c: Seq<char>)
    requires
        before(a, b),
        before(b, c),
    ensures
        before(a, c),
{
    let i = choose|i: int| smaller_at(a, b, i);
    let j = choose|j: int| smaller_at(b, c, j);
    let k = if i <= j { i } else { j };
    assert(smaller_at(a, c, k));
}

/// of two different strings one comes before the other.
pub proof fn lemma_before_total(a: Seq<char>, b: Seq<char>)
    ensures
        a == b || before(a, b) || before(b, a),
    decreases a.len(),
{
    if a.len() == 0 {
        if b.len() == 0 {
            assert(a =~= b);
        } else {
            assert(smaller_at(a, b, 0));
        }
    } else if b.len() == 0 {
        assert(smaller_at(b, a, 0));
    } else if a[0] != b[0] {
        if a[0] < b[0] {
            assert(smaller_at(a, b, 0));
        } else {
            assert(smaller_at(b, a, 0));
        }
    } else {
        let x = a.drop_first();
        let y = b.drop_first();
        lemma_before_total(x, y);
        if x == y {
            assert(a =~= seq![a[0]] + x);
            assert(b =~= seq![b[0]] + y);
        } else if before(x, y) {
            let i = choose|i: int| smaller_at(x, y, i);
            assert forall|j: int| 0 <= j < i + 1 implies a[j] == b[j] by {
                if j > 0 {
                    assert(x[j - 1] == y[j - 1]);
                }
            }
            assert(smaller_at(a, b, i + 1));
        } else {
            let i = choose|i: int| smaller_at(y, x, i);
            assert forall|j: int| 0 <= j < i + 1 implies b[j] == a[j] by {
                if j > 0 {
                    assert(y[j - 1] == x[j - 1]);
                }
            }
            assert(smaller_at(b, a, i + 1));
        }
    }
}

/// the order has no cycles of two.
pub proof fn lemma_before_asymmetric(a: Seq<char>, b: Seq<char>)
    requires
        before(a, b),
    ensures
        !before(b, a),
        a != b,
{
    if before(b, a) {
        lemma_before_transitive(a, b, a);
    }
    lemma_before_irreflexive(a);
    lemma_before_irreflexive(b);
}

// --- conversions ---

/// `String::push` of the standard library appends one character.
pub assume_specification[ String::push ](s: &mut String, c: char)
    ensures
        final(s)@ == old(s)@.push(c),
;

/// the characters of `s`.
pub fn chars_of(s: &str) -> (r: Vec<char>)
    ensures
        r@ == s@,
{
    let mut out: Vec<char> = Vec::new();
    for c in it: s.chars()
        invariant
            it.seq() == s@,
            out@ == s@.take(it.index()),
    {
        assert(s@.take(it.index() + 1) == s@.take(it.index()).push(s@[it.index()]));
        out.push(c);
    }
    assert(s@.take(s@.len() as int) == s@);
    out
}

/// the string with the given characters.
pub fn string_of(chars: &[char]) -> (r: String)
    ensures
        r@ == chars@,
{
    let mut out = String::new();
    let mut i: usize = 0;
    while i < chars.len()
        invariant
            i <= chars.len(),
            out@ == chars@.take(i as int),
        decreases chars.len() - i,
    {
        assert(chars@.take(i + 1) == chars@.take(i as int).push(chars@[i as int]));
        out.push(chars[i]);
        i += 1;
    }
    assert(chars@.take(chars@.len() as int) == chars@);
    out
}

/// the number of bytes of `s` in UTF-8.
pub fn byte_len(s: &str) -> (r: usize)
    ensures
        r == utf8_len(s@),
{
    s.as_bytes().len()
}

// --- lengths in bytes ---

/// the bytes of a text are those of its first character and those of the rest.
pub proof fn lemma_utf8_len_first(s: Seq<char>)
    requires
        s.len() > 0,
    ensures
        utf8_len(s) == vstd::utf8::encode_scalar(s[0] as u32).len() + utf8_len(
            s.drop_first(),
        ),
        1 <= vstd::utf8::encode_scalar(s[0] as u32).len() <= 4,
{
}

/// a text has at least as many bytes as characters.
pub proof fn lemma_utf8_len_bound(s: Seq<char>)
    ensures
        s.len() <= utf8_len(s),
    decreases s.len(),
{
    if s.len() > 0 {
        lemma_utf8_len_first(s);
        lemma_utf8_len_bound(s.drop_first());
    }
}

/// the bytes of two texts in a row are those of the two.
pub proof fn lemma_utf8_len_concat(a: Seq<char>, b: Seq<char>)
    ensures
        utf8_len(a + b) == utf8_len(a) + utf8_len(b),
    decreases a.len(),
{
    if a.len() == 0 {
        assert(a + b =~= b);
    } else {
        lemma_utf8_len_first(a);
        lemma_utf8_len_first(a + b);
        assert((a + b).drop_first() =~= a.drop_first() + b);
        lemma_utf8_len_concat(a.drop_first(), b);
    }
}

/// the number of bytes of a character in UTF-8.
pub fn char_bytes(c: char) -> (r: usize)
    ensures
        r == utf8_len(seq![c]),
        1 <= r <= 4,
{
    proof {
        lemma_utf8_len_first(seq![c]);
        assert(seq![c].drop_first() =~= Seq::empty());
        assert(utf8_len(Seq::empty()) == 0);
    }
    let u = c as u32;
    if u <= 0x7f {
        1
    } else if u <= 0x7ff {
        2
    } else if u <= 0xffff {
        3
    } else {
        4
    }
}

// --- comparison ---

/// whether two strings hold the same characters.
pub fn str_eq(a: &str, b: &str) -> (r: bool)
    ensures
        r == (a@ == b@),
{
    let x = chars_of(a);
    let y = chars_of(b);
    if x.len() != y.len() {
        return false;
    }
    let mut i: usize = 0;
    while i < x.len()
        invariant
            i <= x.len(),
            x.len() == y.len(),
            x@ == a@,
            y@ == b@,
            forall|j: int| 0 <= j < i ==> x@[j] == y@[j],
        decreases x.len() - i,
    {
        if x[i] != y[i] {
            return false;
        }
        i += 1;
    }
    assert(a@ =~= b@);
    true
}

/// whether `a` comes before `b`.
pub fn is_before(a: &str, b: &str) -> (r: bool)
    ensures
        r == before(a@, b@),
{
    let x = chars_of(a);
    let y = chars_of(b);
    let mut i: usize = 0;
    while i < x.len() && i < y.len()
        invariant
            i <= x.len(),
            i <= y.len(),
            x@ == a@,
            y@ == b@,
            forall|j: int| 0 <= j < i ==> x@[j] == y@[j],
        decreases x.len() - i,
    {
        if x[i] != y[i] {
            if x[i] < y[i] {
                assert(smaller_at(a@, b@, i as int));
                return true;
            } else {
                assert(smaller_at(b@, a@, i as int));
                proof {
                    lemma_before_asymmetric(b@, a@);
                }
                return false;
            }
        }
        i += 1;
    }
    if i < y.len() {
        assert(smaller_at(a@, b@, i as int));
        true
    } else {
        proof {
            if i < x.len() {
                assert(smaller_at(b@, a@, i as int));
                lemma_before_asymmetric(b@, a@);
            } else {
                assert(a@ =~= b@);
                lemma_before_irreflexive(a@);
            }
        }
        false
    }
}

/// whether a list of strings holds `s`.
pub fn contains_str(list: &Vec<String>, s: &str) -> (r: bool)
    ensures
        r == texts(list@).contains(s@),
{
    let mut i: usize = 0;
    while i < list.len()
        invariant
            i <= list.len(),
            forall|j: int| 0 <= j < i ==> list@[j]@ != s@,
        decreases list.len() - i,
    {
        if str_eq(list[i].as_str(), s) {
            assert(texts(list@)[i as int] == s@);
            return true;
        }
        i += 1;
    }
    false
}

// --- white space ---

/// whether `c` is white space.
pub fn is_white_space(c: char) -> (r: bool)
    ensures
        r == is_white(c),
{
    ('\u{9}' <= c && c <= '\u{d}') || c == '\u{20}' || c == '\u{85}' || c == '\u{a0}' || c
        == '\u{1680}' || ('\u{2000}' <= c && c <= '\u{200a}') || c == '\u{2028}' || c == '\u{2029}'
        || c == '\u{202f}' || c == '\u{205f}' || c == '\u{3000}'
}

/// `s` without the white space around it.
pub fn trimmed(s: &str) -> (r: String)
    ensures
        r@ == trim(s@),
{
    let chars = chars_of(s);
    let mut lo: usize = 0;
    assert(s@.skip(0) =~= s@);
    while lo < chars.len() && is_white_space(chars[lo])
        invariant
            lo <= chars.len(),
            chars@ == s@,
            trim_start(s@) == trim_start(s@.skip(lo as int)),
        decreases chars.len() - lo,
    {
        assert(s@.skip(lo as int).drop_first() =~= s@.skip(lo + 1));
        lo += 1;
    }
    assert(trim_start(s@) == s@.skip(lo as int));
    let mut hi: usize = chars.len();
    assert(s@.subrange(lo as int, hi as int) =~= s@.skip(lo as int));
    while lo < hi && is_white_space(chars[hi - 1])
        invariant
            lo <= hi <= chars.len(),
            chars@ == s@,
            trim(s@) == trim_end(s@.subrange(lo as int, hi as int)),
        decreases hi,
    {
        assert(s@.subrange(lo as int, hi as int).drop_last() =~= s@.subrange(lo as int, hi - 1));
        hi -= 1;
    }
    string_of(vstd::slice::slice_subrange(chars.as_slice(), lo, hi))
}

// --- searching ---

/// the properties of `position`.
pub proof fn lemma_position(s: Seq<char>, c: char)
    ensures
        0 <= position(s, c) <= s.len(),
        position(s, c) < s.len() ==> s[position(s, c)] == c,
        forall|j: int| 0 <= j < position(s, c) ==> s[j] != c,
    decreases s.len(),
{
    if s.len() > 0 && s[0] != c {
        let t = s.drop_first();
        lemma_position(t, c);
        assert forall|j: int| 0 <= j < position(s, c) implies s[j] != c by {
            if j > 0 {
                assert(s[j] == t[j - 1]);
            }
        }
    }
}

/// an index with the properties of `position` is the position.
pub proof fn lemma_position_unique(s: Seq<char>, c: char, i: int)
    requires
        0 <= i <= s.len(),
        i < s.len() ==> s[i] == c,
        forall|j: int| 0 <= j < i ==> s[j] != c,
    ensures
        position(s, c) == i,
{
    lemma_position(s, c);
    let p = position(s, c);
    if p < i {
        assert(s[p] != c);
    }
    if i < p {
        assert(s[i] != c);
    }
}

/// the index of the first `c` at or after `from`; the length where there is none.
pub fn position_from(chars: &[char], from: usize, c: char) -> (r: usize)
    requires
        from <= chars@.len(),
    ensures
        from <= r <= chars@.len(),
        r == from + position(chars@.skip(from as int), c),
{
    let mut i: usize = from;
    while i < chars.len() && chars[i] != c
        invariant
            from <= i <= chars.len(),
            forall|j: int| from <= j < i ==> chars@[j] != c,
        decreases chars.len() - i,
    {
        i += 1;
    }
    proof {
        let t = chars@.skip(from as int);
        assert forall|j: int| 0 <= j < i - from implies t[j] != c by {
            assert(t[j] == chars@[from + j]);
        }
        lemma_position_unique(t, c, i - from);
    }
    i
}

/// how often `c` stands in `s`.
pub fn count_of(s: &str, c: char) -> (r: usize)
    ensures
        r == count(s@, c),
        r <= s@.len(),
{
    let chars = chars_of(s);
    let mut n: usize = 0;
    let mut i: usize = 0;
    while i < chars.len()
        invariant
            i <= chars.len(),
            chars@ == s@,
            n <= i,
            n == count(s@.take(i as int), c),
        decreases chars.len() - i,
    {
        assert(s@.take(i + 1).drop_last() =~= s@.take(i as int));
        if chars[i] == c {
            n += 1;
        }
        i += 1;
    }
    assert(s@.take(s@.len() as int) =~= s@);
    n
}

/// whether `s` begins with `p`.
pub fn starts_with(s: &str, p: &str) -> (r: bool)
    ensures
        r == p@.is_prefix_of(s@),
{
    let x = chars_of(s);
    let y = chars_of(p);
    if y.len() > x.len() {
        return false;
    }
    let mut i: usize = 0;
    while i < y.len()
        invariant
            i <= y.len() <= x.len(),
            x@ == s@,
            y@ == p@,
            forall|j: int| 0 <= j < i ==> x@[j] == y@[j],
        decreases y.len() - i,
    {
        if x[i] != y[i] {
            assert(s@.subrange(0, p@.len() as int)[i as int] != p@[i as int]);
            return false;
        }
        i += 1;
    }
    assert(p@ =~= s@.subrange(0, p@.len() as int));
    true
}

/// whether `s` ends with `p`.
pub fn ends_with(s: &str, p: &str) -> (r: bool)
    ensures
        r == p@.is_suffix_of(s@),
{
    let x = chars_of(s);
    let y = chars_of(p);
    if y.len() > x.len() {
        return false;
    }
    let off: usize = x.len() - y.len();
    let mut i: usize = 0;
    while i < y.len()
        invariant
            i <= y.len() <= x.len(),
            off == x.len() - y.len(),
            x@ == s@,
            y@ == p@,
            forall|j: int| 0 <= j < i ==> x@[off + j] == y@[j],
        decreases y.len() - i,
    {
        if x[off + i] != y[i] {
            assert(s@.subrange(s@.len() - p@.len(), s@.len() as int)[i as int] != p@[i as int]);
            return false;
        }
        i += 1;
    }
    assert(p@ =~= s@.subrange(s@.len() - p@.len(), s@.len() as int));
    true
}

/// a first occurrence is what `find` gives.
pub proof fn lemma_find(s: Seq<char>, pat: Seq<char>, i: int)
    requires
        first_occurrence(s, pat, i),
    ensures
        find(s, pat) == Some(i),
{
    let k = choose|k: int| first_occurrence(s, pat, k);
    assert(first_occurrence(s, pat, k));
    if k < i {
        assert(!occurs(s, pat, k));
    }
    if i < k {
        assert(!occurs(s, pat, i));
    }
}

/// the first index (in characters) at which `pat` stands in `s`.
pub fn find_str(s: &str, pat: &str) -> (r: Option<usize>)
    ensures
        match r {
            Some(i) => find(s@, pat@) == Some(i as int) && i + pat@.len() <= s@.len(),
            None => find(s@, pat@) is None,
        },
{
    let x = chars_of(s);
    let y = chars_of(pat);
    if y.len() > x.len() {
        return None;
    }
    let last: usize = x.len() - y.len();
    let mut i: usize = 0;
    loop
        invariant
            i <= last,
            last == x.len() - y.len(),
            y.len() <= x.len(),
            x@ == s@,
            y@ == pat@,
            forall|j: int| 0 <= j < i ==> !occurs(s@, pat@, j),
        decreases last - i,
    {
        let mut k: usize = 0;
        while k < y.len() && x[i + k] == y[k]
            invariant
                k <= y.len(),
                i + y.len() <= x.len(),
                x@ == s@,
                y@ == pat@,
                forall|j: int| 0 <= j < k ==> x@[i + j] == y@[j],
            decreases y.len() - k,
        {
            k += 1;
        }
        if k == y.len() {
            assert(s@.subrange(i as int, i + pat@.len()) =~= pat@);
            proof {
                lemma_find(s@, pat@, i as int);
            }
            return Some(i);
        }
        assert(s@.subrange(i as int, i + pat@.len())[k as int] != pat@[k as int]);
        if i == last {
            return None;
        }
        i += 1;
    }
}

// --- splitting and joining ---

/// the properties of `lines` that a scan from `from` needs.
proof fn lemma_lines_step(s: Seq<char>, from: int)
    requires
        0 <= from < s.len(),
    ensures
        ({
            let rest = s.skip(from);
            let i = from + position(rest, '\n');
            &&& from <= i <= s.len()
            &&& i < s.len() ==> lines(rest) == seq![without_return(s.subrange(from, i))] + lines(
                s.skip(i + 1),
            )
            &&& i == s.len() ==> lines(rest) == seq![s.subrange(from, i)]
        }),
{
    let rest = s.skip(from);
    lemma_position(rest, '\n');
    let p = position(rest, '\n');
    let i = from + p;
    if i < s.len() {
        assert(rest.take(p) =~= s.subrange(from, i));
        assert(rest.skip(p + 1) =~= s.skip(i + 1));
    } else {
        assert(rest =~= s.subrange(from, i));
    }
}

/// the lines of `s`.
pub fn lines_of(s: &str) -> (r: Vec<String>)
    ensures
        texts(r@) == lines(s@),
{
    let chars = chars_of(s);
    let mut out: Vec<String> = Vec::new();
    let mut from: usize = 0;
    assert(s@.skip(0) =~= s@);
    while from < chars.len()
        invariant
            from <= chars.len(),
            chars@ == s@,
            texts(out@) + lines(s@.skip(from as int)) == lines(s@),
        decreases chars.len() - from,
    {
        let ghost done = out@;
        let ghost start = from;
        let i = position_from(chars.as_slice(), from, '\n');
        proof {
            lemma_lines_step(s@, from as int);
        }
        if i < chars.len() {
            let end = if i > from && chars[i - 1] == '\r' {
                i - 1
            } else {
                i
            };
            let line = string_of(vstd::slice::slice_subrange(chars.as_slice(), from, end));
            proof {
                let whole = s@.subrange(from as int, i as int);
                if i > from {
                    assert(whole.last() == s@[i - 1]);
                    assert(whole.drop_last() =~= s@.subrange(from as int, i - 1));
                }
                assert(line@ =~= without_return(whole));
            }
            out.push(line);
            from = i + 1;
            assert(texts(out@) =~= texts(done).push(line@));
            assert(texts(out@) + lines(s@.skip(from as int)) =~= texts(done) + lines(
                s@.skip(start as int),
            ));
        } else {
            let line = string_of(vstd::slice::slice_subrange(chars.as_slice(), from, i));
            out.push(line);
            from = i;
            assert(texts(out@) =~= texts(done).push(line@));
            assert(lines(s@.skip(from as int)) =~= Seq::empty());
            assert(texts(out@) + lines(s@.skip(from as int)) =~= texts(done) + lines(
                s@.skip(start as int),
            ));
        }
    }
    assert(lines(s@.skip(from as int)) =~= Seq::empty());
    assert(texts(out@) =~= lines(s@));
    out
}

/// the strings with `sep` between neighbours.
pub fn join_of(parts: &[String], sep: &str) -> (r: String)
    ensures
        r@ == join(texts(parts@), sep@),
{
    let mut out = String::new();
    let mut i: usize = 0;
    while i < parts.len()
        invariant
            i <= parts.len(),
            out@ == join(texts(parts@.take(i as int)), sep@),
        decreases parts.len() - i,
    {
        proof {
            let now = texts(parts@.take(i + 1));
            assert(now.drop_last() =~= texts(parts@.take(i as int)));
            assert(now.last() == parts@[i as int]@);
            if i == 0 {
                assert(out@ + parts@[0]@ =~= parts@[0]@);
            }
        }
        if i > 0 {
            out.append(sep);
        }
        out.append(parts[i].as_str());
        i += 1;
    }
    assert(parts@.take(parts@.len() as int) =~= parts@);
    out
}

/// `s` with each line feed written as a backslash and an `n`.
pub fn newlines_escaped(s: &str) -> (r: String)
    ensures
        r@ == escape_newlines(s@),
{
    let chars = chars_of(s);
    let mut out = String::new();
    let mut i: usize = 0;
    while i < chars.len()
        invariant
            i <= chars.len(),
            chars@ == s@,
            out@ == escape_newlines(s@.take(i as int)),
        decreases chars.len() - i,
    {
        let ghost so_far = out@;
        assert(s@.take(i + 1).drop_last() =~= s@.take(i as int));
        if chars[i] == '\n' {
            out.push('\\');
            out.push('n');
            assert(out@ =~= so_far + seq!['\\', 'n']);
        } else {
            out.push(chars[i]);
            assert(out@ =~= so_far + seq![s@[i as int]]);
        }
        i += 1;
    }
    assert(s@.take(s@.len() as int) =~= s@);
    out
}

// --- formatting ---

/// `n` times the character `c`.
pub fn repeated(c: char, n: usize) -> (r: String)
    ensures
        r@ == repeat(c, n as nat),
{
    let mut out = String::new();
    let mut i: usize = 0;
    while i < n
        invariant
            i <= n,
            out@ == repeat(c, i as nat),
        decreases n - i,
    {
        out.push(c);
        i += 1;
        assert(out@ =~= repeat(c, i as nat));
    }
    out
}

/// `s` filled up with blanks to `width` characters.
pub fn padded(s: &str, width: usize) -> (r: String)
    ensures
        r@ == pad_right(s@, width as nat),
{
    let n = s.unicode_len();
    let mut out = s.to_owned();
    if n < width {
        out.append(repeated(' ', width - n).as_str());
    }
    out
}

/// `n` in decimal notation.
pub fn decimal_of(n: u64) -> (r: String)
    ensures
        r@ == decimal(n as nat),
    decreases n,
{
    if n < 10 {
        let mut out = String::new();
        out.push((48 + n as u8) as char);
        assert(out@ =~= seq![digit(n as nat)]);
        out
    } else {
        let mut out = decimal_of(n / 10);
        out.push((48 + (n % 10) as u8) as char);
        out
    }
}

/// `a` followed by `b`.
pub fn concat2(a: &str, b: &str) -> (r: String)
    ensures
        r@ == a@ + b@,
{
    let mut out = a.to_owned();
    out.append(b);
    out
}

/// `a`, `b` and `c` in a row.
pub fn concat3(a: &str, b: &str, c: &str) -> (r: String)
    ensures
        r@ == a@ + b@ + c@,
{
    let mut out = a.to_owned();
    out.append(b);
    out.append(c);
    out
}

/// an independent copy of a list of strings.
pub fn copy_list(list: &Vec<String>) -> (r: Vec<String>)
    ensures
        r@ == list@,
{
    let mut out: Vec<String> = Vec::new();
    let mut i: usize = 0;
    while i < list.len()
        invariant
            i <= list.len(),
            out@ == list@.take(i as int),
        decreases list.len() - i,
    {
        out.push(list[i].clone());
        i += 1;
        assert(out@ =~= list@.take(i as int));
    }
    assert(list@.take(list@.len() as int) =~= list@);
    out
}

/// a copy of a string that may be missing.
pub fn copy_opt(o: &Option<String>) -> (r: Option<String>)
    ensures
        text_opt(r) == text_opt(*o),
{
    match o {
        Some(s) => Some(s.clone()),
        None => None,
    }
}

/// a path below a base path; an absolute path stands for itself.
pub fn join_paths(base: &str, path: &str) -> (r: String)
    ensures
        r@ == path_join(base@, path@),
{
    proof {
        reveal_strlit("/");
        assert("/"@ =~= seq!['/']);
        if "/"@.is_prefix_of(path@) {
            assert(path@.subrange(0, 1)[0] == '/');
        } else if path@.len() > 0 && path@[0] == '/' {
            assert(path@.subrange(0, 1) =~= "/"@);
        }
        if "/"@.is_suffix_of(base@) {
            assert(base@.subrange(base@.len() - 1, base@.len() as int)[0] == '/');
        } else if base@.len() > 0 && base@.last() == '/' {
            assert(base@.subrange(base@.len() - 1, base@.len() as int) =~= "/"@);
        }
    }
    if starts_with(path, "/") {
        path.to_owned()
    } else if base.is_empty() || ends_with(base, "/") {
        concat2(base, path)
    } else {
        concat3(base, "/", path)
    }
}

// --- laws ---

/// what trimming takes away is white space at the two ends, and all of it.
pub proof fn law_trim(s: Seq<char>)
    ensures
        exists|i: int, j: int|
            0 <= i <= j <= s.len() && trim(s) == #[trigger] s.subrange(i, j) && (forall|k: int|
                0 <= k < i ==> is_white(#[trigger] s[k])) && (forall|k: int|
                j <= k < s.len() ==> is_white(#[trigger] s[k])),
        trim(s).len() > 0 ==> !is_white(trim(s)[0]) && !is_white(trim(s).last()),
{
    let i = lemma_trim_start(s);
    let t = s.skip(i);
    let j = lemma_trim_end(t);
    assert(t.take(j) =~= s.subrange(i, i + j));
    assert forall|k: int| i + j <= k < s.len() implies is_white(#[trigger] s[k]) by {
        assert(s[k] == t[k - i]);
    }
    if j > 0 {
        assert(t.take(j)[0] == t[0]);
    }
}

/// how many characters are taken away at the front.
proof fn lemma_trim_start(s: Seq<char>) -> (i: int)
    ensures
        0 <= i <= s.len(),
        trim_start(s) == s.skip(i),
        forall|k: int| 0 <= k < i ==> is_white(#[trigger] s[k]),
        i < s.len() ==> !is_white(s[i]),
    decreases s.len(),
{
    if s.len() > 0 && is_white(s[0]) {
        let t = s.drop_first();
        let i = lemma_trim_start(t);
        assert(t.skip(i) =~= s.skip(i + 1));
        assert forall|k: int| 0 <= k < i + 1 implies is_white(#[trigger] s[k]) by {
            if k > 0 {
                assert(s[k] == t[k - 1]);
            }
        }
        i + 1
    } else {
        assert(s.skip(0) =~= s);
        0
    }
}

/// how many characters stay before those that are taken away at the end.
proof fn lemma_trim_end(s: Seq<char>) -> (j: int)
    ensures
        0 <= j <= s.len(),
        trim_end(s) == s.take(j),
        forall|k: int| j <= k < s.len() ==> is_white(#[trigger] s[k]),
        j > 0 ==> !is_white(s[j - 1]),
    decreases s.len(),
{
    if s.len() > 0 && is_white(s.last()) {
        let t = s.drop_last();
        let j = lemma_trim_end(t);
        assert(t.take(j) =~= s.take(j));
        assert forall|k: int| j <= k < s.len() implies is_white(#[trigger] s[k]) by {
            if k < t.len() {
                assert(s[k] == t[k]);
            }
        }
        if j > 0 {
            assert(t[j - 1] == s[j - 1]);
        }
        j
    } else {
        assert(s.take(s.len() as int) =~= s);
        s.len() as int
    }
}

/// a text that neither begins nor ends with white space is what stays of it with
/// white space around it.
pub proof fn law_trim_undoes_padding(a: Seq<char>, s: Seq<char>, b: Seq<char>)
    requires
        forall|k: int| 0 <= k < a.len() ==> is_white(#[trigger] a[k]),
        forall|k: int| 0 <= k < b.len() ==> is_white(#[trigger] b[k]),
        s.len() > 0 ==> !is_white(s[0]) && !is_white(s.last()),
    ensures
        trim(a + s + b) == s,
{
    let all = a + s + b;
    let i = lemma_trim_start(all);
    if s.len() > 0 {
        assert(all[a.len() as int] == s[0]);
        if i < a.len() {
            assert(all[i] == a[i]);
        }
        assert(i == a.len());
        let t = all.skip(i);
        assert(t =~= s + b);
        let j = lemma_trim_end(t);
        assert(t[s.len() - 1] == s.last());
        if j > s.len() {
            assert(t[j - 1] == b[j - 1 - s.len()]);
        }
        assert(t.take(j) =~= s);
    } else {
        if i < all.len() {
            assert(all[i] == if i < a.len() { a[i] } else { b[i - a.len()] });
        }
        assert(all.skip(i) =~= Seq::empty());
        assert(trim_end(Seq::empty()) =~= s);
    }
}

/// blanks, tabs and line endings are white space, and nothing visible in ASCII is.
pub proof fn law_white_space(c: char)
    ensures
        c == ' ' || c == '\t' || c == '\n' || c == '\r' ==> is_white(c),
        '!' <= c <= '~' ==> !is_white(c),
{
}

/// joining goes piece by piece, with one separator between the pieces.
pub proof fn law_join_in_pieces(a: Seq<Seq<char>>, b: Seq<Seq<char>>, sep: Seq<char>)
    requires
        a.len() > 0,
        b.len() > 0,
    ensures
        join(a + b, sep) == join(a, sep) + sep + join(b, sep),
    decreases b.len(),
{
    let all = a + b;
    assert(all.last() == b.last());
    if b.len() == 1 {
        assert(all.drop_last() =~= a);
    } else {
        assert(all.drop_last() =~= a + b.drop_last());
        law_join_in_pieces(a, b.drop_last(), sep);
        assert(join(all, sep) =~= join(a, sep) + sep + join(b, sep));
    }
}

/// a single part is joined to itself, and nothing to nothing.
pub proof fn law_join_single(part: Seq<char>, sep: Seq<char>)
    ensures
        join(seq![part], sep) == part,
        join(Seq::empty(), sep) == Seq::<char>::empty(),
{
}

/// a line and what follows its line feed.
proof fn lemma_first_line(line: Seq<char>, rest: Seq<char>)
    requires
        !line.contains('\n'),
    ensures
        lines(line + seq!['\n'] + rest) == seq![without_return(line)] + lines(rest),
{
    let s = line + seq!['\n'] + rest;
    let n = line.len() as int;
    assert(s[n] == '\n');
    assert forall|j: int| 0 <= j < n implies s[j] != '\n' by {
        assert(s[j] == line[j]);
        assert(line.contains(line[j]));
    }
    lemma_position_unique(s, '\n', n);
    assert(s.take(n) =~= line);
    assert(s.skip(n + 1) =~= rest);
}

/// the lines of parts that are joined by line feeds are those parts, each one
/// character for character, where none of them holds a line feed or ends in a
/// carriage return. a line feed at the end makes no difference; an empty part at
/// the end needs one.
pub proof fn law_lines_of_joined(parts: Seq<Seq<char>>)
    requires
        parts.len() > 0,
        forall|i: int|
            0 <= i < parts.len() ==> !(#[trigger] parts[i]).contains('\n') && (parts[i].len() > 0
                ==> parts[i].last() != '\r'),
    ensures
        lines(join(parts, seq!['\n']) + seq!['\n']) == parts,
        parts.last().len() > 0 ==> lines(join(parts, seq!['\n'])) == parts,
    decreases parts.len(),
{
    let nl = seq!['\n'];
    let first = parts[0];
    let s = join(parts, nl);
    let none = Seq::<char>::empty();
    assert(lines(none) =~= Seq::empty());
    if parts.len() == 1 {
        assert(parts =~= seq![first]);
        assert(s == first);
        assert(s + nl =~= first + nl + none);
        lemma_first_line(first, none);
        assert(lines(s + nl) =~= parts);
        if first.len() > 0 {
            lemma_position(first, '\n');
            let p = position(first, '\n');
            if p < first.len() {
                assert(first.contains(first[p]));
            }
            assert(lines(s) =~= parts);
        }
    } else {
        let rest = parts.drop_first();
        assert(parts =~= seq![first] + rest);
        law_join_in_pieces(seq![first], rest, nl);
        law_join_single(first, nl);
        assert forall|i: int| 0 <= i < rest.len() implies !(#[trigger] rest[i]).contains('\n') && (
        rest[i].len() > 0 ==> rest[i].last() != '\r') by {
            assert(rest[i] == parts[i + 1]);
        }
        law_lines_of_joined(rest);
        let t = join(rest, nl);
        assert(s == first + nl + t);
        assert(s + nl =~= first + nl + (t + nl));
        lemma_first_line(first, t + nl);
        assert(lines(s + nl) =~= parts);
        if parts.last().len() > 0 {
            assert(rest.last() == parts.last());
            lemma_first_line(first, t);
            assert(lines(s) =~= parts);
        }
    }
}

/// a carriage return before a line feed belongs to the line ending.
pub proof fn law_carriage_return_ends_line(line: Seq<char>, rest: Seq<char>)
    requires
        !line.contains('\n'),
    ensures
        lines(line + seq!['\r', '\n'] + rest) == seq![line] + lines(rest),
{
    let with = line + seq!['\r'];
    assert(!with.contains('\n')) by {
        if with.contains('\n') {
            let k = choose|k: int| 0 <= k < with.len() && with[k] == '\n';
            assert(line[k] == '\n');
        }
    }
    lemma_first_line(with, rest);
    assert(with + seq!['\n'] + rest =~= line + seq!['\r', '\n'] + rest);
    assert(without_return(with) =~= line);
}

/// no line holds a line feed.
pub proof fn law_lines_hold_no_breaks(s: Seq<char>)
    ensures
        forall|i: int| 0 <= i < lines(s).len() ==> !(#[trigger] lines(s)[i]).contains('\n'),
    decreases s.len(),
{
    if s.len() > 0 {
        lemma_position(s, '\n');
        let p = position(s, '\n');
        let all = lines(s);
        if p < s.len() {
            law_lines_hold_no_breaks(s.skip(p + 1));
            let first = without_return(s.take(p));
            assert forall|i: int| 0 <= i < all.len() implies !(#[trigger] all[i]).contains(
                '\n',
            ) by {
                if i == 0 {
                    if first.contains('\n') {
                        let k = choose|k: int| 0 <= k < first.len() && first[k] == '\n';
                        assert(s[k] == '\n');
                    }
                } else {
                    assert(all[i] == lines(s.skip(p + 1))[i - 1]);
                }
            }
        }
    }
}

/// a text without carriage returns is its lines joined by line feeds, but for a
/// line feed at its end.
pub proof fn law_lines_rejoin(s: Seq<char>)
    requires
        !s.contains('\r'),
        s.len() > 0,
    ensures
        lines(s).len() > 0,
        s.last() != '\n' ==> join(lines(s), seq!['\n']) == s,
        s.last() == '\n' ==> join(lines(s), seq!['\n']) + seq!['\n'] == s,
    decreases s.len(),
{
    let nl = seq!['\n'];
    lemma_position(s, '\n');
    let p = position(s, '\n');
    if p < s.len() {
        let first = s.take(p);
        let rest = s.skip(p + 1);
        if p > 0 {
            assert(first.last() == s[p - 1]);
            assert(s.contains(s[p - 1]));
        }
        assert(without_return(first) == first);
        assert(s =~= first + nl + rest);
        law_join_single(first, nl);
        if rest.len() == 0 {
            assert(lines(rest) =~= Seq::empty());
            assert(lines(s) =~= seq![first]);
            assert(s.last() == '\n');
            assert(first + nl =~= s);
        } else {
            assert(!rest.contains('\r')) by {
                if rest.contains('\r') {
                    let k = choose|k: int| 0 <= k < rest.len() && rest[k] == '\r';
                    assert(s[p + 1 + k] == '\r');
                }
            }
            law_lines_rejoin(rest);
            law_join_in_pieces(seq![first], lines(rest), nl);
            assert(rest.last() == s.last());
            if s.last() == '\n' {
                assert(join(lines(s), nl) + nl =~= first + nl + (join(lines(rest), nl) + nl));
            }
        }
    } else {
        if s.last() == '\n' {
            assert(s[s.len() - 1] == '\n');
        }
        law_join_single(s, nl);
    }
}

/// escaping goes character by character: a line feed becomes a backslash and an
/// `n`, and any other character stays.
pub proof fn law_escaping(a: Seq<char>, b: Seq<char>, c: char)
    ensures
        escape_newlines(a + b) == escape_newlines(a) + escape_newlines(b),
        escape_newlines(seq!['\n']) == seq!['\\', 'n'],
        c != '\n' ==> escape_newlines(seq![c]) == seq![c],
        !a.contains('\n') ==> escape_newlines(a) == a,
        !escape_newlines(a).contains('\n'),
{
    lemma_escape_concat(a, b);
    lemma_escape_plain(a);
    reveal_with_fuel(escape_newlines, 2);
    let one = seq![c];
    assert(one.drop_last() =~= Seq::empty());
    if c != '\n' {
        assert(escape_newlines(one) =~= one);
    }
    let nl = seq!['\n'];
    assert(nl.drop_last() =~= Seq::empty());
    assert(escape_newlines(nl) =~= seq!['\\', 'n']);
}

/// escaping goes piece by piece.
proof fn lemma_escape_concat(a: Seq<char>, b: Seq<char>)
    ensures
        escape_newlines(a + b) == escape_newlines(a) + escape_newlines(b),
    decreases b.len(),
{
    if b.len() == 0 {
        assert(a + b =~= a);
        assert(escape_newlines(a) + escape_newlines(b) =~= escape_newlines(a));
    } else {
        assert((a + b).drop_last() =~= a + b.drop_last());
        lemma_escape_concat(a, b.drop_last());
        assert(escape_newlines(a + b) =~= escape_newlines(a) + escape_newlines(b));
    }
}

/// what has no line feed stays, and no line feed is left.
proof fn lemma_escape_plain(a: Seq<char>)
    ensures
        !a.contains('\n') ==> escape_newlines(a) == a,
        !escape_newlines(a).contains('\n'),
    decreases a.len(),
{
    if a.len() > 0 {
        let t = a.drop_last();
        lemma_escape_plain(t);
        assert(a =~= t.push(a.last()));
        if !a.contains('\n') {
            assert(!t.contains('\n')) by {
                if t.contains('\n') {
                    let k = choose|k: int| 0 <= k < t.len() && t[k] == '\n';
                    assert(a[k] == '\n');
                }
            }
            assert(a.contains(a.last()));
            assert(escape_newlines(a) =~= a);
        }
        let e = escape_newlines(a);
        if e.contains('\n') {
            let k = choose|k: int| 0 <= k < e.len() && e[k] == '\n';
            if k < escape_newlines(t).len() {
                assert(escape_newlines(t)[k] == '\n');
            }
        }
    }
}

/// the number that a text of decimal digits stands for.
pub open spec fn decimal_value(s: Seq<char>) -> int
    decreases s.len(),
{
    if s.len() == 0 {
        0
    } else {
        10 * decimal_value(s.drop_last()) + (s.last() as int - '0' as int)
    }
}

/// the decimal notation of a number consists of digits that stand for it, the
/// first one a zero for zero alone. so different numbers have different ones.
pub proof fn law_decimal(n: nat)
    ensures
        decimal_value(decimal(n)) == n,
        decimal(n).len() > 0,
        forall|i: int| 0 <= i < decimal(n).len() ==> '0' <= #[trigger] decimal(n)[i] <= '9',
        n > 0 ==> decimal(n)[0] != '0',
    decreases n,
{
    lemma_digit(n % 10);
    if n < 10 {
        let s = decimal(n);
        assert(s.drop_last() =~= Seq::empty());
        assert(decimal_value(s.drop_last()) == 0);
        assert(n % 10 == n);
    } else {
        law_decimal(n / 10);
        assert(decimal(n).drop_last() =~= decimal(n / 10));
    }
}

/// a decimal digit.
proof fn lemma_digit(d: nat)
    requires
        d < 10,
    ensures
        digit(d) as int == 48 + d,
{
    let b = (48 + d) as u8;
    assert(b as int == 48 + d);
}

/// filling up keeps the text in front, and adds blanks up to the width.
pub proof fn law_padding(s: Seq<char>, width: nat)
    ensures
        pad_right(s, width).take(s.len() as int) == s,
        forall|i: int| s.len() <= i < pad_right(s, width).len() ==> pad_right(s, width)[i] == ' ',
        pad_right(s, width).len() >= width,
        pad_right(s, width).len() == s.len() || pad_right(s, width).len() == width,
{
    assert(pad_right(s, width).take(s.len() as int) =~= s);
}

/// an absolute path is taken as it is; any other one is behind the base, with one
/// slash between them.
pub proof fn law_path_join(base: Seq<char>, path: Seq<char>)
    ensures
        path.len() > 0 && path[0] == '/' ==> path_join(base, path) == path,
        !(path.len() > 0 && path[0] == '/') && base.len() > 0 && base.last() != '/' ==> path_join(
            base,
            path,
        ) == base.push('/') + path,
        !(path.len() > 0 && path[0] == '/') && (base.len() == 0 || base.last() == '/')
            ==> path_join(base, path) == base + path,
{
    assert(base.push('/') =~= base + seq!['/']);
}

/// a text comes before its extensions, and otherwise the first character that
/// differs decides.
pub proof fn law_order(p: Seq<char>, a: Seq<char>, b: Seq<char>, x: char, y: char)
    requires
        x < y,
    ensures
        before(p, p.push(x) + a),
        before(p.push(x) + a, p.push(y) + b),
        !before(p.push(y) + b, p.push(x) + a),
{
    let s = p.push(x) + a;
    let t = p.push(y) + b;
    assert(smaller_at(p, s, p.len() as int));
    assert(smaller_at(s, t, p.len() as int));
    lemma_before_asymmetric(s, t);
}

/// counting goes character by character.
pub proof fn law_count(s: Seq<char>, c: char, d: char)
    ensures
        count(s.push(d), c) == count(s, c) + if c == d { 1int } else { 0 },
        count(Seq::empty(), c) == 0,
        count(s, c) == 0 <==> !s.contains(c),
{
    assert(s.push(d).drop_last() =~= s);
    lemma_count_none(s, c);
}

/// what does not stand in a text is counted zero times.
proof fn lemma_count_none(s: Seq<char>, c: char)
    ensures
        count(s, c) == 0 <==> !s.contains(c),
    decreases s.len(),
{
    if s.len() > 0 {
        let t = s.drop_last();
        lemma_count_none(t, c);
        assert(s =~= t.push(s.last()));
        if s.contains(c) {
            let k = choose|k: int| 0 <= k < s.len() && s[k] == c;
            if k < t.len() {
                assert(t[k] == c);
            }
        }
        if t.contains(c) {
            let k = choose|k: int| 0 <= k < t.len() && t[k] == c;
            assert(s[k] == c);
        }
        if s.last() == c {
            assert(s[s.len() - 1] == c);
        }
    }
}

/// what is found stands there, and nowhere before; what is not found stands
/// nowhere.
pub proof fn law_find(s: Seq<char>, pat: Seq<char>)
    ensures
        match find(s, pat) {
            Some(i) => {
                &&& 0 <= i <= s.len() - pat.len()
                &&& s.subrange(i, i + pat.len()) == pat
                &&& forall|j: int|
                    0 <= j < i ==> #[trigger] s.subrange(j, j + pat.len()) != pat
            },
            None => forall|j: int|
                0 <= j <= s.len() - pat.len() ==> #[trigger] s.subrange(j, j + pat.len()) != pat,
        },
{
    match find(s, pat) {
        Some(i) => {
            assert(first_occurrence(s, pat, i));
            assert forall|j: int| 0 <= j < i implies #[trigger] s.subrange(j, j + pat.len())
                != pat by {
                assert(!occurs(s, pat, j));
            }
        },
        None => {
            assert forall|j: int| 0 <= j <= s.len() - pat.len() implies #[trigger] s.subrange(
                j,
                j + pat.len(),
            ) != pat by {
                if s.subrange(j, j + pat.len()) == pat {
                    lemma_some_first(s, pat, j);
                }
            }
        },
    }
}

/// what stands in a text stands somewhere first.
proof fn lemma_some_first(s: Seq<char>, pat: Seq<char>, j: int)
    requires
        occurs(s, pat, j),
    ensures
        exists|i: int| first_occurrence(s, pat, i),
    decreases j,
{
    if exists|k: int| 0 <= k < j && occurs(s, pat, k) {
        let k = choose|k: int| 0 <= k < j && occurs(s, pat, k);
        lemma_some_first(s, pat, k);
    } else {
        assert(first_occurrence(s, pat, j));
    }
}

/// the contents of lists and of what may be missing are those of the strings.
pub proof fn law_contents(v: Seq<String>, i: int, o: Option<String>, p: Option<&str>)
    ensures
        texts(v).len() == v.len(),
        0 <= i < v.len() ==> texts(v)[i] == v[i]@,
        o is None <==> text_opt(o) is None,
        o is Some ==> text_opt(o) == Some(o->0@),
        p is None <==> str_opt(p) is None,
        p is Some ==> str_opt(p) == Some(p->0@),
{
}

} // verus!
