//! Character-level text utilities shared by the whole library: whitespace
//! handling as `char::is_whitespace` defines it, substring tests, splitting,
//! and the decimal reading and writing of integers.

use vstd::prelude::*;

verus! {

/// Appends one character to a `String` (`String::push`): the view grows by `c`.
#[verifier::external_body]
pub(crate) fn push_char(s: &mut String, c: char)
    ensures
        final(s)@ == old(s)@.push(c),
{
    s.push(c);
}

/// The characters of `s`, in order.
pub fn to_chars(s: &str) -> (v: Vec<char>)
    ensures
        v@ == s@,
{
    let mut v: Vec<char> = Vec::new();
    for c in it: s.chars()
        invariant
            v@ == it.seq().take(it.index()),
            it.seq() == s@,
    {
        v.push(c);
    }
    v
}

/// Appends the characters `v[from..to]` to `out`.
pub fn push_range(out: &mut String, v: &Vec<char>, from: usize, to: usize)
    requires
        from <= to <= v.len(),
    ensures
        final(out)@ == old(out)@ + v@.subrange(from as int, to as int),
{
    let mut i = from;
    while i < to
        invariant
            from <= i <= to <= v.len(),
            out@ == old(out)@ + v@.subrange(from as int, i as int),
        decreases to - i,
    {
        push_char(out, v[i]);
        i = i + 1;
        assert(v@.subrange(from as int, i as int) =~= v@.subrange(from as int, i - 1).push(v@[i - 1]));
    }
}

/// The `String` made of `v[from..to]`.
pub fn string_of(v: &Vec<char>, from: usize, to: usize) -> (s: String)
    requires
        from <= to <= v.len(),
    ensures
        s@ == v@.subrange(from as int, to as int),
{
    let mut s = String::new();
    push_range(&mut s, v, from, to);
    assert(Seq::<char>::empty() + v@.subrange(from as int, to as int) =~= v@.subrange(from as int, to as int));
    s
}

/// A fresh `String` holding the text of a literal.
pub fn lit(s: &str) -> (r: String)
    ensures
        r@ == s@,
{
    s.to_owned()
}

/// Whether two texts are equal.
pub fn same_text(a: &str, b: &str) -> (r: bool)
    ensures
        r == (a@ == b@),
{
    a.to_owned() == b.to_owned()
}

// ---------------------------------------------------------------------
// Whitespace (the White_Space property, as `char::is_whitespace` uses it)

/// `char::is_whitespace`: the characters with the Unicode White_Space property.
pub open spec fn is_ws(c: char) -> bool {
    let u = c as u32;
    ||| 0x09 <= u <= 0x0D
    ||| u == 0x20
    ||| u == 0x85
    ||| u == 0xA0
    ||| u == 0x1680
    ||| 0x2000 <= u <= 0x200A
    ||| u == 0x2028
    ||| u == 0x2029
    ||| u == 0x202F
    ||| u == 0x205F
    ||| u == 0x3000
}

pub fn is_whitespace(c: char) -> (r: bool)
    ensures
        r == is_ws(c),
{
    let u = c as u32;
    (0x09 <= u && u <= 0x0D) || u == 0x20 || u == 0x85 || u == 0xA0 || u == 0x1680
        || (0x2000 <= u && u <= 0x200A) || u == 0x2028 || u == 0x2029 || u == 0x202F
        || u == 0x205F || u == 0x3000
}

/// `s` without its leading whitespace.
pub open spec fn trim_start(s: Seq<char>) -> Seq<char>
    decreases s.len(),
{
    if s.len() > 0 && is_ws(s[0]) {
        trim_start(s.drop_first())
    } else {
        s
    }
}

/// `s` without its trailing whitespace.
pub open spec fn trim_end(s: Seq<char>) -> Seq<char>
    decreases s.len(),
{
    if s.len() > 0 && is_ws(s.last()) {
        trim_end(s.drop_last())
    } else {
        s
    }
}

/// `str::trim`: `s` without leading and trailing whitespace.
pub open spec fn trimmed(s: Seq<char>) -> Seq<char> {
    trim_end(trim_start(s))
}

pub proof fn lemma_trim_start_skip(s: Seq<char>, i: int)
    requires
        0 <= i <= s.len(),
        forall|k: int| 0 <= k < i ==> is_ws(#[trigger] s[k]),
        i == s.len() || !is_ws(s[i]),
    ensures
        trim_start(s) == s.skip(i),
    decreases i,
{
    if i == 0 {
        assert(s.skip(0) =~= s);
    } else {
        assert(is_ws(s[0]));
        let t = s.drop_first();
        assert forall|k: int| 0 <= k < i - 1 implies is_ws(#[trigger] t[k]) by {
            assert(t[k] == s[k + 1]);
        }
        if i - 1 < t.len() {
            assert(t[i - 1] == s[i]);
        }
        lemma_trim_start_skip(t, i - 1);
        assert(t.skip(i - 1) =~= s.skip(i));
    }
}

pub proof fn lemma_trim_end_take(s: Seq<char>, j: int)
    requires
        0 <= j <= s.len(),
        forall|k: int| j <= k < s.len() ==> is_ws(#[trigger] s[k]),
        j == 0 || !is_ws(s[j - 1]),
    ensures
        trim_end(s) == s.take(j),
    decreases s.len() - j,
{
    if j == s.len() {
        assert(s.take(j) =~= s);
    } else {
        assert(is_ws(s.last()));
        let t = s.drop_last();
        assert forall|k: int| j <= k < t.len() implies is_ws(#[trigger] t[k]) by {
            assert(t[k] == s[k]);
        }
        if j > 0 {
            assert(t[j - 1] == s[j - 1]);
        }
        lemma_trim_end_take(t, j);
        assert(t.take(j) =~= s.take(j));
    }
}

/// The range `[a, b)` of `v` that `trimmed(v@)` occupies.
pub fn trim_bounds(v: &Vec<char>) -> (r: (usize, usize))
    ensures
        r.0 <= r.1 <= v.len(),
        trimmed(v@) == v@.subrange(r.0 as int, r.1 as int),
{
    let n = v.len();
    let mut a: usize = 0;
    while a < n && is_whitespace(v[a])
        invariant
            a <= n == v.len(),
            forall|k: int| 0 <= k < a ==> is_ws(#[trigger] v@[k]),
        decreases n - a,
    {
        a = a + 1;
    }
    proof {
        lemma_trim_start_skip(v@, a as int);
    }
    let mut b: usize = n;
    while b > a && is_whitespace(v[b - 1])
        invariant
            a <= b <= n == v.len(),
            forall|k: int| b <= k < n ==> is_ws(#[trigger] v@[k]),
        decreases b,
    {
        b = b - 1;
    }
    proof {
        let t = v@.skip(a as int);
        let j = (b - a) as int;
        assert forall|k: int| j <= k < t.len() implies is_ws(#[trigger] t[k]) by {
            assert(t[k] == v@[k + a]);
        }
        if j > 0 {
            assert(t[j - 1] == v@[b - 1]);
        }
        lemma_trim_end_take(t, j);
        assert(t.take(j) =~= v@.subrange(a as int, b as int));
    }
    (a, b)
}

/// `str::trim`.
pub fn trim(s: &str) -> (r: String)
    ensures
        r@ == trimmed(s@),
{
    let v = to_chars(s);
    let (a, b) = trim_bounds(&v);
    string_of(&v, a, b)
}


// ---------------------------------------------------------------------
// Words (`str::split_whitespace`)

/// The first index at or after `i` that holds no whitespace (or the end).
pub open spec fn skip_ws(s: Seq<char>, i: int) -> int
    decreases s.len() - i,
{
    if 0 <= i < s.len() && is_ws(s[i]) {
        skip_ws(s, i + 1)
    } else {
        i
    }
}

/// The first index at or after `i` that holds whitespace (or the end).
pub open spec fn skip_word(s: Seq<char>, i: int) -> int
    decreases s.len() - i,
{
    if 0 <= i < s.len() && !is_ws(s[i]) {
        skip_word(s, i + 1)
    } else {
        i
    }
}

pub proof fn lemma_skip_ws_bounds(s: Seq<char>, i: int)
    requires
        0 <= i <= s.len(),
    ensures
        i <= skip_ws(s, i) <= s.len(),
        forall|k: int| i <= k < skip_ws(s, i) ==> is_ws(#[trigger] s[k]),
        skip_ws(s, i) < s.len() ==> !is_ws(s[skip_ws(s, i)]),
    decreases s.len() - i,
{
    if i < s.len() && is_ws(s[i]) {
        lemma_skip_ws_bounds(s, i + 1);
    }
}

pub proof fn lemma_skip_word_bounds(s: Seq<char>, i: int)
    requires
        0 <= i <= s.len(),
    ensures
        i <= skip_word(s, i) <= s.len(),
        forall|k: int| i <= k < skip_word(s, i) ==> !is_ws(#[trigger] s[k]),
        skip_word(s, i) < s.len() ==> is_ws(s[skip_word(s, i)]),
    decreases s.len() - i,
{
    if i < s.len() && !is_ws(s[i]) {
        lemma_skip_word_bounds(s, i + 1);
    }
}

/// The whitespace-separated words of `s` from index `i` on.
pub open spec fn words_from(s: Seq<char>, i: int) -> Seq<Seq<char>>
    decreases s.len() - i,
{
    let a = skip_ws(s, i);
    if 0 <= i && a < s.len() {
        proof {
            if i <= s.len() {
                lemma_skip_ws_bounds(s, i);
                lemma_skip_word_bounds(s, a);
            }
        }
        let b = skip_word(s, a);
        if a < b {
            seq![s.subrange(a, b)] + words_from(s, b)
        } else {
            seq![]
        }
    } else {
        seq![]
    }
}

/// `str::split_whitespace`: the maximal runs of non-whitespace characters, in order.
pub open spec fn words(s: Seq<char>) -> Seq<Seq<char>> {
    words_from(s, 0)
}

/// The words of `s`, as strings.
pub fn split_whitespace(s: &str) -> (r: Vec<String>)
    ensures
        r.deep_view() == words(s@),
{
    let v = to_chars(s);
    let n = v.len();
    let mut r: Vec<String> = Vec::new();
    let mut i: usize = 0;
    while i < n
        invariant
            i <= n == v.len(),
            v@ == s@,
            r.deep_view() + words_from(v@, i as int) == words(v@),
        decreases n - i,
    {
        let ghost i0 = i as int;
        proof {
            lemma_skip_ws_bounds(v@, i0);
        }
        let mut a = i;
        while a < n && is_whitespace(v[a])
            invariant
                i <= a <= n == v.len(),
                skip_ws(v@, a as int) == skip_ws(v@, i0),
            decreases n - a,
        {
            a = a + 1;
        }
        if a == n {
            proof {
                assert(words_from(v@, i0) =~= Seq::<Seq<char>>::empty());
                assert(r.deep_view() + words_from(v@, n as int) =~= r.deep_view());
                assert(words_from(v@, n as int) =~= Seq::<Seq<char>>::empty());
            }
            i = n;
        } else {
            proof {
                lemma_skip_word_bounds(v@, a as int);
            }
            let mut b = a;
            while b < n && !is_whitespace(v[b])
                invariant
                    a <= b <= n == v.len(),
                    skip_word(v@, b as int) == skip_word(v@, a as int),
                decreases n - b,
            {
                b = b + 1;
            }
            let w = string_of(&v, a, b);
            let ghost before = r.deep_view();
            r.push(w);
            proof {
                assert(r.deep_view() =~= before.push(v@.subrange(a as int, b as int)));
                assert(words_from(v@, i0) == seq![v@.subrange(a as int, b as int)] + words_from(v@, b as int));
                assert(r.deep_view() + words_from(v@, b as int) =~= before + words_from(v@, i0));
            }
            i = b;
        }
    }
    proof {
        assert(words_from(v@, n as int) =~= Seq::<Seq<char>>::empty());
        assert(r.deep_view() + words_from(v@, n as int) =~= r.deep_view());
    }
    r
}

// ---------------------------------------------------------------------
// Prefixes, suffixes, substrings

pub open spec fn has_prefix(s: Seq<char>, p: Seq<char>) -> bool {
    p.len() <= s.len() && s.take(p.len() as int) == p
}

pub open spec fn has_suffix(s: Seq<char>, p: Seq<char>) -> bool {
    p.len() <= s.len() && s.skip(s.len() - p.len()) == p
}

/// `p` occurs in `s` starting at index `i`.
pub open spec fn occurs_at(s: Seq<char>, p: Seq<char>, i: int) -> bool {
    0 <= i && i + p.len() <= s.len() && s.subrange(i, i + p.len()) == p
}

/// `str::contains` with a string pattern.
pub open spec fn contains_text(s: Seq<char>, p: Seq<char>) -> bool {
    exists|i: int| occurs_at(s, p, i)
}

/// Whether `v[i..]` begins with `p`.
pub fn matches_at(v: &Vec<char>, p: &Vec<char>, i: usize) -> (r: bool)
    requires
        i <= v.len(),
    ensures
        r == occurs_at(v@, p@, i as int),
{
    if p.len() > v.len() - i {
        return false;
    }
    let mut k: usize = 0;
    while k < p.len()
        invariant
            i + p.len() <= v.len(),
            k <= p.len(),
            forall|j: int| 0 <= j < k ==> v@[i + j] == p@[j],
        decreases p.len() - k,
    {
        if v[i + k] != p[k] {
            proof {
                assert(v@.subrange(i as int, i + p.len())[k as int] != p@[k as int]);
            }
            return false;
        }
        k = k + 1;
    }
    assert(v@.subrange(i as int, i + p.len()) =~= p@);
    true
}

/// `str::contains`.
pub fn contains_str(s: &str, p: &str) -> (r: bool)
    ensures
        r == contains_text(s@, p@),
{
    let v = to_chars(s);
    let q = to_chars(p);
    let mut i: usize = 0;
    while i < v.len()
        invariant
            v@ == s@,
            q@ == p@,
            i <= v.len(),
            forall|j: int| 0 <= j < i ==> !occurs_at(v@, q@, j),
        decreases v.len() - i,
    {
        if matches_at(&v, &q, i) {
            return true;
        }
        i = i + 1;
    }
    let r = matches_at(&v, &q, i);
    proof {
        if !r {
            assert forall|j: int| !occurs_at(v@, q@, j) by {
                if 0 <= j && j + q@.len() <= v@.len() && j != i {
                    assert(j < i);
                }
            }
        }
    }
    r
}

/// `str::starts_with`.
pub fn starts_with_str(s: &str, p: &str) -> (r: bool)
    ensures
        r == has_prefix(s@, p@),
{
    let v = to_chars(s);
    let q = to_chars(p);
    let r = matches_at(&v, &q, 0);
    proof {
        if q@.len() <= v@.len() {
            assert(v@.subrange(0, q@.len() as int) =~= v@.take(q@.len() as int));
        }
    }
    r
}

/// `str::ends_with`.
pub fn ends_with_str(s: &str, p: &str) -> (r: bool)
    ensures
        r == has_suffix(s@, p@),
{
    let v = to_chars(s);
    let q = to_chars(p);
    if q.len() > v.len() {
        return false;
    }
    let r = matches_at(&v, &q, v.len() - q.len());
    proof {
        assert(v@.subrange(v@.len() - q@.len(), v@.len() as int) =~= v@.skip(v@.len() - q@.len()));
    }
    r
}

// ---------------------------------------------------------------------
// Splitting at a character

/// The index of the first `c` in `s`, or `s.len()` where there is none.
pub open spec fn char_pos(s: Seq<char>, c: char) -> int
    decreases s.len(),
{
    if s.len() == 0 {
        0
    } else if s[0] == c {
        0
    } else {
        1 + char_pos(s.drop_first(), c)
    }
}

pub proof fn lemma_char_pos(s: Seq<char>, c: char)
    ensures
        0 <= char_pos(s, c) <= s.len(),
        char_pos(s, c) < s.len() ==> s[char_pos(s, c)] == c,
        forall|k: int| 0 <= k < char_pos(s, c) ==> #[trigger] s[k] != c,
    decreases s.len(),
{
    if s.len() > 0 && s[0] != c {
        lemma_char_pos(s.drop_first(), c);
        assert forall|k: int| 0 <= k < char_pos(s, c) implies #[trigger] s[k] != c by {
            if k > 0 {
                assert(s[k] == s.drop_first()[k - 1]);
            }
        }
    }
}

pub proof fn lemma_char_pos_unique(s: Seq<char>, c: char, i: int)
    requires
        0 <= i <= s.len(),
        i < s.len() ==> s[i] == c,
        forall|k: int| 0 <= k < i ==> #[trigger] s[k] != c,
    ensures
        char_pos(s, c) == i,
    decreases s.len(),
{
    if s.len() > 0 && s[0] != c {
        let t = s.drop_first();
        assert forall|k: int| 0 <= k < i - 1 implies #[trigger] t[k] != c by {
            assert(t[k] == s[k + 1]);
        }
        lemma_char_pos_unique(t, c, i - 1);
    }
}

/// The index of the first `c` in `v[from..]`, as an index of `v`, or `v.len()`.
pub fn find_char(v: &Vec<char>, from: usize, c: char) -> (r: usize)
    requires
        from <= v.len(),
    ensures
        r == from + char_pos(v@.skip(from as int), c),
        from <= r <= v.len(),
{
    let mut i = from;
    while i < v.len() && v[i] != c
        invariant
            from <= i <= v.len(),
            forall|k: int| from <= k < i ==> #[trigger] v@[k] != c,
        decreases v.len() - i,
    {
        i = i + 1;
    }
    proof {
        let t = v@.skip(from as int);
        assert forall|k: int| 0 <= k < i - from implies #[trigger] t[k] != c by {
            assert(t[k] == v@[k + from]);
        }
        lemma_char_pos_unique(t, c, i - from);
    }
    i
}

/// `str::split` at a character: the pieces between occurrences of `c`
/// (empty pieces included; one piece when `c` does not occur).
pub open spec fn split_at_char(s: Seq<char>, c: char) -> Seq<Seq<char>>
    decreases s.len(),
{
    let k = char_pos(s, c);
    if 0 <= k < s.len() {
        seq![s.take(k)] + split_at_char(s.skip(k + 1), c)
    } else {
        seq![s]
    }
}

/// `s.split(c).collect()`.
pub fn split_char(s: &str, c: char) -> (r: Vec<String>)
    ensures
        r.deep_view() == split_at_char(s@, c),
{
    let v = to_chars(s);
    let mut r: Vec<String> = Vec::new();
    let mut i: usize = 0;
    assert(v@.skip(0) =~= v@);
    assert(r.deep_view() + split_at_char(v@, c) =~= split_at_char(v@, c));
    loop
        invariant
            i <= v.len(),
            v@ == s@,
            r.deep_view() + split_at_char(v@.skip(i as int), c) == split_at_char(v@, c),
        decreases v.len() - i,
    {
        let j = find_char(&v, i, c);
        proof {
            lemma_char_pos(v@.skip(i as int), c);
        }
        let ghost t = v@.skip(i as int);
        let piece = string_of(&v, i, j);
        let ghost before = r.deep_view();
        r.push(piece);
        if j == v.len() {
            proof {
                assert(t.take(j - i) =~= t);
                assert(split_at_char(t, c) == seq![t]);
                assert(r.deep_view() =~= before + split_at_char(t, c));
                assert(v@.subrange(i as int, j as int) =~= t);
            }
            return r;
        }
        proof {
            assert(v@.subrange(i as int, j as int) =~= t.take(j - i));
            assert(t.skip(j - i + 1) =~= v@.skip(j + 1));
            assert(split_at_char(t, c) == seq![t.take(j - i)] + split_at_char(v@.skip(j + 1), c));
            assert(r.deep_view() + split_at_char(v@.skip(j + 1), c) =~= before + split_at_char(t, c));
        }
        i = j + 1;
    }
}

// ---------------------------------------------------------------------
// Removing every occurrence of a pattern (`str::replace(p, "")`)

/// `s` with every occurrence of `p` removed, found left to right without overlap.
pub open spec fn remove_all(s: Seq<char>, p: Seq<char>) -> Seq<char>
    decreases s.len(),
{
    if s.len() == 0 || p.len() == 0 {
        s
    } else if has_prefix(s, p) {
        remove_all(s.skip(p.len() as int), p)
    } else {
        seq![s[0]] + remove_all(s.drop_first(), p)
    }
}

/// `s.replace(p, "")`, for a pattern `p` that is not empty.
pub fn remove_str(s: &str, p: &str) -> (r: String)
    requires
        p@.len() > 0,
    ensures
        r@ == remove_all(s@, p@),
{
    let v = to_chars(s);
    let q = to_chars(p);
    let mut r = String::new();
    let mut i: usize = 0;
    assert(v@.skip(0) =~= v@);
    assert(r@ + remove_all(v@, q@) =~= remove_all(v@, q@));
    while i < v.len()
        invariant
            i <= v.len(),
            v@ == s@,
            q@ == p@,
            q@.len() > 0,
            r@ + remove_all(v@.skip(i as int), q@) == remove_all(v@, q@),
        decreases v.len() - i,
    {
        let ghost t = v@.skip(i as int);
        let m = matches_at(&v, &q, i);
        proof {
            if m {
                assert(t.take(q@.len() as int) =~= v@.subrange(i as int, i + q@.len()));
            } else if q@.len() <= t.len() {
                assert(t.take(q@.len() as int) =~= v@.subrange(i as int, i + q@.len()));
            }
        }
        if m {
            proof {
                assert(t.skip(q@.len() as int) =~= v@.skip(i + q@.len()));
            }
            i = i + q.len();
        } else {
            let ghost before = r@;
            push_char(&mut r, v[i]);
            proof {
                assert(t.drop_first() =~= v@.skip(i + 1));
                assert(t[0] == v@[i as int]);
                assert(r@ + remove_all(v@.skip(i + 1), q@) =~= before + (seq![t[0]] + remove_all(t.drop_first(), q@)));
            }
            i = i + 1;
        }
    }
    proof {
        assert(v@.skip(i as int) =~= Seq::<char>::empty());
        assert(r@ + Seq::<char>::empty() =~= r@);
    }
    r
}


/// `char::is_ascii_digit`.
pub fn is_digit_char(c: char) -> (r: bool)
    ensures
        r == ('0' <= c <= '9'),
{
    '0' <= c && c <= '9'
}


// ---------------------------------------------------------------------
// Joining

/// The texts with `sep` between each two, as `[..].join(sep)` gives them.
pub open spec fn joined(parts: Seq<Seq<char>>, sep: Seq<char>) -> Seq<char>
    decreases parts.len(),
{
    if parts.len() == 0 {
        seq![]
    } else if parts.len() == 1 {
        parts[0]
    } else {
        joined(parts.drop_last(), sep) + sep + parts.last()
    }
}

/// `parts.join(sep)`.
pub fn join_texts(parts: &Vec<String>, sep: &str) -> (r: String)
    ensures
        r@ == joined(parts.deep_view(), sep@),
{
    let mut r = String::new();
    let mut i: usize = 0;
    while i < parts.len()
        invariant
            i <= parts.len(),
            r@ == joined(parts.deep_view().take(i as int), sep@),
        decreases parts.len() - i,
    {
        let ghost all = parts.deep_view();
        proof {
            assert(all.take(i + 1).drop_last() =~= all.take(i as int));
            assert(all.take(i + 1).last() == all[i as int]);
        }
        if i > 0 {
            r.append(sep);
        } else {
            assert(r@ + all[0] =~= all[0]);
        }
        r.append(parts[i].as_str());
        i = i + 1;
    }
    assert(parts.deep_view().take(i as int) =~= parts.deep_view());
    r
}


// ---------------------------------------------------------------------
// Laws of words and trimming

proof fn lemma_filter_none(x: Seq<char>, pred: spec_fn(char) -> bool)
    requires
        forall|k: int| 0 <= k < x.len() ==> !pred(#[trigger] x[k]),
    ensures
        x.filter(pred) == Seq::<char>::empty(),
    decreases x.len(),
{
    reveal(Seq::filter);
    if x.len() > 0 {
        let t = x.drop_last();
        assert forall|k: int| 0 <= k < t.len() implies !pred(#[trigger] t[k]) by {
            assert(t[k] == x[k]);
        }
        lemma_filter_none(t, pred);
        assert(!pred(x[x.len() - 1]));
    }
}

proof fn lemma_filter_all(x: Seq<char>, pred: spec_fn(char) -> bool)
    requires
        forall|k: int| 0 <= k < x.len() ==> pred(#[trigger] x[k]),
    ensures
        x.filter(pred) == x,
    decreases x.len(),
{
    reveal(Seq::filter);
    if x.len() > 0 {
        let t = x.drop_last();
        assert forall|k: int| 0 <= k < t.len() implies pred(#[trigger] t[k]) by {
            assert(t[k] == x[k]);
        }
        lemma_filter_all(t, pred);
        assert(pred(x[x.len() - 1]));
        assert(t.push(x.last()) =~= x);
    }
}

/// The words of `s` from index `i` on are not empty and hold no
/// whitespace, and together they are exactly the characters of `s[i..]`
/// that are not whitespace, in order.
pub proof fn law_words_from(s: Seq<char>, i: int)
    requires
        0 <= i <= s.len(),
    ensures
        forall|k: int| 0 <= k < words_from(s, i).len() ==> (#[trigger] words_from(s, i)[k]).len() > 0,
        forall|k: int, j: int| 0 <= k < words_from(s, i).len() && 0 <= j < words_from(s, i)[k].len()
            ==> !is_ws(#[trigger] words_from(s, i)[k][j]),
        words_from(s, i).flatten() == s.skip(i).filter(|c: char| !is_ws(c)),
    decreases s.len() - i,
{
    let pred = |c: char| !is_ws(c);
    lemma_skip_ws_bounds(s, i);
    let a = skip_ws(s, i);
    let lead = s.subrange(i, a);
    assert forall|k: int| 0 <= k < lead.len() implies !pred(#[trigger] lead[k]) by {
        assert(lead[k] == s[i + k]);
    }
    lemma_filter_none(lead, pred);
    if a < s.len() {
        lemma_skip_word_bounds(s, a);
        let b = skip_word(s, a);
        let w = s.subrange(a, b);
        law_words_from(s, b);
        assert forall|k: int| 0 <= k < w.len() implies pred(#[trigger] w[k]) by {
            assert(w[k] == s[a + k]);
        }
        lemma_filter_all(w, pred);
        let ws = words_from(s, i);
        let rest = words_from(s, b);
        assert(ws == seq![w] + rest);
        assert(s.skip(i) =~= lead + w + s.skip(b));
        Seq::filter_distributes_over_add(lead + w, s.skip(b), pred);
        Seq::filter_distributes_over_add(lead, w, pred);
        assert(ws.drop_first() =~= rest);
        assert(ws.first() == w);
        assert(ws.flatten() == w + rest.flatten());
        assert(lead.filter(pred) + w =~= w);
        assert forall|k: int| 0 <= k < ws.len() implies (#[trigger] ws[k]).len() > 0 by {
            if k > 0 {
                assert(ws[k] == rest[k - 1]);
            }
        }
        assert forall|k: int, j: int| 0 <= k < ws.len() && 0 <= j < ws[k].len() implies !is_ws(#[trigger] ws[k][j]) by {
            if k > 0 {
                assert(ws[k] == rest[k - 1]);
            } else {
                assert(ws[0][j] == s[a + j]);
            }
        }
    } else {
        assert(s.skip(i) =~= lead);
        assert(words_from(s, i) == Seq::<Seq<char>>::empty());
    }
}

/// The words of `s`: none empty, none holding whitespace, and together
/// exactly the characters of `s` that are not whitespace, in order.
pub proof fn law_words(s: Seq<char>)
    ensures
        forall|k: int| 0 <= k < words(s).len() ==> (#[trigger] words(s)[k]).len() > 0,
        forall|k: int, j: int| 0 <= k < words(s).len() && 0 <= j < words(s)[k].len()
            ==> !is_ws(#[trigger] words(s)[k][j]),
        words(s).flatten() == s.filter(|c: char| !is_ws(c)),
{
    law_words_from(s, 0);
    assert(s.skip(0) =~= s);
}


proof fn lemma_trim_end_prefix(t: Seq<char>)
    ensures
        trim_end(t).len() <= t.len(),
        trim_end(t) == t.take(trim_end(t).len() as int),
        forall|k: int| trim_end(t).len() <= k < t.len() ==> is_ws(#[trigger] t[k]),
        trim_end(t).len() > 0 ==> !is_ws(t[trim_end(t).len() - 1]),
    decreases t.len(),
{
    if t.len() > 0 && is_ws(t.last()) {
        let u = t.drop_last();
        lemma_trim_end_prefix(u);
        let j = trim_end(u).len();
        assert(u.take(j as int) =~= t.take(j as int));
        assert forall|k: int| j <= k < t.len() implies is_ws(#[trigger] t[k]) by {
            if k < u.len() {
                assert(u[k] == t[k]);
            }
        }
        if j > 0 {
            assert(u[j - 1] == t[j - 1]);
        }
    } else {
        assert(t.take(t.len() as int) =~= t);
    }
}

/// `trimmed(s)` is the part of `s` between its leading and its trailing
/// whitespace: it starts and ends with no whitespace, and everything of
/// `s` before and after it is whitespace.
pub proof fn law_trimmed(s: Seq<char>)
    ensures
        trimmed(s).len() > 0 ==> !is_ws(trimmed(s)[0]) && !is_ws(trimmed(s).last()),
        exists|a: int| 0 <= a && a + trimmed(s).len() <= s.len()
            && #[trigger] s.subrange(a, a + trimmed(s).len()) == trimmed(s)
            && (forall|k: int| 0 <= k < a ==> is_ws(#[trigger] s[k]))
            && (forall|k: int| a + trimmed(s).len() <= k < s.len() ==> is_ws(#[trigger] s[k])),
{
    lemma_skip_ws_bounds(s, 0);
    let a = skip_ws(s, 0);
    lemma_trim_start_skip(s, a);
    let t = s.skip(a);
    lemma_trim_end_prefix(t);
    let r = trimmed(s);
    let n = r.len();
    assert(r == t.take(n as int));
    assert(s.subrange(a, a + n) =~= r);
    assert forall|k: int| a + n <= k < s.len() implies is_ws(#[trigger] s[k]) by {
        assert(t[k - a] == s[k]);
    }
    if n > 0 {
        assert(r[0] == s[a]);
        assert(r.last() == t[n - 1]);
    }
}


proof fn lemma_joined_front(x: Seq<char>, rest: Seq<Seq<char>>, sep: Seq<char>)
    requires
        rest.len() > 0,
    ensures
        joined(seq![x] + rest, sep) == x + sep + joined(rest, sep),
    decreases rest.len(),
{
    let all = seq![x] + rest;
    if rest.len() == 1 {
        assert(all.drop_last() =~= seq![x]);
        assert(all.last() == rest[0]);
        assert(joined(seq![x], sep) == x);
    } else {
        lemma_joined_front(x, rest.drop_last(), sep);
        assert(all.drop_last() =~= seq![x] + rest.drop_last());
        assert(all.last() == rest.last());
        assert(x + sep + joined(rest.drop_last(), sep) + sep + rest.last() =~= x + sep + (joined(rest.drop_last(), sep) + sep + rest.last()));
    }
}

/// Splitting at `c`: there is at least one part, no part holds `c`,
/// and joining the parts with `c` gives `s` back.
pub proof fn law_split_at_char(s: Seq<char>, c: char)
    ensures
        split_at_char(s, c).len() >= 1,
        forall|k: int, j: int| 0 <= k < split_at_char(s, c).len() && 0 <= j < split_at_char(s, c)[k].len()
            ==> #[trigger] split_at_char(s, c)[k][j] != c,
        joined(split_at_char(s, c), seq![c]) == s,
    decreases s.len(),
{
    lemma_char_pos(s, c);
    let k0 = char_pos(s, c);
    let parts = split_at_char(s, c);
    if 0 <= k0 < s.len() {
        let rest = split_at_char(s.skip(k0 + 1), c);
        law_split_at_char(s.skip(k0 + 1), c);
        assert(parts == seq![s.take(k0)] + rest);
        lemma_joined_front(s.take(k0), rest, seq![c]);
        assert(s =~= s.take(k0) + seq![c] + s.skip(k0 + 1));
        assert forall|k: int, j: int| 0 <= k < parts.len() && 0 <= j < parts[k].len() implies #[trigger] parts[k][j] != c by {
            if k > 0 {
                assert(parts[k] == rest[k - 1]);
            } else {
                assert(parts[0][j] == s[j]);
            }
        }
    } else {
        assert(parts == seq![s]);
        assert(joined(parts, seq![c]) == s);
        assert forall|k: int, j: int| 0 <= k < parts.len() && 0 <= j < parts[k].len() implies #[trigger] parts[k][j] != c by {
            assert(parts[k] == s);
        }
    }
}

} // verus!
