//! Character-level text utilities with exact specifications.
//!
//! Strings are handled as sequences of `char`s (the view of `String` and
//! `&str`); every function here states its result over those sequences.

use vstd::prelude::*;

verus! {

/// Appends one character to a `String` (std's `String::push`).
/// Trusted: the new contents are the old contents followed by `c`.
#[verifier::external_body]
pub(crate) fn push_char(s: &mut String, c: char)
    ensures
        final(s)@ == old(s)@.push(c),
{
    s.push(c);
}

/// The characters of a string slice, in order.
pub fn chars_of(s: &str) -> (res: Vec<char>)
    ensures
        res@ == s@,
{
    let mut res: Vec<char> = Vec::new();
    for c in it: s.chars()
        invariant
            res@ == it.seq().take(it.index() as int),
            it.seq() == s@,
    {
        res.push(c);
    }
    res
}

/// A `String` holding exactly the given characters.
pub fn string_from_chars(v: &Vec<char>) -> (res: String)
    ensures
        res@ == v@,
{
    let mut res = String::new();
    let mut i: usize = 0;
    while i < v.len()
        invariant
            i <= v.len(),
            res@ == v@.take(i as int),
        decreases v.len() - i,
    {
        push_char(&mut res, v[i]);
        assert(v@.take(i as int).push(v@[i as int]) =~= v@.take(i + 1));
        i += 1;
    }
    assert(v@.take(v.len() as int) =~= v@);
    res
}

/// A `String` holding the characters of a string slice.
pub fn owned(s: &str) -> (res: String)
    ensures
        res@ == s@,
{
    let v = chars_of(s);
    string_from_chars(&v)
}

/// The characters `v[from..to]`.
pub fn copy_range(v: &Vec<char>, from: usize, to: usize) -> (res: Vec<char>)
    requires
        from <= to <= v.len(),
    ensures
        res@ == v@.subrange(from as int, to as int),
{
    let mut res: Vec<char> = Vec::new();
    let mut i: usize = from;
    while i < to
        invariant
            from <= i <= to <= v.len(),
            res@ == v@.subrange(from as int, i as int),
        decreases to - i,
    {
        res.push(v[i]);
        assert(v@.subrange(from as int, i as int).push(v@[i as int]) =~= v@.subrange(
            from as int,
            i + 1,
        ));
        i += 1;
    }
    res
}

/// `a` followed by `b`.
pub fn concat_chars(a: &Vec<char>, b: &Vec<char>) -> (res: Vec<char>)
    ensures
        res@ == a@ + b@,
{
    let mut res = copy_range(a, 0, a.len());
    let mut i: usize = 0;
    assert(a@.subrange(0, a@.len() as int) =~= a@);
    while i < b.len()
        invariant
            i <= b.len(),
            res@ == a@ + b@.take(i as int),
        decreases b.len() - i,
    {
        res.push(b[i]);
        assert(a@ + b@.take(i as int).push(b@[i as int]) =~= a@ + b@.take(i + 1));
        i += 1;
    }
    assert(b@.take(b.len() as int) =~= b@);
    res
}

/// Whether two character sequences are equal.
pub fn chars_eq(a: &Vec<char>, b: &Vec<char>) -> (res: bool)
    ensures
        res == (a@ == b@),
{
    if a.len() != b.len() {
        return false;
    }
    let mut i: usize = 0;
    while i < a.len()
        invariant
            i <= a.len() == b.len(),
            a@.take(i as int) == b@.take(i as int),
        decreases a.len() - i,
    {
        if a[i] != b[i] {
            assert(a@[i as int] != b@[i as int]);
            return false;
        }
        assert(a@.take(i + 1) =~= a@.take(i as int).push(a@[i as int]));
        assert(b@.take(i + 1) =~= b@.take(i as int).push(b@[i as int]));
        i += 1;
    }
    assert(a@.take(a.len() as int) =~= a@);
    assert(b@.take(b.len() as int) =~= b@);
    true
}

// ------------------------------------------------------------------
// Whitespace and trimming
// ------------------------------------------------------------------

/// The characters with the Unicode `White_Space` property, which is what
/// `char::is_whitespace` tests.
pub open spec fn is_ws(c: char) -> bool {
    let v = c as u32;
    ||| 0x09 <= v <= 0x0D
    ||| v == 0x20
    ||| v == 0x85
    ||| v == 0xA0
    ||| v == 0x1680
    ||| 0x2000 <= v <= 0x200A
    ||| v == 0x2028
    ||| v == 0x2029
    ||| v == 0x202F
    ||| v == 0x205F
    ||| v == 0x3000
}

/// Whether `c` is a whitespace character.
pub fn is_whitespace(c: char) -> (res: bool)
    ensures
        res == is_ws(c),
{
    let v = c as u32;
    (0x09 <= v && v <= 0x0D) || v == 0x20 || v == 0x85 || v == 0xA0 || v == 0x1680 || (0x2000
        <= v && v <= 0x200A) || v == 0x2028 || v == 0x2029 || v == 0x202F || v == 0x205F || v
        == 0x3000
}

/// `s` without its leading whitespace.
pub open spec fn trim_start(s: Seq<char>) -> Seq<char>
    decreases s.len(),
{
    if s.len() > 0 && is_ws(s[0]) {
        trim_start(s.drop_first())
    } else {
        s
    }
}

/// `s` without its trailing whitespace.
pub open spec fn trim_end(s: Seq<char>) -> Seq<char>
    decreases s.len(),
{
    if s.len() > 0 && is_ws(s.last()) {
        trim_end(s.drop_last())
    } else {
        s
    }
}

/// Trimming the start keeps only characters of `s`.
pub proof fn lemma_trim_start_within(s: Seq<char>, c: char)
    ensures
        trim_start(s).contains(c) ==> s.contains(c),
    decreases s.len(),
{
    if s.len() > 0 && is_ws(s[0]) {
        lemma_trim_start_within(s.drop_first(), c);
        if trim_start(s).contains(c) {
            let k = choose|k: int| 0 <= k < s.drop_first().len() && s.drop_first()[k] == c;
            assert(s[k + 1] == c);
        }
    }
}

/// Trimming the end keeps only characters of `s`.
pub proof fn lemma_trim_end_within(s: Seq<char>, c: char)
    ensures
        trim_end(s).contains(c) ==> s.contains(c),
    decreases s.len(),
{
    if s.len() > 0 && is_ws(s.last()) {
        lemma_trim_end_within(s.drop_last(), c);
        if trim_end(s).contains(c) {
            let k = choose|k: int| 0 <= k < s.drop_last().len() && s.drop_last()[k] == c;
            assert(s[k] == c);
        }
    }
}

/// After trimming the start, the text is empty or starts with a non-space.
pub proof fn lemma_trim_start_starts(s: Seq<char>)
    ensures
        trim_start(s).len() > 0 ==> !is_ws(trim_start(s)[0]),
    decreases s.len(),
{
    if s.len() > 0 && is_ws(s[0]) {
        lemma_trim_start_starts(s.drop_first());
    }
}

/// After trimming the end, the text is empty or ends with a non-space, and
/// it begins as `s` does.
pub proof fn lemma_trim_end_ends(s: Seq<char>)
    ensures
        trim_end(s).len() > 0 ==> !is_ws(trim_end(s).last()),
        trim_end(s).len() > 0 ==> trim_end(s)[0] == s[0],
    decreases s.len(),
{
    if s.len() > 0 && is_ws(s.last()) {
        lemma_trim_end_ends(s.drop_last());
    }
}

/// Trimming trimmed text changes nothing.
pub proof fn lemma_trim_twice(s: Seq<char>)
    ensures
        trim_seq(trim_seq(s)) == trim_seq(s),
{
    let a = trim_start(s);
    let r = trim_end(a);
    lemma_trim_start_starts(s);
    lemma_trim_end_ends(a);
    assert(trim_start(r) == r);
    assert(trim_end(r) == r);
}

/// `s` without leading and trailing whitespace (what `str::trim` gives).
pub open spec fn trim_seq(s: Seq<char>) -> Seq<char> {
    trim_end(trim_start(s))
}

proof fn lemma_trim_start_skip(s: Seq<char>, i: int)
    requires
        0 <= i <= s.len(),
        forall|k: int| 0 <= k < i ==> is_ws(#[trigger] s[k]),
    ensures
        trim_start(s) == trim_start(s.skip(i)),
    decreases i,
{
    if i > 0 {
        assert(s.drop_first().skip(i - 1) =~= s.skip(i));
        lemma_trim_start_skip(s.drop_first(), i - 1);
    } else {
        assert(s.skip(0) =~= s);
    }
}

proof fn lemma_trim_end_take(s: Seq<char>, j: int)
    requires
        0 <= j <= s.len(),
        forall|k: int| j <= k < s.len() ==> is_ws(#[trigger] s[k]),
    ensures
        trim_end(s) == trim_end(s.take(j)),
    decreases s.len() - j,
{
    if j < s.len() {
        assert(s.drop_last().take(j) =~= s.take(j));
        lemma_trim_end_take(s.drop_last(), j);
    } else {
        assert(s.take(j) =~= s);
    }
}

/// The characters of `v` without leading and trailing whitespace.
pub fn trim_chars(v: &Vec<char>) -> (res: Vec<char>)
    ensures
        res@ == trim_seq(v@),
{
    let mut a: usize = 0;
    while a < v.len() && is_whitespace(v[a])
        invariant
            a <= v.len(),
            forall|k: int| 0 <= k < a ==> is_ws(#[trigger] v@[k]),
        decreases v.len() - a,
    {
        a += 1;
    }
    proof {
        lemma_trim_start_skip(v@, a as int);
    }
    let ghost rest = v@.skip(a as int);
    assert(trim_start(rest) == rest);
    let mut b: usize = v.len();
    while b > a && is_whitespace(v[b - 1])
        invariant
            a <= b <= v.len(),
            forall|k: int| b <= k < v.len() ==> is_ws(#[trigger] v@[k]),
        decreases b,
    {
        b -= 1;
    }
    proof {
        assert forall|k: int| b - a <= k < rest.len() implies is_ws(#[trigger] rest[k]) by {
            assert(rest[k] == v@[k + a]);
        }
        lemma_trim_end_take(rest, b - a);
        let t = rest.take(b - a);
        assert(t =~= v@.subrange(a as int, b as int));
        if t.len() > 0 {
            assert(t.last() == v@[b - 1]);
        }
    }
    copy_range(v, a, b)
}

/// `s` without leading and trailing whitespace (`str::trim`).
pub fn trim(s: &str) -> (res: String)
    ensures
        res@ == trim_seq(s@),
{
    let v = chars_of(s);
    let t = trim_chars(&v);
    string_from_chars(&t)
}

// ------------------------------------------------------------------
// Searching
// ------------------------------------------------------------------

/// `p` occurs in `s` starting at index `i`.
pub open spec fn occurs_at(s: Seq<char>, p: Seq<char>, i: int) -> bool {
    0 <= i && i + p.len() <= s.len() && s.subrange(i, i + p.len()) == p
}

/// `p` occurs somewhere in `s` (`str::contains`).
pub open spec fn contains_seq(s: Seq<char>, p: Seq<char>) -> bool {
    exists|i: int| occurs_at(s, p, i)
}

/// `s` begins with `p` (`str::starts_with`).
pub open spec fn starts_with_seq(s: Seq<char>, p: Seq<char>) -> bool {
    occurs_at(s, p, 0)
}

/// Whether `p` occurs in `s` at index `i`.
pub fn matches_at(s: &Vec<char>, p: &Vec<char>, i: usize) -> (res: bool)
    ensures
        res == occurs_at(s@, p@, i as int),
{
    if i > s.len() || p.len() > s.len() - i {
        return false;
    }
    let mut k: usize = 0;
    while k < p.len()
        invariant
            i + p.len() <= s.len(),
            k <= p.len(),
            forall|m: int| 0 <= m < k ==> s@[i + m] == p@[m],
        decreases p.len() - k,
    {
        if s[i + k] != p[k] {
            assert(s@.subrange(i as int, i + p.len())[k as int] != p@[k as int]);
            return false;
        }
        k += 1;
    }
    assert(s@.subrange(i as int, i + p.len()) =~= p@);
    true
}

/// The first index at which `p` occurs in `s` (`str::find`), counted in characters.
pub fn find_first(s: &Vec<char>, p: &Vec<char>) -> (res: Option<usize>)
    ensures
        match res {
            Some(i) => occurs_at(s@, p@, i as int) && forall|j: int|
                0 <= j < i ==> !occurs_at(s@, p@, j),
            None => !contains_seq(s@, p@),
        },
{
    let mut i: usize = 0;
    while i < s.len()
        invariant
            i <= s.len(),
            forall|j: int| 0 <= j < i ==> !occurs_at(s@, p@, j),
        decreases s.len() - i,
    {
        if matches_at(s, p, i) {
            return Some(i);
        }
        i += 1;
    }
    if matches_at(s, p, i) {
        return Some(i);
    }
    i = s.len();
    assert forall|j: int| 0 <= j <= i implies !occurs_at(s@, p@, j) by {}
    assert forall|j: int| !occurs_at(s@, p@, j) by {
        if 0 <= j && j <= i {
        }
    }
    None
}

/// Whether `p` occurs in `s`.
pub fn contains(s: &Vec<char>, p: &Vec<char>) -> (res: bool)
    ensures
        res == contains_seq(s@, p@),
{
    match find_first(s, p) {
        Some(_) => true,
        None => false,
    }
}

/// Whether `s` begins with `p`.
pub fn starts_with(s: &Vec<char>, p: &Vec<char>) -> (res: bool)
    ensures
        res == starts_with_seq(s@, p@),
{
    matches_at(s, p, 0)
}

/// The first index of character `c` in `s`.
pub open spec fn first_index_of(s: Seq<char>, c: char) -> Option<int> {
    if exists|i: int| 0 <= i < s.len() && s[i] == c {
        let i = choose|i: int| 0 <= i < s.len() && s[i] == c && forall|j: int| 0 <= j < i ==> s[j] != c;
        Some(i)
    } else {
        None
    }
}

proof fn lemma_first_index_exists(s: Seq<char>, c: char, i: int)
    requires
        0 <= i < s.len(),
        s[i] == c,
    ensures
        exists|k: int| 0 <= k < s.len() && s[k] == c && forall|j: int| 0 <= j < k ==> s[j] != c,
    decreases i,
{
    if exists|j: int| 0 <= j < i && s[j] == c {
        let j = choose|j: int| 0 <= j < i && s[j] == c;
        lemma_first_index_exists(s, c, j);
    }
}

/// The first index of `c` in `v`, if any.
pub fn index_of(v: &Vec<char>, c: char) -> (res: Option<usize>)
    ensures
        match res {
            Some(i) => first_index_of(v@, c) == Some(i as int) && i < v.len() && v@[i as int] == c,
            None => first_index_of(v@, c) is None,
        },
{
    let mut i: usize = 0;
    while i < v.len()
        invariant
            i <= v.len(),
            forall|j: int| 0 <= j < i ==> v@[j] != c,
        decreases v.len() - i,
    {
        if v[i] == c {
            proof {
                lemma_first_index_exists(v@, c, i as int);
                let k = choose|k: int|
                    0 <= k < v@.len() && v@[k] == c && forall|j: int| 0 <= j < k ==> v@[j] != c;
                assert(k == i);
            }
            return Some(i);
        }
        i += 1;
    }
    None
}

// ------------------------------------------------------------------
// Rewriting
// ------------------------------------------------------------------

/// `s` with every non-overlapping occurrence of the nonempty pattern `p`,
/// scanned from the left, replaced by `r` (`str::replace`).
pub open spec fn replace_seq(s: Seq<char>, p: Seq<char>, r: Seq<char>) -> Seq<char>
    decreases s.len(),
{
    if s.len() == 0 || p.len() == 0 {
        s
    } else if occurs_at(s, p, 0) {
        r + replace_seq(s.skip(p.len() as int), p, r)
    } else {
        seq![s[0]] + replace_seq(s.drop_first(), p, r)
    }
}

/// Replaces every occurrence of the nonempty pattern `p` in `s` by `r`.
pub fn replace_all(s: &Vec<char>, p: &Vec<char>, r: &Vec<char>) -> (res: Vec<char>)
    requires
        p.len() > 0,
    ensures
        res@ == replace_seq(s@, p@, r@),
{
    let mut out: Vec<char> = Vec::new();
    let mut i: usize = 0;
    assert(s@.skip(0) =~= s@);
    while i < s.len()
        invariant
            i <= s.len(),
            p.len() > 0,
            out@ + replace_seq(s@.skip(i as int), p@, r@) == replace_seq(s@, p@, r@),
        decreases s.len() - i,
    {
        let ghost rest = s@.skip(i as int);
        if matches_at(s, p, i) {
            assert(occurs_at(rest, p@, 0)) by {
                assert(rest.subrange(0, p@.len() as int) =~= s@.subrange(i as int, i + p@.len()));
            }
            assert(rest.skip(p@.len() as int) =~= s@.skip(i + p@.len()));
            let ghost old_out = out@;
            let mut k: usize = 0;
            while k < r.len()
                invariant
                    k <= r.len(),
                    out@ == old_out + r@.take(k as int),
                decreases r.len() - k,
            {
                out.push(r[k]);
                assert(old_out + r@.take(k as int).push(r@[k as int]) =~= old_out + r@.take(
                    k + 1,
                ));
                k += 1;
            }
            assert(r@.take(r.len() as int) =~= r@);
            assert(old_out + (r@ + replace_seq(rest.skip(p@.len() as int), p@, r@)) =~= out@
                + replace_seq(s@.skip(i + p@.len()), p@, r@));
            i += p.len();
        } else {
            assert(!occurs_at(rest, p@, 0)) by {
                if occurs_at(rest, p@, 0) {
                    assert(rest.subrange(0, p@.len() as int) =~= s@.subrange(
                        i as int,
                        i + p@.len(),
                    ));
                }
            }
            assert(rest.drop_first() =~= s@.skip(i + 1));
            assert(rest[0] == s@[i as int]);
            let ghost old_out = out@;
            out.push(s[i]);
            assert(old_out + (seq![s@[i as int]] + replace_seq(s@.skip(i + 1), p@, r@)) =~= out@
                + replace_seq(s@.skip(i + 1), p@, r@));
            i += 1;
        }
    }
    assert(s@.skip(i as int).len() == 0);
    assert(out@ + s@.skip(i as int) =~= out@);
    out
}

/// `s` with every occurrence of character `from` replaced by `to`.
pub open spec fn map_char(s: Seq<char>, from: char, to: char) -> Seq<char> {
    s.map_values(|c: char| if c == from { to } else { c })
}

/// Replaces every occurrence of `from` by `to` (`str::replace` with a `char` pattern
/// and a one-character replacement).
pub fn replace_char(v: &Vec<char>, from: char, to: char) -> (res: Vec<char>)
    ensures
        res@ == map_char(v@, from, to),
{
    let mut out: Vec<char> = Vec::new();
    let mut i: usize = 0;
    while i < v.len()
        invariant
            i <= v.len(),
            out@ == map_char(v@.take(i as int), from, to),
        decreases v.len() - i,
    {
        if v[i] == from {
            out.push(to);
        } else {
            out.push(v[i]);
        }
        assert(map_char(v@.take(i + 1), from, to) =~= map_char(v@.take(i as int), from, to).push(
            if v@[i as int] == from {
                to
            } else {
                v@[i as int]
            },
        ));
        i += 1;
    }
    assert(v@.take(v.len() as int) =~= v@);
    out
}

/// `s` without leading copies of `c`.
pub open spec fn strip_start_char(s: Seq<char>, c: char) -> Seq<char>
    decreases s.len(),
{
    if s.len() > 0 && s[0] == c {
        strip_start_char(s.drop_first(), c)
    } else {
        s
    }
}

/// `s` without trailing copies of `c`.
pub open spec fn strip_end_char(s: Seq<char>, c: char) -> Seq<char>
    decreases s.len(),
{
    if s.len() > 0 && s.last() == c {
        strip_end_char(s.drop_last(), c)
    } else {
        s
    }
}

/// `s` without leading and trailing copies of `c` (`str::trim_matches` with a `char`).
pub open spec fn trim_char_seq(s: Seq<char>, c: char) -> Seq<char> {
    strip_end_char(strip_start_char(s, c), c)
}

proof fn lemma_strip_start_skip(s: Seq<char>, c: char, i: int)
    requires
        0 <= i <= s.len(),
        forall|k: int| 0 <= k < i ==> #[trigger] s[k] == c,
    ensures
        strip_start_char(s, c) == strip_start_char(s.skip(i), c),
    decreases i,
{
    if i > 0 {
        assert(s.drop_first().skip(i - 1) =~= s.skip(i));
        lemma_strip_start_skip(s.drop_first(), c, i - 1);
    } else {
        assert(s.skip(0) =~= s);
    }
}

proof fn lemma_strip_end_take(s: Seq<char>, c: char, j: int)
    requires
        0 <= j <= s.len(),
        forall|k: int| j <= k < s.len() ==> #[trigger] s[k] == c,
    ensures
        strip_end_char(s, c) == strip_end_char(s.take(j), c),
    decreases s.len() - j,
{
    if j < s.len() {
        assert(s.drop_last().take(j) =~= s.take(j));
        lemma_strip_end_take(s.drop_last(), c, j);
    } else {
        assert(s.take(j) =~= s);
    }
}

/// The characters of `v` without leading and trailing copies of `c`.
pub fn trim_char(v: &Vec<char>, c: char) -> (res: Vec<char>)
    ensures
        res@ == trim_char_seq(v@, c),
{
    let mut a: usize = 0;
    while a < v.len() && v[a] == c
        invariant
            a <= v.len(),
            forall|k: int| 0 <= k < a ==> #[trigger] v@[k] == c,
        decreases v.len() - a,
    {
        a += 1;
    }
    proof {
        lemma_strip_start_skip(v@, c, a as int);
    }
    let ghost rest = v@.skip(a as int);
    assert(strip_start_char(rest, c) == rest);
    let mut b: usize = v.len();
    while b > a && v[b - 1] == c
        invariant
            a <= b <= v.len(),
            forall|k: int| b <= k < v.len() ==> #[trigger] v@[k] == c,
        decreases b,
    {
        b -= 1;
    }
    proof {
        assert forall|k: int| b - a <= k < rest.len() implies #[trigger] rest[k] == c by {
            assert(rest[k] == v@[k + a]);
        }
        lemma_strip_end_take(rest, c, b - a);
        let t = rest.take(b - a);
        assert(t =~= v@.subrange(a as int, b as int));
        if t.len() > 0 {
            assert(t.last() == v@[b - 1]);
        }
    }
    copy_range(v, a, b)
}

// ------------------------------------------------------------------
// Words
// ------------------------------------------------------------------

/// The views of a sequence of character vectors.
pub open spec fn seqs_of(v: Seq<Vec<char>>) -> Seq<Seq<char>> {
    v.map_values(|w: Vec<char>| w@)
}

/// The words of `s` (maximal runs of non-whitespace characters), given that
/// `cur` is the part of a word already read.
pub open spec fn words_from(s: Seq<char>, cur: Seq<char>) -> Seq<Seq<char>>
    decreases s.len(),
{
    if s.len() == 0 {
        if cur.len() > 0 {
            seq![cur]
        } else {
            seq![]
        }
    } else if is_ws(s[0]) {
        (if cur.len() > 0 {
            seq![cur]
        } else {
            seq![]
        }) + words_from(s.drop_first(), seq![])
    } else {
        words_from(s.drop_first(), cur.push(s[0]))
    }
}

/// The words of `s`, as `str::split_whitespace` yields them.
pub open spec fn split_ws(s: Seq<char>) -> Seq<Seq<char>> {
    words_from(s, seq![])
}

/// Splits `v` into its whitespace-separated words.
pub fn split_whitespace(v: &Vec<char>) -> (res: Vec<Vec<char>>)
    ensures
        seqs_of(res@) == split_ws(v@),
{
    let mut out: Vec<Vec<char>> = Vec::new();
    let mut cur: Vec<char> = Vec::new();
    let mut i: usize = 0;
    assert(v@.skip(0) =~= v@);
    assert(seqs_of(out@) =~= Seq::<Seq<char>>::empty());
    while i < v.len()
        invariant
            i <= v.len(),
            seqs_of(out@) + words_from(v@.skip(i as int), cur@) == split_ws(v@),
        decreases v.len() - i,
    {
        let ghost rest = v@.skip(i as int);
        assert(rest.drop_first() =~= v@.skip(i + 1));
        assert(rest[0] == v@[i as int]);
        if is_whitespace(v[i]) {
            let ghost old_out = seqs_of(out@);
            let ghost old_cur = cur@;
            assert(words_from(rest, old_cur) == (if old_cur.len() > 0 {
                seq![old_cur]
            } else {
                seq![]
            }) + words_from(v@.skip(i + 1), seq![]));
            if cur.len() > 0 {
                let w = cur;
                out.push(w);
                assert(seqs_of(out@) =~= old_out + seq![old_cur]);
                cur = Vec::new();
                assert(old_out + (seq![old_cur] + words_from(v@.skip(i + 1), seq![])) =~= seqs_of(
                    out@,
                ) + words_from(v@.skip(i + 1), seq![]));
            } else {
                assert(old_out + (Seq::<Seq<char>>::empty() + words_from(v@.skip(i + 1), seq![]))
                    =~= old_out + words_from(v@.skip(i + 1), seq![]));
            }
            assert(cur@ =~= Seq::<char>::empty());
        } else {
            cur.push(v[i]);
        }
        i += 1;
    }
    if cur.len() > 0 {
        let ghost old_out = out@;
        let ghost w = cur@;
        out.push(cur);
        assert(seqs_of(out@) =~= seqs_of(old_out) + seq![w]);
    }
    assert(seqs_of(out@) =~= split_ws(v@));
    out
}

/// The pieces of `s` between the separators `sep`, given that `cur` is the
/// piece already read (`str::split` with a character).
pub open spec fn split_from(s: Seq<char>, sep: char, cur: Seq<char>) -> Seq<Seq<char>>
    decreases s.len(),
{
    if s.len() == 0 {
        seq![cur]
    } else if s[0] == sep {
        seq![cur] + split_from(s.drop_first(), sep, seq![])
    } else {
        split_from(s.drop_first(), sep, cur.push(s[0]))
    }
}

/// The pieces of `s` between the separators `sep`, empty ones included.
pub open spec fn split_on(s: Seq<char>, sep: char) -> Seq<Seq<char>> {
    split_from(s, sep, seq![])
}

/// Splits `v` at every `sep`.
pub fn split_char(v: &Vec<char>, sep: char) -> (res: Vec<Vec<char>>)
    ensures
        seqs_of(res@) == split_on(v@, sep),
{
    let mut out: Vec<Vec<char>> = Vec::new();
    let mut cur: Vec<char> = Vec::new();
    let mut i: usize = 0;
    assert(v@.skip(0) =~= v@);
    assert(seqs_of(out@) =~= Seq::<Seq<char>>::empty());
    assert(cur@ =~= Seq::<char>::empty());
    while i < v.len()
        invariant
            i <= v.len(),
            seqs_of(out@) + split_from(v@.skip(i as int), sep, cur@) == split_on(v@, sep),
        decreases v.len() - i,
    {
        let ghost rest = v@.skip(i as int);
        assert(rest.drop_first() =~= v@.skip(i + 1));
        assert(rest[0] == v@[i as int]);
        if v[i] == sep {
            let ghost old_out = seqs_of(out@);
            let ghost old_cur = cur@;
            let w = cur;
            out.push(w);
            assert(seqs_of(out@) =~= old_out + seq![old_cur]);
            cur = Vec::new();
            assert(cur@ =~= Seq::<char>::empty());
            assert(old_out + (seq![old_cur] + split_from(v@.skip(i + 1), sep, seq![])) =~= seqs_of(
                out@,
            ) + split_from(v@.skip(i + 1), sep, cur@));
        } else {
            cur.push(v[i]);
        }
        i += 1;
    }
    let ghost old_out = out@;
    let ghost w = cur@;
    out.push(cur);
    assert(seqs_of(out@) =~= seqs_of(old_out) + seq![w]);
    out
}

/// The views of a sequence of strings.
pub open spec fn string_views(v: Seq<String>) -> Seq<Seq<char>> {
    v.map_values(|s: String| s@)
}

/// The pieces `parts` written one after another with `sep` between them (`join`).
pub open spec fn joined(parts: Seq<Seq<char>>, sep: Seq<char>) -> Seq<char>
    decreases parts.len(),
{
    if parts.len() == 0 {
        Seq::empty()
    } else if parts.len() == 1 {
        parts[0]
    } else {
        joined(parts.drop_last(), sep) + sep + parts.last()
    }
}

/// Joins strings with a separator.
pub fn join_strings(parts: &Vec<String>, sep: &str) -> (res: String)
    ensures
        res@ == joined(string_views(parts@), sep@),
{
    let ghost views = string_views(parts@);
    let mut out = String::new();
    let mut i: usize = 0;
    assert(views.take(0) =~= Seq::<Seq<char>>::empty());
    while i < parts.len()
        invariant
            i <= parts.len(),
            views == string_views(parts@),
            out@ == joined(views.take(i as int), sep@),
        decreases parts.len() - i,
    {
        let ghost upto = views.take(i + 1);
        assert(upto.drop_last() =~= views.take(i as int));
        assert(upto.last() == parts@[i as int]@);
        if i > 0 {
            out.append(sep);
        } else {
            assert(upto =~= seq![parts@[0]@]);
        }
        out.append(parts[i].as_str());
        i += 1;
    }
    assert(views.take(parts.len() as int) =~= views);
    out
}

// ------------------------------------------------------------------
// Character classes and case
// ------------------------------------------------------------------

/// The ASCII lowercase of one character (`char::to_ascii_lowercase`).
pub open spec fn ascii_lower(c: char) -> char {
    if 'A' <= c <= 'Z' {
        ((c as u32) + 32) as char
    } else {
        c
    }
}

/// The ASCII lowercase of every character of `s` (`str::to_ascii_lowercase`).
pub open spec fn ascii_lower_seq(s: Seq<char>) -> Seq<char> {
    s.map_values(|c: char| ascii_lower(c))
}

/// Every character of `s` is ASCII.
pub open spec fn all_ascii(s: Seq<char>) -> bool {
    forall|i: int| 0 <= i < s.len() ==> (s[i] as u32) < 128
}

/// ASCII lowercasing keeps text ASCII and does nothing the second time.
pub proof fn lemma_ascii_lower_twice(s: Seq<char>)
    requires
        all_ascii(s),
    ensures
        all_ascii(ascii_lower_seq(s)),
        ascii_lower_seq(ascii_lower_seq(s)) == ascii_lower_seq(s),
{
    assert forall|i: int| 0 <= i < s.len() implies (ascii_lower(s[i]) as u32) < 128
        && ascii_lower(ascii_lower(s[i])) == ascii_lower(s[i]) by {
        let c = s[i];
        if 'A' <= c <= 'Z' {
            assert((((c as u32) + 32) as char) as u32 == (c as u32) + 32);
        }
    }
    assert(ascii_lower_seq(ascii_lower_seq(s)) =~= ascii_lower_seq(s));
}

/// The ASCII lowercase of one character.
pub fn to_ascii_lower(c: char) -> (res: char)
    ensures
        res == ascii_lower(c),
{
    if 'A' <= c && c <= 'Z' {
        let b = (c as u32) as u8 + 32;
        b as char
    } else {
        c
    }
}

/// The ASCII lowercase of every character of `v`.
pub fn ascii_lower_chars(v: &Vec<char>) -> (res: Vec<char>)
    ensures
        res@ == ascii_lower_seq(v@),
{
    let mut out: Vec<char> = Vec::new();
    let mut i: usize = 0;
    while i < v.len()
        invariant
            i <= v.len(),
            out@ == ascii_lower_seq(v@.take(i as int)),
        decreases v.len() - i,
    {
        out.push(to_ascii_lower(v[i]));
        assert(ascii_lower_seq(v@.take(i + 1)) =~= ascii_lower_seq(v@.take(i as int)).push(
            ascii_lower(v@[i as int]),
        ));
        i += 1;
    }
    assert(v@.take(v.len() as int) =~= v@);
    out
}

/// What `str::to_lowercase` returns for a string: its Unicode lowercase mapping.
pub uninterp spec fn lowercase_of(s: Seq<char>) -> Seq<char>;

/// std's `str::to_lowercase`. Trusted: the result is `lowercase_of` of the
/// argument, and on all-ASCII text it is the ASCII lowercase: std documents
/// `to_lowercase` as lowercasing ASCII characters as `to_ascii_lowercase`
/// does, in addition to the others. The Unicode mapping of other text is
/// left unstated.
#[verifier::external_body]
pub(crate) fn to_lowercase(s: &str) -> (res: String)
    ensures
        res@ == lowercase_of(s@),
        all_ascii(s@) ==> res@ == ascii_lower_seq(s@),
{
    s.to_lowercase()
}

/// Whether a character is alphanumeric in Unicode's sense, as `char::is_alphanumeric` decides.
pub uninterp spec fn alphanumeric(c: char) -> bool;

/// An ASCII letter or digit.
pub open spec fn ascii_alphanumeric(c: char) -> bool {
    ||| 'a' <= c <= 'z'
    ||| 'A' <= c <= 'Z'
    ||| '0' <= c <= '9'
}

/// std's `char::is_alphanumeric`. Trusted: the result is `alphanumeric(c)`,
/// and for an ASCII character it is whether it is a letter or a digit (the
/// Unicode alphabetic and numeric properties hold of exactly these ASCII
/// characters). Which other characters count is left to Unicode's tables.
#[verifier::external_body]
pub(crate) fn is_alphanumeric(c: char) -> (res: bool)
    ensures
        res == alphanumeric(c),
        (c as u32) < 128 ==> res == ascii_alphanumeric(c),
{
    c.is_alphanumeric()
}

// ------------------------------------------------------------------
// Numbers as text
// ------------------------------------------------------------------

/// The decimal digit for `d < 10`.
pub open spec fn digit_char(d: nat) -> char {
    ((d + 48) as u32) as char
}

/// The decimal representation of `n`, without leading zeros.
pub open spec fn decimal(n: nat) -> Seq<char>
    decreases n,
{
    if n < 10 {
        seq![digit_char(n)]
    } else {
        decimal(n / 10).push(digit_char(n % 10))
    }
}

/// The decimal representation of a signed integer, with a leading `-` when negative.
pub open spec fn signed_decimal(n: int) -> Seq<char> {
    if n < 0 {
        seq!['-'] + decimal((-n) as nat)
    } else {
        decimal(n as nat)
    }
}

fn digit(d: u64) -> (res: char)
    requires
        d < 10,
    ensures
        res == digit_char(d as nat),
{
    ((d as u8) + 48) as char
}

/// The decimal digits of `n` (what `u128::to_string` writes).
pub fn u128_decimal(n: u128) -> (res: Vec<char>)
    ensures
        res@ == decimal(n as nat),
    decreases n,
{
    if n < 10 {
        let mut v: Vec<char> = Vec::new();
        v.push(digit(n as u64));
        assert(v@ =~= seq![digit_char(n as nat)]);
        v
    } else {
        let mut v = u128_decimal(n / 10);
        v.push(digit((n % 10) as u64));
        v
    }
}

/// The decimal digits of `n` (what `u64::to_string` writes).
pub fn u64_decimal(n: u64) -> (res: Vec<char>)
    ensures
        res@ == decimal(n as nat),
    decreases n,
{
    if n < 10 {
        let mut v: Vec<char> = Vec::new();
        v.push(digit(n));
        assert(v@ =~= seq![digit_char(n as nat)]);
        v
    } else {
        let mut v = u64_decimal(n / 10);
        v.push(digit(n % 10));
        v
    }
}

/// The decimal representation of `n` (what `i64::to_string` writes).
pub fn i64_decimal(n: i64) -> (res: Vec<char>)
    ensures
        res@ == signed_decimal(n as int),
{
    if n < 0 {
        let m: u64 = (-(n as i128)) as u64;
        let d = u64_decimal(m);
        let mut v: Vec<char> = Vec::new();
        v.push('-');
        let res = concat_chars(&v, &d);
        assert(v@ =~= seq!['-']);
        res
    } else {
        u64_decimal(n as u64)
    }
}

// ------------------------------------------------------------------
// UTF-8
// ------------------------------------------------------------------

/// The UTF-8 encoding of one character.
pub fn utf8_bytes(c: char) -> (res: Vec<u8>)
    ensures
        res@ == vstd::utf8::encode_scalar(c as u32),
{
    let v: u32 = c as u32;
    let mut out: Vec<u8> = Vec::new();
    if v <= 0x7F {
        out.push((v & 0x7F) as u8);
    } else if v <= 0x7FF {
        out.push(0xC0 | ((v >> 6) & 0x1F) as u8);
        out.push(0x80 | (v & 0x3F) as u8);
    } else if v <= 0xFFFF {
        out.push(0xE0 | ((v >> 12) & 0x0F) as u8);
        out.push(0x80 | ((v >> 6) & 0x3F) as u8);
        out.push(0x80 | (v & 0x3F) as u8);
    } else {
        out.push(0xF0 | ((v >> 18) & 0x7) as u8);
        out.push(0x80 | ((v >> 12) & 0x3F) as u8);
        out.push(0x80 | ((v >> 6) & 0x3F) as u8);
        out.push(0x80 | (v & 0x3F) as u8);
    }
    out
}

// ------------------------------------------------------------------
// UTF-8 lengths
// ------------------------------------------------------------------

/// The number of UTF-8 bytes of one character.
pub open spec fn utf8_width(c: char) -> nat {
    let v = c as u32;
    if v < 0x80 {
        1
    } else if v < 0x800 {
        2
    } else if v < 0x10000 {
        3
    } else {
        4
    }
}

/// The number of UTF-8 bytes of a text (what `str::len` returns).
pub open spec fn utf8_len(s: Seq<char>) -> nat
    decreases s.len(),
{
    if s.len() == 0 {
        0
    } else {
        utf8_len(s.drop_last()) + utf8_width(s.last())
    }
}

/// Every character takes at least one byte.
pub proof fn lemma_utf8_len_at_least_chars(s: Seq<char>)
    ensures
        utf8_len(s) >= s.len(),
    decreases s.len(),
{
    if s.len() > 0 {
        lemma_utf8_len_at_least_chars(s.drop_last());
    }
}

/// The number of UTF-8 bytes of `v`.
pub fn utf8_len_of(v: &Vec<char>) -> (res: u128)
    ensures
        res == utf8_len(v@),
        res <= 4 * v.len(),
{
    let mut n: u128 = 0;
    let mut i: usize = 0;
    while i < v.len()
        invariant
            i <= v.len(),
            n == utf8_len(v@.take(i as int)),
            n <= 4 * i,
        decreases v.len() - i,
    {
        let c = v[i] as u32;
        let w: u128 = if c < 0x80 {
            1
        } else if c < 0x800 {
            2
        } else if c < 0x10000 {
            3
        } else {
            4
        };
        assert(v@.take(i + 1).drop_last() =~= v@.take(i as int));
        n = n + w;
        i += 1;
    }
    assert(v@.take(v.len() as int) =~= v@);
    n
}

/// The first index at which `p` occurs in `s`, if any.
pub open spec fn first_occurrence(s: Seq<char>, p: Seq<char>) -> Option<int> {
    if contains_seq(s, p) {
        Some(choose|i: int| occurs_at(s, p, i) && forall|j: int| 0 <= j < i ==> !occurs_at(s, p, j))
    } else {
        None
    }
}

proof fn lemma_first_occurrence_exists(s: Seq<char>, p: Seq<char>, i: int)
    requires
        occurs_at(s, p, i),
    ensures
        exists|k: int| occurs_at(s, p, k) && forall|j: int| 0 <= j < k ==> !occurs_at(s, p, j),
    decreases i,
{
    if exists|j: int| 0 <= j < i && occurs_at(s, p, j) {
        let j = choose|j: int| 0 <= j < i && occurs_at(s, p, j);
        lemma_first_occurrence_exists(s, p, j);
    }
}

/// The first index at which `p` occurs in `s`, counted in characters.
pub fn find(s: &Vec<char>, p: &Vec<char>) -> (res: Option<usize>)
    ensures
        match res {
            Some(i) => first_occurrence(s@, p@) == Some(i as int) && occurs_at(s@, p@, i as int),
            None => first_occurrence(s@, p@) is None,
        },
{
    let r = find_first(s, p);
    match r {
        Some(i) => {
            proof {
                lemma_first_occurrence_exists(s@, p@, i as int);
                let k = choose|k: int|
                    occurs_at(s@, p@, k) && forall|j: int| 0 <= j < k ==> !occurs_at(s@, p@, j);
                if k < i {
                } else if k > i {
                    assert(!occurs_at(s@, p@, i as int));
                }
            }
            r
        },
        None => r,
    }
}

} // verus!
