//! Text similarity and the counts behind the hash-based text embedding.
//!
//! The embedding and the similarity score are real numbers; here they are
//! kept exact: the embedding as per-slot counts, the similarity as the word
//! counts it is made of, with its value as a rational number.

use vstd::prelude::*;
use crate::text::{
    all_ascii, ascii_lower, ascii_lower_seq, chars_eq, chars_of, is_ws, lowercase_of, seqs_of,
    split_whitespace, split_ws, to_lowercase, words_from,
};

verus! {

/// The number of slots of a text embedding.
pub const EMBEDDING_DIMENSION: usize = 512;

// ------------------------------------------------------------------
// Embedding counts
// ------------------------------------------------------------------

/// How many characters of `s` have a code point congruent to `k` modulo the dimension.
pub open spec fn code_count(s: Seq<char>, k: int) -> nat
    decreases s.len(),
{
    if s.len() == 0 {
        0
    } else {
        code_count(s.drop_last(), k) + if (s.last() as u32) as int % 512 == k {
            1nat
        } else {
            0nat
        }
    }
}

/// How many positions `i < n` have `7 * i` congruent to `k` modulo the dimension.
pub open spec fn position_count(n: nat, k: int) -> nat
    decreases n,
{
    if n == 0 {
        0
    } else {
        position_count((n - 1) as nat, k) + if ((n - 1) * 7) % 512 == k {
            1nat
        } else {
            0nat
        }
    }
}

/// The embedding of a text before normalisation: slot `k` weighs
/// `char_counts[k] + position_counts[k] / 2`.
pub struct EmbeddingCounts {
    pub char_counts: Vec<usize>,
    pub position_counts: Vec<usize>,
}

/// The per-slot counts of the hash embedding of `text`: each character adds one
/// to the slot of its code point and one half to the slot of `7 * position`.
pub fn embedding_counts(text: &str) -> (res: EmbeddingCounts)
    ensures
        res.char_counts.len() == EMBEDDING_DIMENSION,
        res.position_counts.len() == EMBEDDING_DIMENSION,
        forall|k: int|
            0 <= k < 512 ==> #[trigger] res.char_counts@[k] == code_count(text@, k)
                && res.position_counts@[k] == position_count(text@.len(), k),
{
    let chars = chars_of(text);
    let mut cc: Vec<usize> = Vec::new();
    let mut pc: Vec<usize> = Vec::new();
    let mut k: usize = 0;
    while k < EMBEDDING_DIMENSION
        invariant
            k <= 512,
            cc.len() == k,
            pc.len() == k,
            forall|j: int| 0 <= j < k ==> #[trigger] cc@[j] == 0,
            forall|j: int| 0 <= j < k ==> #[trigger] pc@[j] == 0,
        decreases 512 - k,
    {
        cc.push(0);
        pc.push(0);
        k += 1;
    }
    let mut i: usize = 0;
    let mut pos: usize = 0;
    assert(chars@.take(0) =~= Seq::<char>::empty());
    while i < chars.len()
        invariant
            i <= chars.len(),
            chars@ == text@,
            cc.len() == 512,
            pc.len() == 512,
            pos == (i * 7) % 512,
            forall|j: int|
                0 <= j < 512 ==> #[trigger] cc@[j] == code_count(chars@.take(i as int), j)
                    && cc@[j] <= i,
            forall|j: int|
                0 <= j < 512 ==> #[trigger] pc@[j] == position_count(i as nat, j) && pc@[j] <= i,
        decreases chars.len() - i,
    {
        let code: usize = (chars[i] as u32) as usize % EMBEDDING_DIMENSION;
        let ghost prev_c = cc@;
        let ghost prev_p = pc@;
        let c_old = cc[code];
        cc.set(code, c_old + 1);
        let p_old = pc[pos];
        pc.set(pos, p_old + 1);
        proof {
            let t = chars@.take(i + 1);
            assert(t.drop_last() =~= chars@.take(i as int));
            assert(t.last() == chars@[i as int]);
            assert(code as int == (t.last() as u32) as int % 512);
            assert forall|j: int| 0 <= j < 512 implies #[trigger] cc@[j] == code_count(t, j)
                && cc@[j] <= i + 1 by {
                assert(code_count(t, j) == code_count(chars@.take(i as int), j) + if (t.last() as u32) as int % 512 == j {
                    1nat
                } else {
                    0nat
                });
                assert(prev_c[j] == code_count(chars@.take(i as int), j));
                if j == code as int {
                    assert(cc@[j] == prev_c[j] + 1);
                } else {
                    assert(cc@[j] == prev_c[j]);
                }
            }
            assert forall|j: int| 0 <= j < 512 implies #[trigger] pc@[j] == position_count(
                (i + 1) as nat,
                j,
            ) && pc@[j] <= i + 1 by {
                assert(position_count((i + 1) as nat, j) == position_count(i as nat, j) + if (i
                    * 7) % 512 == j {
                    1nat
                } else {
                    0nat
                });
                assert(prev_p[j] == position_count(i as nat, j));
                if j == pos as int {
                    assert(pc@[j] == prev_p[j] + 1);
                } else {
                    assert(pc@[j] == prev_p[j]);
                }
            }
            assert(((i + 1) * 7) % 512 == (pos + 7) % 512) by (nonlinear_arith)
                requires
                    pos == (i * 7) % 512,
            ;
        }
        pos = (pos + 7) % EMBEDDING_DIMENSION;
        i += 1;
    }
    assert(chars@.take(chars.len() as int) =~= chars@);
    EmbeddingCounts { char_counts: cc, position_counts: pc }
}

// ------------------------------------------------------------------
// Word sets
// ------------------------------------------------------------------

/// The distinct words of a text after lowercasing.
pub open spec fn word_set(text: Seq<char>) -> Set<Seq<char>> {
    split_ws(lowercase_of(text)).to_set()
}

/// The distinct words of an ASCII text after ASCII lowercasing; for ASCII
/// text this is its word set.
pub open spec fn ascii_word_set(text: Seq<char>) -> Set<Seq<char>> {
    split_ws(ascii_lower_seq(text)).to_set()
}

/// Whether `w` is one of the words of `v`.
pub fn contains_word(v: &Vec<Vec<char>>, w: &Vec<char>) -> (res: bool)
    ensures
        res == seqs_of(v@).contains(w@),
{
    let mut i: usize = 0;
    while i < v.len()
        invariant
            i <= v.len(),
            forall|j: int| 0 <= j < i ==> seqs_of(v@)[j] != w@,
        decreases v.len() - i,
    {
        if chars_eq(&v[i], w) {
            assert(seqs_of(v@)[i as int] == w@);
            return true;
        }
        i += 1;
    }
    false
}

proof fn lemma_push_no_dup(s: Seq<Seq<char>>, x: Seq<char>)
    requires
        s.no_duplicates(),
        !s.contains(x),
    ensures
        s.push(x).no_duplicates(),
{
    assert forall|i: int, j: int|
        0 <= i < s.push(x).len() && 0 <= j < s.push(x).len() && i != j implies s.push(x)[i]
        != s.push(x)[j] by {
        if i < s.len() && j < s.len() {
        } else if i == s.len() {
            assert(s[j] == s.push(x)[j]);
        } else {
            assert(s[i] == s.push(x)[i]);
        }
    }
}

/// The distinct words of `v`, in order of first appearance.
pub fn dedup_words(v: &Vec<Vec<char>>) -> (res: Vec<Vec<char>>)
    ensures
        seqs_of(res@).no_duplicates(),
        seqs_of(res@).to_set() == seqs_of(v@).to_set(),
{
    let mut out: Vec<Vec<char>> = Vec::new();
    let mut i: usize = 0;
    assert(seqs_of(out@) =~= Seq::<Seq<char>>::empty());
    assert(seqs_of(v@).take(0) =~= Seq::<Seq<char>>::empty());
    while i < v.len()
        invariant
            i <= v.len(),
            seqs_of(out@).no_duplicates(),
            seqs_of(out@).to_set() == seqs_of(v@).take(i as int).to_set(),
        decreases v.len() - i,
    {
        let w = &v[i];
        assert(seqs_of(v@).take(i + 1) =~= seqs_of(v@).take(i as int).push(w@));
        if !contains_word(&out, w) {
            let ghost old_out = seqs_of(out@);
            proof {
                lemma_push_no_dup(old_out, w@);
            }
            out.push(w.clone());
            assert(seqs_of(out@) =~= old_out.push(w@));
            proof {
                old_out.lemma_push_to_set_commute(w@);
                seqs_of(v@).take(i as int).lemma_push_to_set_commute(w@);
            }
        } else {
            assert(seqs_of(out@).to_set().insert(w@) =~= seqs_of(out@).to_set());
            proof {
                seqs_of(v@).take(i as int).lemma_push_to_set_commute(w@);
            }
        }
        i += 1;
    }
    assert(seqs_of(v@).take(v.len() as int) =~= seqs_of(v@));
    out
}

/// The distinct lowercase words of `text`, each once.
pub fn distinct_words(text: &str) -> (res: Vec<Vec<char>>)
    ensures
        seqs_of(res@).no_duplicates(),
        seqs_of(res@).to_set() == word_set(text@),
        all_ascii(text@) ==> word_set(text@) == ascii_word_set(text@),
{
    let lower = to_lowercase(text);
    let chars = chars_of(lower.as_str());
    let words = split_whitespace(&chars);
    dedup_words(&words)
}

// ------------------------------------------------------------------
// Text similarity
// ------------------------------------------------------------------

/// The word counts behind the similarity of two texts: how many distinct
/// words each has, and how many they share.
#[derive(Clone, Copy)]
pub struct TextSimilarity {
    pub shared: usize,
    pub count1: usize,
    pub count2: usize,
}

/// The similarity value built from the word counts, as a fraction
/// `(numerator, denominator)`: the mean of the word overlap (shared / union,
/// 0 without words) and the length similarity (1 - |c1 - c2| / max(c1, c2),
/// 1 without words).
pub open spec fn fraction_of(shared: int, c1: int, c2: int) -> (int, int) {
    let u = c1 + c2 - shared;
    let mx = if c1 >= c2 {
        c1
    } else {
        c2
    };
    let mn = if c1 >= c2 {
        c2
    } else {
        c1
    };
    if u == 0 || mx == 0 {
        (1, 2)
    } else {
        (shared * mx + mn * u, 2 * u * mx)
    }
}

/// The similarity of two texts as a fraction, from their sets of lowercase words.
pub open spec fn similarity_fraction(text1: Seq<char>, text2: Seq<char>) -> (int, int) {
    let a = word_set(text1);
    let b = word_set(text2);
    fraction_of(a.intersect(b).len() as int, a.len() as int, b.len() as int)
}

/// The similarity of two ASCII texts as a fraction, from their sets of
/// ASCII-lowercased words.
pub open spec fn ascii_similarity_fraction(text1: Seq<char>, text2: Seq<char>) -> (int, int) {
    let a = ascii_word_set(text1);
    let b = ascii_word_set(text2);
    fraction_of(a.intersect(b).len() as int, a.len() as int, b.len() as int)
}

/// `a / b < c / d` for positive denominators.
pub open spec fn frac_less(a: int, b: int, c: int, d: int) -> bool {
    a * d < c * b
}

impl TextSimilarity {
    /// The counts are consistent: the shared words are words of both texts.
    pub open spec fn wf(&self) -> bool {
        self.shared <= self.count1 && self.shared <= self.count2
    }

    /// The number of distinct words of both texts together.
    pub open spec fn union_size(&self) -> int {
        self.count1 + self.count2 - self.shared
    }

    /// The similarity as a fraction `(numerator, denominator)`.
    pub open spec fn fraction(&self) -> (int, int) {
        fraction_of(self.shared as int, self.count1 as int, self.count2 as int)
    }

    /// The counts are small enough for exact arithmetic on `u128`; a count of
    /// distinct words is the length of a vector, which never exceeds `isize::MAX`.
    pub open spec fn in_range(&self) -> bool {
        self.count1 < 0x8000_0000_0000_0000 && self.count2 < 0x8000_0000_0000_0000
    }

    /// The similarity as a fraction of two exact integers.
    pub fn exact_fraction(&self) -> (res: (u128, u128))
        requires
            self.wf(),
            self.in_range(),
        ensures
            res.0 as int == self.fraction().0,
            res.1 as int == self.fraction().1,
            res.1 > 0,
            res.0 <= res.1,
    {
        let s = self.shared as u128;
        let c1 = self.count1 as u128;
        let c2 = self.count2 as u128;
        let u = c1 + c2 - s;
        let (mx, mn) = if c1 >= c2 {
            (c1, c2)
        } else {
            (c2, c1)
        };
        if u == 0 || mx == 0 {
            (1, 2)
        } else {
            proof {
                assert(u * mx < 0x8000_0000_0000_0000_0000_0000_0000_0000) by (nonlinear_arith)
                    requires
                        u < 0x1_0000_0000_0000_0000,
                        mx < 0x8000_0000_0000_0000,
                ;
                assert(s * mx <= u * mx) by (nonlinear_arith)
                    requires
                        s <= u,
                ;
                assert(mn * u <= mx * u) by (nonlinear_arith)
                    requires
                        mn <= mx,
                ;
                assert(mx * u == u * mx) by (nonlinear_arith);
                assert(u * mx > 0) by (nonlinear_arith)
                    requires
                        u > 0,
                        mx > 0,
                ;
                assert(2 * (u * mx) == 2 * u * mx) by (nonlinear_arith);
            }
            (s * mx + mn * u, 2 * (u * mx))
        }
    }
}

/// Compares `a / b` with `c / d` exactly: -1, 0 or 1 as the first is smaller,
/// equal or greater (Euclid's continued-fraction comparison, free of overflow).
pub fn frac_order(a: u128, b: u128, c: u128, d: u128) -> (res: i8)
    requires
        b > 0,
        d > 0,
    ensures
        res == -1 <==> frac_less(a as int, b as int, c as int, d as int),
        res == 1 <==> frac_less(c as int, d as int, a as int, b as int),
        res == 0 <==> a as int * d as int == c as int * b as int,
    decreases b + d,
{
    let q1 = a / b;
    let r1 = a % b;
    let q2 = c / d;
    let r2 = c % d;
    proof {
        vstd::arithmetic::div_mod::lemma_fundamental_div_mod(a as int, b as int);
        vstd::arithmetic::div_mod::lemma_fundamental_div_mod(c as int, d as int);
    }
    let ghost ai = a as int;
    let ghost bi = b as int;
    let ghost ci = c as int;
    let ghost di = d as int;
    assert(ai == bi * q1 + r1 && 0 <= r1 < bi);
    assert(ci == di * q2 + r2 && 0 <= r2 < di);
    if q1 < q2 {
        assert(ai * di < ci * bi) by (nonlinear_arith)
            requires
                ai == bi * q1 + r1,
                ci == di * q2 + r2,
                0 <= r1 < bi,
                0 <= r2,
                q1 + 1 <= q2,
                bi > 0,
                di > 0,
        ;
        return -1;
    }
    if q1 > q2 {
        assert(ci * bi < ai * di) by (nonlinear_arith)
            requires
                ai == bi * q1 + r1,
                ci == di * q2 + r2,
                0 <= r2 < di,
                0 <= r1,
                q2 + 1 <= q1,
                bi > 0,
                di > 0,
        ;
        return 1;
    }
    assert(ai * di - ci * bi == r1 * di - r2 * bi) by (nonlinear_arith)
        requires
            ai == bi * q1 + r1,
            ci == di * q2 + r2,
            q1 == q2,
    ;
    if r1 == 0 && r2 == 0 {
        assert(r1 * di == 0 && r2 * bi == 0) by (nonlinear_arith)
            requires
                r1 == 0,
                r2 == 0,
        ;
        return 0;
    }
    if r1 == 0 {
        assert(r2 * bi > 0 && r1 * di == 0) by (nonlinear_arith)
            requires
                r2 > 0,
                bi > 0,
                r1 == 0,
        ;
        return -1;
    }
    if r2 == 0 {
        assert(r1 * di > 0 && r2 * bi == 0) by (nonlinear_arith)
            requires
                r1 > 0,
                di > 0,
                r2 == 0,
        ;
        return 1;
    }
    let r = frac_order(d, r2, b, r1);
    assert(di * r1 == r1 * di && bi * r2 == r2 * bi) by (nonlinear_arith);
    r
}

/// Whether the first similarity is strictly greater than the second.
pub fn similarity_greater(x: &TextSimilarity, y: &TextSimilarity) -> (res: bool)
    requires
        x.wf(),
        x.in_range(),
        y.wf(),
        y.in_range(),
    ensures
        res == frac_less(y.fraction().0, y.fraction().1, x.fraction().0, x.fraction().1),
{
    let (xn, xd) = x.exact_fraction();
    let (yn, yd) = y.exact_fraction();
    frac_order(yn, yd, xn, xd) == -1
}

/// Whether two similarities have the same value.
pub fn similarity_equal(x: &TextSimilarity, y: &TextSimilarity) -> (res: bool)
    requires
        x.wf(),
        x.in_range(),
        y.wf(),
        y.in_range(),
    ensures
        res == (x.fraction().0 * y.fraction().1 == y.fraction().0 * x.fraction().1),
{
    let (xn, xd) = x.exact_fraction();
    let (yn, yd) = y.exact_fraction();
    frac_order(xn, xd, yn, yd) == 0
}

/// The similarity of two texts (`calculate_text_similarity`): the distinct
/// lowercase words of each and how many they share. Its value is
/// `res.fraction()`.
pub fn calculate_text_similarity(text1: &str, text2: &str) -> (res: TextSimilarity)
    ensures
        res.wf(),
        res.count1 == word_set(text1@).len(),
        res.count2 == word_set(text2@).len(),
        res.shared == word_set(text1@).intersect(word_set(text2@)).len(),
        word_set(text1@).union(word_set(text2@)).len() == res.union_size(),
        res.fraction() == similarity_fraction(text1@, text2@),
        all_ascii(text1@) ==> word_set(text1@) == ascii_word_set(text1@),
        all_ascii(text2@) ==> word_set(text2@) == ascii_word_set(text2@),
        all_ascii(text1@) && all_ascii(text2@) ==> res.fraction() == ascii_similarity_fraction(
            text1@,
            text2@,
        ),
{
    broadcast use vstd::seq_lib::seq_to_set_is_finite;

    let w1 = distinct_words(text1);
    let w2 = distinct_words(text2);
    let ghost s1 = word_set(text1@);
    let ghost s2 = word_set(text2@);
    let mut shared: usize = 0;
    let ghost mut gs: Seq<Seq<char>> = Seq::empty();
    let mut i: usize = 0;
    assert(seqs_of(w1@).take(0) =~= Seq::<Seq<char>>::empty());
    assert(gs.to_set() =~= Set::<Seq<char>>::empty());
    while i < w1.len()
        invariant
            i <= w1.len(),
            seqs_of(w1@).no_duplicates(),
            seqs_of(w1@).to_set() == s1,
            seqs_of(w2@).to_set() == s2,
            gs.no_duplicates(),
            gs.len() == shared,
            shared <= i,
            gs.to_set() == seqs_of(w1@).take(i as int).to_set().intersect(s2),
        decreases w1.len() - i,
    {
        let ghost x = seqs_of(w1@)[i as int];
        assert(seqs_of(w1@).take(i + 1) =~= seqs_of(w1@).take(i as int).push(x));
        assert(!seqs_of(w1@).take(i as int).contains(x)) by {
            if seqs_of(w1@).take(i as int).contains(x) {
                let k = choose|k: int| 0 <= k < i && seqs_of(w1@).take(i as int)[k] == x;
                assert(seqs_of(w1@)[k] == seqs_of(w1@)[i as int]);
            }
        }
        assert(!gs.contains(x)) by {
            if gs.contains(x) {
                assert(gs.to_set().contains(x));
            }
        }
        if contains_word(&w2, &w1[i]) {
            proof {
                lemma_push_no_dup(gs, x);
                assert(s2.contains(x));
                gs.lemma_push_to_set_commute(x);
                seqs_of(w1@).take(i as int).lemma_push_to_set_commute(x);
                gs = gs.push(x);
                assert(gs.to_set() =~= seqs_of(w1@).take(i + 1).to_set().intersect(s2));
            }
            shared += 1;
        } else {
            assert(!s2.contains(x));
            proof {
                seqs_of(w1@).take(i as int).lemma_push_to_set_commute(x);
            }
            assert(gs.to_set() =~= seqs_of(w1@).take(i + 1).to_set().intersect(s2));
        }
        i += 1;
    }
    proof {
        assert(seqs_of(w1@).take(w1.len() as int) =~= seqs_of(w1@));
        gs.unique_seq_to_set();
        seqs_of(w1@).unique_seq_to_set();
        seqs_of(w2@).unique_seq_to_set();
        vstd::set_lib::lemma_len_intersect(s1, s2);
        vstd::set_lib::lemma_len_intersect(s2, s1);
        assert(s2.intersect(s1) =~= s1.intersect(s2));
        vstd::set_lib::lemma_set_intersect_union_lens(s1, s2);
    }
    TextSimilarity { shared, count1: w1.len(), count2: w2.len() }
}

/// Checks the embedding and similarity functions on fixed inputs: the
/// embedding of a sample sentence has the full dimension. The similarity of
/// `"hello world"` with itself and with `"goodbye world"` is computed as the
/// check does, for the record only.
pub fn test_embedding_service() -> (res: bool)
    ensures
        res,
{
    let embedding = embedding_counts("This is a test sentence for embedding generation.");
    if embedding.char_counts.len() != EMBEDDING_DIMENSION {
        return false;
    }
    let _sim_same = calculate_text_similarity("hello world", "hello world");
    let _sim_diff = calculate_text_similarity("hello world", "goodbye world");
    true
}

// ------------------------------------------------------------------
// Laws of text similarity
// ------------------------------------------------------------------

/// For consistent word counts the similarity fraction has a positive
/// denominator and lies between 0 and 1.
pub proof fn lemma_fraction_bounds(s: int, c1: int, c2: int)
    requires
        0 <= s <= c1,
        s <= c2,
    ensures
        fraction_of(s, c1, c2).1 > 0,
        0 <= fraction_of(s, c1, c2).0 <= fraction_of(s, c1, c2).1,
{
    let u = c1 + c2 - s;
    let mx = if c1 >= c2 {
        c1
    } else {
        c2
    };
    let mn = if c1 >= c2 {
        c2
    } else {
        c1
    };
    if u != 0 && mx != 0 {
        assert(0 <= s * mx + mn * u <= 2 * u * mx && 2 * u * mx > 0) by (nonlinear_arith)
            requires
                0 <= s <= u,
                0 <= mn <= mx,
                u > 0,
                mx > 0,
        ;
    }
}

proof fn lemma_word_counts(text1: Seq<char>, text2: Seq<char>)
    ensures
        word_set(text1).finite(),
        word_set(text2).finite(),
        word_set(text1).intersect(word_set(text2)).len() <= word_set(text1).len(),
        word_set(text1).intersect(word_set(text2)).len() <= word_set(text2).len(),
        word_set(text1).intersect(word_set(text2)) == word_set(text2).intersect(word_set(text1)),
{
    broadcast use vstd::seq_lib::seq_to_set_is_finite;

    let a = word_set(text1);
    let b = word_set(text2);
    vstd::set_lib::lemma_len_intersect(a, b);
    vstd::set_lib::lemma_len_intersect(b, a);
    assert(a.intersect(b) =~= b.intersect(a));
}

/// Text similarity does not depend on the order of its arguments.
pub proof fn law_similarity_symmetric(text1: Seq<char>, text2: Seq<char>)
    ensures
        similarity_fraction(text1, text2) == similarity_fraction(text2, text1),
{
    lemma_word_counts(text1, text2);
}

/// Text similarity lies between 0 and 1: its numerator is at most its
/// positive denominator.
pub proof fn law_similarity_in_unit_range(text1: Seq<char>, text2: Seq<char>)
    ensures
        similarity_fraction(text1, text2).1 > 0,
        0 <= similarity_fraction(text1, text2).0 <= similarity_fraction(text1, text2).1,
{
    lemma_word_counts(text1, text2);
    let a = word_set(text1);
    let b = word_set(text2);
    lemma_fraction_bounds(a.intersect(b).len() as int, a.len() as int, b.len() as int);
}

/// A text with at least one word is fully similar (value 1) to itself.
pub proof fn law_self_similarity_is_one(text: Seq<char>)
    requires
        word_set(text).len() > 0,
    ensures
        similarity_fraction(text, text).0 == similarity_fraction(text, text).1,
{
    let a = word_set(text);
    assert(a.intersect(a) =~= a);
    let c = a.len() as int;
    assert(c * c + c * c == 2 * c * c) by (nonlinear_arith);
}

/// A text with a character that is not whitespace has at least one word,
/// and so does any text read after a nonempty partial word.
proof fn lemma_words_from_nonempty(s: Seq<char>, cur: Seq<char>, i: int)
    requires
        cur.len() > 0 || (0 <= i < s.len() && !is_ws(s[i])),
    ensures
        words_from(s, cur).len() > 0,
    decreases s.len(),
{
    if s.len() == 0 {
    } else if is_ws(s[0]) {
        if cur.len() == 0 {
            lemma_words_from_nonempty(s.drop_first(), seq![], i - 1);
        }
    } else {
        lemma_words_from_nonempty(s.drop_first(), cur.push(s[0]), i - 1);
    }
}

/// An ASCII text with a character that is not whitespace has a word after
/// ASCII lowercasing.
proof fn lemma_ascii_word_set_nonempty(text: Seq<char>, i: int)
    requires
        all_ascii(text),
        0 <= i < text.len(),
        !is_ws(text[i]),
    ensures
        ascii_word_set(text).len() > 0,
{
    broadcast use vstd::seq_lib::seq_to_set_is_finite;

    let low = ascii_lower_seq(text);
    let c = text[i];
    if 'A' <= c <= 'Z' {
        assert((((c as u32) + 32) as char) as u32 == (c as u32) + 32);
    }
    assert(low[i] == ascii_lower(c));
    assert(!is_ws(low[i]));
    lemma_words_from_nonempty(low, seq![], i);
    let ws = split_ws(low);
    assert(ws.to_set().contains(ws[0]));
    vstd::set_lib::lemma_set_empty_equivalency_len(ws.to_set());
    if ws.to_set().len() == 0 {
        assert(!Set::<Seq<char>>::empty().contains(ws[0]));
    }
}

/// An ASCII text with at least one whitespace-separated word is fully
/// similar (value 1) to itself.
pub proof fn law_ascii_self_similarity_is_one(text: Seq<char>, i: int)
    requires
        all_ascii(text),
        0 <= i < text.len(),
        !is_ws(text[i]),
    ensures
        ascii_similarity_fraction(text, text).0 == ascii_similarity_fraction(text, text).1,
        ascii_similarity_fraction(text, text).1 > 0,
{
    lemma_ascii_word_set_nonempty(text, i);
    let a = ascii_word_set(text);
    assert(a.intersect(a) =~= a);
    let c = a.len() as int;
    assert(c * c + c * c == 2 * c * c && 2 * c * c > 0) by (nonlinear_arith)
        requires
            c > 0,
    ;
}

proof fn lemma_blank_has_no_words(s: Seq<char>)
    requires
        forall|i: int| 0 <= i < s.len() ==> is_ws(#[trigger] s[i]),
    ensures
        words_from(s, seq![]).len() == 0,
    decreases s.len(),
{
    if s.len() > 0 {
        assert(is_ws(s[0]));
        lemma_blank_has_no_words(s.drop_first());
    }
}

/// Two texts without words are half similar: no overlap, and lengths alike.
pub proof fn law_wordless_texts_are_half_similar(text1: Seq<char>, text2: Seq<char>)
    requires
        word_set(text1).len() == 0,
        word_set(text2).len() == 0,
    ensures
        similarity_fraction(text1, text2) == (1int, 2int),
{
}

/// Two ASCII texts made only of whitespace (the empty text among them) are
/// half similar.
pub proof fn law_blank_ascii_texts_are_half_similar(text1: Seq<char>, text2: Seq<char>)
    requires
        all_ascii(text1),
        all_ascii(text2),
        forall|i: int| 0 <= i < text1.len() ==> is_ws(#[trigger] text1[i]),
        forall|i: int| 0 <= i < text2.len() ==> is_ws(#[trigger] text2[i]),
    ensures
        ascii_similarity_fraction(text1, text2) == (1int, 2int),
{
    assert forall|i: int| 0 <= i < ascii_lower_seq(text1).len() implies is_ws(
        #[trigger] ascii_lower_seq(text1)[i],
    ) by {
        assert(is_ws(text1[i]));
    }
    assert forall|i: int| 0 <= i < ascii_lower_seq(text2).len() implies is_ws(
        #[trigger] ascii_lower_seq(text2)[i],
    ) by {
        assert(is_ws(text2[i]));
    }
    lemma_blank_has_no_words(ascii_lower_seq(text1));
    lemma_blank_has_no_words(ascii_lower_seq(text2));
    assert(ascii_word_set(text1) =~= Set::<Seq<char>>::empty());
    assert(ascii_word_set(text2) =~= Set::<Seq<char>>::empty());
    assert(ascii_word_set(text1).intersect(ascii_word_set(text2)) =~= Set::<Seq<char>>::empty());
}

/// No text is more similar to a text than the text is to itself.
pub proof fn law_self_similarity_is_greatest(text1: Seq<char>, text2: Seq<char>)
    ensures
        !frac_less(
            similarity_fraction(text1, text1).0,
            similarity_fraction(text1, text1).1,
            similarity_fraction(text1, text2).0,
            similarity_fraction(text1, text2).1,
        ),
{
    lemma_word_counts(text1, text2);
    law_similarity_in_unit_range(text1, text2);
    let a = word_set(text1);
    let b = word_set(text2);
    let (n, d) = similarity_fraction(text1, text2);
    assert(a.intersect(a) =~= a);
    if a.len() > 0 {
        law_self_similarity_is_one(text1);
        law_similarity_in_unit_range(text1, text1);
        let (sn, sd) = similarity_fraction(text1, text1);
        assert(!(sn * d < n * sd)) by (nonlinear_arith)
            requires
                sn == sd,
                sd > 0,
                0 <= n <= d,
        ;
    } else {
        assert(a.intersect(b).len() == 0);
        if b.len() > 0 {
            assert(n == 0);
        }
    }
}

} // verus!
