//! The order in which replacement keys are tried: longer keys (by UTF-8
//! length) first, so that compounds such as `w/o` win over `w/`, and keys of
//! equal length in lexicographic order.
use vstd::prelude::*;
use crate::text::chars_of;

verus! {

/// Lexicographic order of characters by code point (for UTF-8 text this is
/// also the order of the encoded bytes).
pub open spec fn lex_less(a: Seq<char>, b: Seq<char>) -> bool
    decreases a.len(),
{
    if a.len() == 0 {
        b.len() > 0
    } else if b.len() == 0 {
        false
    } else if a[0] != b[0] {
        (a[0] as int) < (b[0] as int)
    } else {
        lex_less(a.drop_first(), b.drop_first())
    }
}

/// The number of bytes that UTF-8 takes for a character.
pub open spec fn utf8_width(c: char) -> nat {
    if (c as u32) < 0x80 {
        1
    } else if (c as u32) < 0x800 {
        2
    } else if (c as u32) < 0x10000 {
        3
    } else {
        4
    }
}

/// The length of the UTF-8 encoding, as `str::len` gives it.
pub open spec fn byte_len(a: Seq<char>) -> nat
    decreases a.len(),
{
    if a.len() == 0 {
        0
    } else {
        byte_len(a.drop_last()) + utf8_width(a.last())
    }
}

/// The UTF-8 length of a text.
fn utf8_len(v: &Vec<char>) -> (n: u128)
    ensures
        n == byte_len(v@),
{
    let mut n: u128 = 0;
    for i in 0..v.len()
        invariant
            n == byte_len(v@.take(i as int)),
            n <= 4 * i,
    {
        assert(v@.take(i + 1).drop_last() == v@.take(i as int));
        let c = v[i] as u32;
        let w: u128 = if c < 0x80 {
            1
        } else if c < 0x800 {
            2
        } else if c < 0x10000 {
            3
        } else {
            4
        };
        n = n + w;
    }
    assert(v@.take(v@.len() as int) == v@);
    n
}

/// `a` is tried before `b`: it is longer in bytes, or as long and
/// lexicographically smaller.
pub open spec fn key_before(a: Seq<char>, b: Seq<char>) -> bool {
    byte_len(a) > byte_len(b) || (byte_len(a) == byte_len(b) && lex_less(a, b))
}

pub proof fn lemma_lex_irreflexive(a: Seq<char>)
    ensures
        !lex_less(a, a),
    decreases a.len(),
{
    if a.len() > 0 {
        lemma_lex_irreflexive(a.drop_first());
    }
}

pub proof fn lemma_lex_total(a: Seq<char>, b: Seq<char>)
    requires
        a != b,
    ensures
        lex_less(a, b) || lex_less(b, a),
    decreases a.len(),
{
    if a.len() > 0 && b.len() > 0 && a[0] == b[0] {
        if a.drop_first() == b.drop_first() {
            assert(a =~= seq![a[0]] + a.drop_first());
            assert(b =~= seq![b[0]] + b.drop_first());
        }
        lemma_lex_total(a.drop_first(), b.drop_first());
    } else if a.len() == 0 && b.len() == 0 {
        assert(a =~= b);
    }
}

pub proof fn lemma_lex_asymmetric(a: Seq<char>, b: Seq<char>)
    requires
        lex_less(a, b),
    ensures
        !lex_less(b, a),
    decreases a.len(),
{
    if a.len() > 0 && b.len() > 0 && a[0] == b[0] {
        lemma_lex_asymmetric(a.drop_first(), b.drop_first());
    }
}

pub proof fn lemma_lex_transitive(a: Seq<char>, b: Seq<char>, c: Seq<char>)
    requires
        lex_less(a, b),
        lex_less(b, c),
    ensures
        lex_less(a, c),
    decreases a.len(),
{
    if a.len() > 0 && b.len() > 0 && c.len() > 0 && a[0] == b[0] && b[0] == c[0] {
        lemma_lex_transitive(a.drop_first(), b.drop_first(), c.drop_first());
    }
}

/// `key_before` orders any two different keys one way, never both.
pub proof fn lemma_key_order(a: Seq<char>, b: Seq<char>)
    ensures
        a != b ==> key_before(a, b) || key_before(b, a),
        key_before(a, b) ==> !key_before(b, a),
        !key_before(a, a),
{
    lemma_lex_irreflexive(a);
    if a != b {
        lemma_lex_total(a, b);
    }
    if lex_less(a, b) {
        lemma_lex_asymmetric(a, b);
    }
}

pub proof fn lemma_key_before_transitive(a: Seq<char>, b: Seq<char>, c: Seq<char>)
    requires
        key_before(a, b),
        key_before(b, c),
    ensures
        key_before(a, c),
{
    if byte_len(a) == byte_len(b) && byte_len(b) == byte_len(c) {
        lemma_lex_transitive(a, b, c);
    }
}

/// Whether `a` comes before `b` in code-point order.
fn lex_less_chars(a: &Vec<char>, b: &Vec<char>) -> (r: bool)
    ensures
        r == lex_less(a@, b@),
{
    let mut i: usize = 0;
    assert(a@.skip(0) == a@ && b@.skip(0) == b@);
    while i < a.len() && i < b.len() && a[i] == b[i]
        invariant
            i <= a.len(),
            i <= b.len(),
            lex_less(a@, b@) == lex_less(a@.skip(i as int), b@.skip(i as int)),
        decreases a.len() - i,
    {
        assert(a@.skip(i as int).drop_first() == a@.skip(i + 1));
        assert(b@.skip(i as int).drop_first() == b@.skip(i + 1));
        i = i + 1;
    }
    if i == a.len() {
        i < b.len()
    } else if i == b.len() {
        false
    } else {
        assert(a@.skip(i as int)[0] == a@[i as int] && b@.skip(i as int)[0] == b@[i as int]);
        a[i] < b[i]
    }
}

/// Whether key `a` is tried before key `b`.
pub fn key_comes_before(a: &str, b: &str) -> (r: bool)
    ensures
        r == key_before(a@, b@),
{
    let va = chars_of(a);
    let vb = chars_of(b);
    let la = utf8_len(&va);
    let lb = utf8_len(&vb);
    if la != lb {
        la > lb
    } else {
        lex_less_chars(&va, &vb)
    }
}

/// The characters of each string.
pub open spec fn key_views(s: Seq<String>) -> Seq<Seq<char>> {
    s.map_values(|x: String| x@)
}

/// The keys, as views, are exactly those of `unsorted`, reordered so that
/// each comes before the next.
pub open spec fn sorted_permutation(sorted: Seq<String>, unsorted: Seq<String>) -> bool {
    &&& sorted.len() == unsorted.len()
    &&& forall|i: int| 0 <= i < sorted.len() ==> key_views(unsorted).contains(#[trigger] sorted[i]@)
    &&& forall|j: int| 0 <= j < unsorted.len() ==> key_views(sorted).contains(#[trigger] unsorted[j]@)
    &&& forall|i: int, j: int|
        0 <= i < j < sorted.len() ==> key_before((#[trigger] sorted[i])@, (#[trigger] sorted[j])@)
}

/// Inserting `k` at `pos` keeps the order when everything before `pos`
/// comes before `k` and `k` comes before everything from `pos` on.
proof fn lemma_insert_keeps_order(old_out: Seq<String>, k: String, pos: int)
    requires
        0 <= pos <= old_out.len(),
        forall|i: int, j: int|
            0 <= i < j < old_out.len() ==> key_before((#[trigger] old_out[i])@, (#[trigger] old_out[j])@),
        forall|m: int| 0 <= m < pos ==> key_before((#[trigger] old_out[m])@, k@),
        forall|m: int| pos <= m < old_out.len() ==> key_before(k@, (#[trigger] old_out[m])@),
    ensures
        forall|i: int, j: int|
            0 <= i < j < old_out.insert(pos, k).len() ==> key_before(
                (#[trigger] old_out.insert(pos, k)[i])@,
                (#[trigger] old_out.insert(pos, k)[j])@,
            ),
{
    let new_out = old_out.insert(pos, k);
    assert forall|i: int, j: int| 0 <= i < j < new_out.len() implies key_before(
        (#[trigger] new_out[i])@,
        (#[trigger] new_out[j])@,
    ) by {
        if j < pos {
            assert(new_out[i] == old_out[i] && new_out[j] == old_out[j]);
        } else if j == pos {
            assert(new_out[i] == old_out[i]);
        } else if i < pos {
            assert(new_out[i] == old_out[i] && new_out[j] == old_out[j - 1]);
            lemma_key_before_transitive(old_out[i]@, k@, old_out[j - 1]@);
        } else if i == pos {
            assert(new_out[j] == old_out[j - 1]);
        } else {
            assert(new_out[i] == old_out[i - 1] && new_out[j] == old_out[j - 1]);
        }
    }
}

/// Every element of `out` is, as a view, one of `keys[..n]`, and every one
/// of `keys[..n]` is in `out`.
#[verifier::opaque]
spec fn same_keys(out: Seq<String>, keys: Seq<String>, n: int) -> bool {
    &&& forall|i: int|
        0 <= i < out.len() ==> exists|j: int| 0 <= j < n && (#[trigger] out[i])@ == (#[trigger] keys[j])@
    &&& forall|j: int|
        0 <= j < n ==> exists|i: int| 0 <= i < out.len() && (#[trigger] out[i])@ == (#[trigger] keys[j])@
}

/// Inserting `keys[n]` into a list that holds, as views, exactly
/// `keys[..n]` gives a list that holds exactly `keys[..n + 1]`; and `keys[n]`
/// differs from all of them when the keys are distinct.
proof fn lemma_insert_keeps_elements(old_out: Seq<String>, keys: Seq<String>, n: int, pos: int)
    requires
        0 <= n < keys.len(),
        0 <= pos <= old_out.len(),
        same_keys(old_out, keys, n),
        forall|i: int, j: int| 0 <= i < j < keys.len() ==> (#[trigger] keys[i])@ != (#[trigger] keys[j])@,
    ensures
        same_keys(old_out.insert(pos, keys[n]), keys, n + 1),
        forall|m: int| 0 <= m < old_out.len() ==> (#[trigger] old_out[m])@ != keys[n]@,
{
    reveal(same_keys);
    let new_out = old_out.insert(pos, keys[n]);
    assert forall|m: int| 0 <= m < old_out.len() implies (#[trigger] old_out[m])@ != keys[n]@ by {
        let j = choose|j: int| 0 <= j < n && (#[trigger] old_out[m])@ == (#[trigger] keys[j])@;
        assert(keys[j]@ != keys[n]@);
    }
    assert forall|i: int| 0 <= i < new_out.len() implies exists|j: int|
        0 <= j < n + 1 && (#[trigger] new_out[i])@ == (#[trigger] keys[j])@ by {
        if i < pos {
            assert(new_out[i] == old_out[i]);
            let j = choose|j: int| 0 <= j < n && (#[trigger] old_out[i])@ == (#[trigger] keys[j])@;
            assert(new_out[i]@ == keys[j]@);
        } else if i == pos {
            assert(new_out[i]@ == keys[n]@);
        } else {
            assert(new_out[i] == old_out[i - 1]);
            let j = choose|j: int| 0 <= j < n && (#[trigger] old_out[i - 1])@ == (#[trigger] keys[j])@;
            assert(new_out[i]@ == keys[j]@);
        }
    }
    assert forall|j: int| 0 <= j < n + 1 implies exists|i: int|
        0 <= i < new_out.len() && (#[trigger] new_out[i])@ == (#[trigger] keys[j])@ by {
        if j == n {
            assert(new_out[pos]@ == keys[j]@);
        } else {
            let i = choose|i: int| 0 <= i < old_out.len() && (#[trigger] old_out[i])@ == (#[trigger] keys[j])@;
            if i < pos {
                assert(new_out[i] == old_out[i]);
            } else {
                assert(new_out[i + 1] == old_out[i]);
            }
        }
    }
}

proof fn lemma_same_keys_empty(keys: Seq<String>)
    ensures
        same_keys(Seq::empty(), keys, 0),
{
    reveal(same_keys);
}

proof fn lemma_sorted_permutation(out: Seq<String>, keys: Seq<String>)
    requires
        out.len() == keys.len(),
        same_keys(out, keys, keys.len() as int),
        forall|i: int, j: int| 0 <= i < j < out.len() ==> key_before((#[trigger] out[i])@, (#[trigger] out[j])@),
    ensures
        sorted_permutation(out, keys),
{
    reveal(same_keys);
    assert forall|i: int| 0 <= i < out.len() implies key_views(keys).contains(#[trigger] out[i]@) by {
        let x = out[i];
        let j = choose|j: int| 0 <= j < keys.len() && (#[trigger] out[i])@ == (#[trigger] keys[j])@;
        assert(key_views(keys)[j] == out[i]@);
    }
    assert forall|j: int| 0 <= j < keys.len() implies key_views(out).contains(#[trigger] keys[j]@) by {
        let y = keys[j];
        let i = choose|i: int| 0 <= i < out.len() && (#[trigger] out[i])@ == (#[trigger] keys[j])@;
        assert(key_views(out)[i] == keys[j]@);
    }
}

/// Sorts distinct keys into the order in which they are tried.
pub fn sort_keys(keys: &Vec<String>) -> (r: Vec<String>)
    requires
        forall|i: int, j: int| 0 <= i < j < keys.len() ==> (#[trigger] keys[i])@ != (#[trigger] keys[j])@,
    ensures
        sorted_permutation(r@, keys@),
{
    let mut out: Vec<String> = Vec::new();
    let mut n: usize = 0;
    proof {
        lemma_same_keys_empty(keys@);
        assert(out@ == Seq::<String>::empty());
    }
    while n < keys.len()
        invariant
            n <= keys.len(),
            forall|i: int, j: int| 0 <= i < j < keys.len() ==> (#[trigger] keys[i])@ != (#[trigger] keys[j])@,
            out.len() == n,
            same_keys(out@, keys@, n as int),
            forall|i: int, j: int|
                0 <= i < j < out.len() ==> key_before((#[trigger] out@[i])@, (#[trigger] out@[j])@),
        decreases keys.len() - n,
    {
        let k = keys[n].clone();
        let mut pos: usize = 0;
        while pos < out.len() && !key_comes_before(k.as_str(), out[pos].as_str())
            invariant
                pos <= out.len(),
                k@ == keys@[n as int]@,
                forall|m: int| 0 <= m < pos ==> !key_before(k@, (#[trigger] out@[m])@),
            decreases out.len() - pos,
        {
            pos = pos + 1;
        }
        let ghost old_out = out@;
        proof {
            lemma_insert_keeps_elements(old_out, keys@, n as int, pos as int);
            assert forall|m: int| 0 <= m < pos implies key_before((#[trigger] old_out[m])@, k@) by {
                lemma_key_order(old_out[m]@, k@);
            }
            assert forall|m: int| pos <= m < old_out.len() implies key_before(k@, (#[trigger] old_out[m])@) by {
                if m > pos {
                    lemma_key_before_transitive(k@, old_out[pos as int]@, old_out[m]@);
                }
            }
            lemma_insert_keeps_order(old_out, k, pos as int);
            assert(keys@[n as int] == k);
        }
        out.insert(pos, k);
        n = n + 1;
    }
    proof {
        lemma_sorted_permutation(out@, keys@);
    }
    out
}

} // verus!
