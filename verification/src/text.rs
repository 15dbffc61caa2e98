//! Character-level text helpers shared by the rest of the library: turning
//! strings into character vectors and back, comparing them, Unicode
//! whitespace, blank detection, whitespace collapsing and trimming,
//! lower-casing, and decimal rendering of integers.
use vstd::prelude::*;
use vstd::string::*;

verus! {

pub assume_specification[ String::push ](s: &mut String, ch: char)
    ensures
        final(s)@ == old(s)@.push(ch),
;

/// What `str::to_lowercase` returns for a string: its Unicode lower-case
/// mapping, a function of the characters alone.
pub uninterp spec fn lowercase(s: Seq<char>) -> Seq<char>;

/// Whether `char::is_alphanumeric` holds of a character (Unicode
/// `Alphabetic` or `Numeric`), a function of the character alone.
pub uninterp spec fn alphanumeric(c: char) -> bool;

/// Every character is ASCII.
pub open spec fn all_ascii(s: Seq<char>) -> bool {
    forall|i: int| 0 <= i < s.len() ==> (#[trigger] s[i] as u32) < 128
}

/// An ASCII upper-case letter turned into its lower-case letter; any other
/// character is kept.
pub open spec fn ascii_lower(c: char) -> char {
    if 'A' as u32 <= c as u32 <= 'Z' as u32 {
        ((c as u32) + 32) as char
    } else {
        c
    }
}

/// Each character lowered as `ascii_lower` does.
pub open spec fn ascii_lowered(s: Seq<char>) -> Seq<char> {
    s.map_values(|c: char| ascii_lower(c))
}

/// Calls `str::to_lowercase`. The result is named (`lowercase`); of the
/// Unicode case mapping only its ASCII part is stated: a string of ASCII
/// characters comes back with `A`..`Z` turned into `a`..`z` and every other
/// character as it was. What it does to other characters is left unsaid.
#[verifier::external_body]
pub(crate) fn to_lowercase(s: &str) -> (r: String)
    ensures
        r@ == lowercase(s@),
        all_ascii(s@) ==> r@ == ascii_lowered(s@),
{
    s.to_lowercase()
}

/// Calls `char::is_alphanumeric`; the contract only names the result
/// (`alphanumeric`).
#[verifier::external_body]
pub(crate) fn is_alphanumeric(c: char) -> (r: bool)
    ensures
        r == alphanumeric(c),
{
    c.is_alphanumeric()
}

/// The characters of `s`, in order.
pub fn chars_of(s: &str) -> (v: Vec<char>)
    ensures
        v@ == s@,
{
    let mut v: Vec<char> = Vec::new();
    for c in it: s.chars()
        invariant
            v@ == it.seq().take(it.index() as int),
    {
        v.push(c);
    }
    v
}

/// The string made of the characters `v[from..to]`.
pub fn string_from_range(v: &Vec<char>, from: usize, to: usize) -> (s: String)
    requires
        from <= to <= v.len(),
    ensures
        s@ == v@.subrange(from as int, to as int),
{
    let mut s = String::new();
    let mut i = from;
    while i < to
        invariant
            from <= i <= to <= v.len(),
            s@ == v@.subrange(from as int, i as int),
        decreases to - i,
    {
        s.push(v[i]);
        assert(v@.subrange(from as int, i + 1) == v@.subrange(from as int, i as int).push(
            v@[i as int],
        ));
        i = i + 1;
    }
    s
}

/// The string made of all the characters of `v`.
pub fn string_from(v: &Vec<char>) -> (s: String)
    ensures
        s@ == v@,
{
    let s = string_from_range(v, 0, v.len());
    assert(v@.subrange(0, v@.len() as int) == v@);
    s
}

/// Appends a string to another.
pub fn append_str(s: &mut String, t: &str)
    ensures
        final(s)@ == old(s)@ + t@,
{
    s.append(t);
}

/// Whether two strings hold the same characters.
pub fn text_eq(a: &str, b: &str) -> (r: bool)
    ensures
        r == (a@ == b@),
{
    let va = chars_of(a);
    let vb = chars_of(b);
    if va.len() != vb.len() {
        return false;
    }
    for i in 0..va.len()
        invariant
            va@ == a@,
            vb@ == b@,
            va@.len() == vb@.len(),
            forall|j: int| 0 <= j < i ==> va@[j] == vb@[j],
    {
        if va[i] != vb[i] {
            return false;
        }
    }
    assert(va@ =~= vb@);
    true
}

/// The Unicode `White_Space` property, the set that `char::is_whitespace`
/// and `str::trim` use.
pub open spec fn is_white(c: char) -> bool {
    let n = c as u32;
    (0x9 <= n <= 0xd) || n == 0x20 || n == 0x85 || n == 0xa0 || n == 0x1680 || (0x2000 <= n
        <= 0x200a) || n == 0x2028 || n == 0x2029 || n == 0x202f || n == 0x205f || n == 0x3000
}

/// Whether a character is Unicode whitespace.
pub fn is_whitespace(c: char) -> (r: bool)
    ensures
        r == is_white(c),
{
    let n = c as u32;
    (0x9 <= n && n <= 0xd) || n == 0x20 || n == 0x85 || n == 0xa0 || n == 0x1680 || (0x2000 <= n
        && n <= 0x200a) || n == 0x2028 || n == 0x2029 || n == 0x202f || n == 0x205f || n == 0x3000
}

/// Every character of `s` is whitespace (so `s.trim()` is empty).
pub open spec fn all_white(s: Seq<char>) -> bool {
    forall|i: int| 0 <= i < s.len() ==> is_white(#[trigger] s[i])
}

/// Whether the text is empty once trimmed.
pub fn is_blank(s: &str) -> (r: bool)
    ensures
        r == all_white(s@),
{
    let v = chars_of(s);
    for i in 0..v.len()
        invariant
            v@ == s@,
            forall|j: int| 0 <= j < i ==> is_white(#[trigger] v@[j]),
    {
        if !is_whitespace(v[i]) {
            return false;
        }
    }
    true
}

/// Each run of whitespace replaced by one space, read from left to right:
/// a whitespace character adds a space unless the text so far already ends
/// in one.
pub open spec fn collapse_runs(s: Seq<char>) -> Seq<char>
    decreases s.len(),
{
    if s.len() == 0 {
        seq![]
    } else {
        let p = collapse_runs(s.drop_last());
        let c = s.last();
        if is_white(c) {
            if p.len() > 0 && p.last() == ' ' {
                p
            } else {
                p.push(' ')
            }
        } else {
            p.push(c)
        }
    }
}

/// `s` without its leading whitespace.
pub open spec fn trim_start(s: Seq<char>) -> Seq<char>
    decreases s.len(),
{
    if s.len() > 0 && is_white(s[0]) {
        trim_start(s.drop_first())
    } else {
        s
    }
}

/// `s` without its trailing whitespace.
pub open spec fn trim_end(s: Seq<char>) -> Seq<char>
    decreases s.len(),
{
    if s.len() > 0 && is_white(s.last()) {
        trim_end(s.drop_last())
    } else {
        s
    }
}

/// `s` without leading and trailing whitespace, as `str::trim` gives it.
pub open spec fn trim_white(s: Seq<char>) -> Seq<char> {
    trim_end(trim_start(s))
}

/// The text with every run of whitespace made one space, then trimmed.
pub open spec fn squeeze_spaces(s: Seq<char>) -> Seq<char> {
    trim_white(collapse_runs(s))
}

/// Text in the shape that squeezing gives: every whitespace character is a
/// plain space, no two spaces are adjacent, and there is no space at
/// either end.
pub open spec fn is_squeezed(t: Seq<char>) -> bool {
    &&& forall|i: int| 0 <= i < t.len() && is_white(#[trigger] t[i]) ==> t[i] == ' '
    &&& forall|i: int| 0 <= i < t.len() - 1 && #[trigger] t[i] == ' ' ==> t[i + 1] != ' '
    &&& t.len() > 0 ==> !is_white(t[0]) && !is_white(t.last())
}

proof fn lemma_collapse_runs_shape(s: Seq<char>)
    ensures
        forall|i: int|
            0 <= i < collapse_runs(s).len() && is_white(#[trigger] collapse_runs(s)[i]) ==> collapse_runs(
                s,
            )[i] == ' ',
        forall|i: int|
            0 <= i < collapse_runs(s).len() - 1 && #[trigger] collapse_runs(s)[i] == ' ' ==> collapse_runs(
                s,
            )[i + 1] != ' ',
    decreases s.len(),
{
    if s.len() > 0 {
        lemma_collapse_runs_shape(s.drop_last());
        let p = collapse_runs(s.drop_last());
        let c = collapse_runs(s);
        assert forall|i: int| 0 <= i < c.len() && is_white(#[trigger] c[i]) implies c[i] == ' ' by {
            if i < p.len() {
                assert(c[i] == p[i]);
            }
        }
        assert forall|i: int| 0 <= i < c.len() - 1 && #[trigger] c[i] == ' ' implies c[i + 1] != ' ' by {
            if i + 1 < p.len() {
                assert(c[i] == p[i] && c[i + 1] == p[i + 1]);
            } else {
                assert(c[i] == p[i]);
                assert(p.last() == p[i]);
            }
        }
    }
}

proof fn lemma_trim_start_suffix(s: Seq<char>)
    ensures
        exists|k: int| 0 <= k <= s.len() && trim_start(s) == s.subrange(k, s.len() as int),
        trim_start(s).len() > 0 ==> !is_white(trim_start(s)[0]),
    decreases s.len(),
{
    if s.len() > 0 && is_white(s[0]) {
        lemma_trim_start_suffix(s.drop_first());
        let k = choose|k: int|
            0 <= k <= s.drop_first().len() && trim_start(s.drop_first()) == s.drop_first().subrange(
                k,
                s.drop_first().len() as int,
            );
        assert(s.drop_first().subrange(k, s.drop_first().len() as int) =~= s.subrange(k + 1, s.len() as int));
    } else {
        assert(s.subrange(0, s.len() as int) =~= s);
    }
}

proof fn lemma_trim_end_prefix(s: Seq<char>)
    ensures
        exists|k: int| 0 <= k <= s.len() && trim_end(s) == s.subrange(0, k),
        trim_end(s).len() > 0 ==> !is_white(trim_end(s).last()),
    decreases s.len(),
{
    if s.len() > 0 && is_white(s.last()) {
        lemma_trim_end_prefix(s.drop_last());
        let k = choose|k: int| 0 <= k <= s.drop_last().len() && trim_end(s.drop_last()) == s.drop_last().subrange(0, k);
        assert(s.drop_last().subrange(0, k) =~= s.subrange(0, k));
    } else {
        assert(s.subrange(0, s.len() as int) =~= s);
    }
}

proof fn lemma_collapse_runs_fixed(t: Seq<char>)
    requires
        forall|i: int| 0 <= i < t.len() && is_white(#[trigger] t[i]) ==> t[i] == ' ',
        forall|i: int| 0 <= i < t.len() - 1 && #[trigger] t[i] == ' ' ==> t[i + 1] != ' ',
    ensures
        collapse_runs(t) == t,
    decreases t.len(),
{
    if t.len() > 0 {
        let p = t.drop_last();
        assert forall|i: int| 0 <= i < p.len() && is_white(#[trigger] p[i]) implies p[i] == ' ' by {
            assert(p[i] == t[i]);
        }
        assert forall|i: int| 0 <= i < p.len() - 1 && #[trigger] p[i] == ' ' implies p[i + 1] != ' ' by {
            assert(p[i] == t[i] && p[i + 1] == t[i + 1]);
        }
        lemma_collapse_runs_fixed(p);
        if is_white(t.last()) && p.len() > 0 {
            assert(t[t.len() - 1] == ' ');
            assert(p.last() == t[t.len() - 2]);
        }
        assert(t =~= p.push(t.last()));
    }
}

/// Squeezing gives text with single spaces between words and none at the
/// ends, and squeezing that again changes nothing.
pub proof fn squeeze_is_clean_and_stable(s: Seq<char>)
    ensures
        is_squeezed(squeeze_spaces(s)),
        squeeze_spaces(squeeze_spaces(s)) == squeeze_spaces(s),
{
    let c = collapse_runs(s);
    lemma_collapse_runs_shape(s);
    let a = trim_start(c);
    lemma_trim_start_suffix(c);
    let k1 = choose|k: int| 0 <= k <= c.len() && a == c.subrange(k, c.len() as int);
    let t = trim_end(a);
    lemma_trim_end_prefix(a);
    let k2 = choose|k: int| 0 <= k <= a.len() && t == a.subrange(0, k);
    assert forall|i: int| 0 <= i < t.len() implies #[trigger] t[i] == c[i + k1] by {
        assert(t[i] == a[i]);
    }
    assert forall|i: int| 0 <= i < t.len() && is_white(#[trigger] t[i]) implies t[i] == ' ' by {
        assert(t[i] == c[i + k1]);
    }
    assert forall|i: int| 0 <= i < t.len() - 1 && #[trigger] t[i] == ' ' implies t[i + 1] != ' ' by {
        assert(t[i] == c[i + k1] && t[i + 1] == c[i + 1 + k1]);
    }
    if t.len() > 0 {
        assert(t[0] == a[0]);
    }
    assert(is_squeezed(t));
    lemma_collapse_runs_fixed(t);
    if t.len() > 0 {
        assert(trim_start(t) == t);
        assert(trim_end(t) == t);
    } else {
        assert(trim_start(t) == t);
        assert(trim_end(t) == t);
    }
}

/// Trims the characters `v[..]` at both ends.
pub fn trimmed(v: &Vec<char>) -> (r: String)
    ensures
        r@ == trim_white(v@),
{
    let n = v.len();
    let mut start: usize = 0;
    assert(v@.subrange(0, n as int) == v@);
    while start < n && is_whitespace(v[start])
        invariant
            start <= n == v.len(),
            trim_start(v@) == trim_start(v@.subrange(start as int, n as int)),
        decreases n - start,
    {
        assert(v@.subrange(start as int, n as int).drop_first() == v@.subrange(
            start + 1,
            n as int,
        ));
        start = start + 1;
    }
    let mut end: usize = n;
    assert(trim_start(v@) == v@.subrange(start as int, n as int));
    while end > start && is_whitespace(v[end - 1])
        invariant
            start <= end <= n == v.len(),
            trim_start(v@) == v@.subrange(start as int, n as int),
            trim_white(v@) == trim_end(v@.subrange(start as int, end as int)),
        decreases end - start,
    {
        assert(v@.subrange(start as int, end as int).drop_last() == v@.subrange(
            start as int,
            end - 1,
        ));
        end = end - 1;
    }
    string_from_range(v, start, end)
}

/// Collapses runs of whitespace into single spaces and trims the result.
pub fn collapse_whitespace(s: &str) -> (r: String)
    ensures
        r@ == squeeze_spaces(s@),
{
    let v = chars_of(s);
    let mut cleaned: Vec<char> = Vec::new();
    let mut last_was_space = false;
    for i in 0..v.len()
        invariant
            v@ == s@,
            cleaned@ == collapse_runs(v@.take(i as int)),
            last_was_space == (cleaned@.len() > 0 && cleaned@.last() == ' '),
    {
        let ch = v[i];
        assert(v@.take(i + 1).drop_last() == v@.take(i as int));
        if is_whitespace(ch) {
            if !last_was_space {
                cleaned.push(' ');
                last_was_space = true;
            }
        } else {
            cleaned.push(ch);
            last_was_space = false;
        }
    }
    assert(v@.take(v@.len() as int) == v@);
    trimmed(&cleaned)
}

/// The part of a language tag before the first `-` or `_` (the whole tag
/// when it has neither), read from left to right.
pub open spec fn tag_prefix(s: Seq<char>) -> Seq<char>
    decreases s.len(),
{
    if s.len() == 0 {
        seq![]
    } else {
        let p = tag_prefix(s.drop_last());
        if p.len() == s.len() - 1 && s.last() != '-' && s.last() != '_' {
            p.push(s.last())
        } else {
            p
        }
    }
}

/// The primary subtag of a language tag, lower-cased: `"pt-BR"` gives `"pt"`.
pub open spec fn lang_prefix(lang: Seq<char>) -> Seq<char> {
    tag_prefix(lowercase(lang))
}

/// Lowering ASCII letters keeps `-` and `_` where they are and turns no
/// other character into either, so the primary subtag of the lowered tag is
/// the lowered primary subtag.
pub proof fn lemma_tag_prefix_ascii_lowered(s: Seq<char>)
    ensures
        tag_prefix(ascii_lowered(s)) == ascii_lowered(tag_prefix(s)),
    decreases s.len(),
{
    if s.len() > 0 {
        let t = ascii_lowered(s);
        assert(t.drop_last() =~= ascii_lowered(s.drop_last()));
        lemma_tag_prefix_ascii_lowered(s.drop_last());
        let p = tag_prefix(s.drop_last());
        assert(t.last() == ascii_lower(s.last()));
        assert(ascii_lower(s.last()) == '-' <==> s.last() == '-');
        assert(ascii_lower(s.last()) == '_' <==> s.last() == '_');
        assert(ascii_lowered(p.push(s.last())) =~= ascii_lowered(p).push(ascii_lower(s.last())));
    } else {
        assert(ascii_lowered(s) =~= seq![]);
        assert(ascii_lowered(tag_prefix(s)) =~= seq![]);
    }
}

/// Only a letter and its upper-case form lower to that letter.
proof fn lemma_ascii_lower_to(c: char, low: char, up: char)
    requires
        'a' as u32 <= low as u32 <= 'z' as u32,
        up as u32 == low as u32 - 32,
        ascii_lower(c) == low,
    ensures
        c == low || c == up,
{
    if 'A' as u32 <= c as u32 <= 'Z' as u32 {
        assert(c as u32 + 32 == low as u32);
        assert(c as u32 == up as u32);
    }
}

/// For an ASCII tag, which table applies depends on its primary subtag
/// alone, read without regard to ASCII case: Portuguese exactly when the
/// part before the first `-` or `_` is `pt`, `PT`, `Pt` or `pT`.
pub proof fn ascii_tag_selects_by_primary_subtag(lang: Seq<char>)
    ensures
        is_pt(tag_prefix(ascii_lowered(lang))) <==> is_pt(ascii_lowered(tag_prefix(lang))),
        is_pt(tag_prefix(ascii_lowered(lang))) <==> (tag_prefix(lang).len() == 2 && (tag_prefix(lang)[0]
            == 'p' || tag_prefix(lang)[0] == 'P') && (tag_prefix(lang)[1] == 't' || tag_prefix(lang)[1]
            == 'T')),
{
    lemma_tag_prefix_ascii_lowered(lang);
    let p = tag_prefix(lang);
    assert(ascii_lowered(p).len() == p.len());
    if p.len() == 2 {
        let q = ascii_lowered(p);
        assert(q[0] == ascii_lower(p[0]) && q[1] == ascii_lower(p[1]));
        if (p[0] == 'p' || p[0] == 'P') && (p[1] == 't' || p[1] == 'T') {
            assert(ascii_lower('P') == 'p');
            assert(ascii_lower('T') == 't');
            assert(ascii_lower('p') == 'p');
            assert(ascii_lower('t') == 't');
            assert(q =~= seq!['p', 't']);
        }
        if is_pt(q) {
            assert(q[0] == 'p' && q[1] == 't');
            lemma_ascii_lower_to(p[0], 'p', 'P');
            lemma_ascii_lower_to(p[1], 't', 'T');
        }
    }
}

/// Returns the lower-cased tag and its primary subtag.
pub fn lang_prefix_of(lang: &str) -> (r: (String, String))
    ensures
        r.0@ == lowercase(lang@),
        r.1@ == lang_prefix(lang@),
        all_ascii(lang@) ==> r.0@ == ascii_lowered(lang@) && r.1@ == tag_prefix(ascii_lowered(lang@)),
{
    let lower = to_lowercase(lang);
    let v = chars_of(lower.as_str());
    let mut prefix: Vec<char> = Vec::new();
    let mut done = false;
    for i in 0..v.len()
        invariant
            v@ == lowercase(lang@),
            prefix@ == tag_prefix(v@.take(i as int)),
            done == (prefix@.len() < i),
            prefix@.len() <= i,
    {
        assert(v@.take(i + 1).drop_last() == v@.take(i as int));
        if !done {
            let c = v[i];
            if c == '-' || c == '_' {
                done = true;
            } else {
                prefix.push(c);
            }
        }
    }
    assert(v@.take(v@.len() as int) == v@);
    (lower, string_from(&prefix))
}

/// The fields of a text separated by `sep`, as `str::split` gives them
/// (an empty text has one empty field), read from left to right.
pub open spec fn split_fields(s: Seq<char>, sep: char) -> Seq<Seq<char>>
    decreases s.len(),
{
    if s.len() == 0 {
        seq![seq![]]
    } else {
        let p = split_fields(s.drop_last(), sep);
        if s.last() == sep {
            p.push(seq![])
        } else {
            p.update(p.len() - 1, p.last().push(s.last()))
        }
    }
}

pub proof fn lemma_split_fields_nonempty(s: Seq<char>, sep: char)
    ensures
        split_fields(s, sep).len() >= 1,
    decreases s.len(),
{
    if s.len() > 0 {
        lemma_split_fields_nonempty(s.drop_last(), sep);
    }
}

/// Splits a text at each `sep`.
pub fn split_at_char(s: &str, sep: char) -> (r: Vec<String>)
    ensures
        r@.len() == split_fields(s@, sep).len(),
        forall|i: int| 0 <= i < r@.len() ==> (#[trigger] r@[i])@ == split_fields(s@, sep)[i],
{
    let v = chars_of(s);
    let mut done: Vec<String> = Vec::new();
    let mut field: Vec<char> = Vec::new();
    for i in 0..v.len()
        invariant
            v@ == s@,
            split_fields(v@.take(i as int), sep).len() == done@.len() + 1,
            forall|k: int| 0 <= k < done@.len() ==> (#[trigger] done@[k])@ == split_fields(v@.take(i as int), sep)[k],
            field@ == split_fields(v@.take(i as int), sep).last(),
    {
        let ghost before = split_fields(v@.take(i as int), sep);
        assert(v@.take(i + 1).drop_last() =~= v@.take(i as int));
        assert(v@.take(i + 1).last() == v@[i as int]);
        let ghost after = split_fields(v@.take(i + 1), sep);
        if v[i] == sep {
            let f = string_from(&field);
            done.push(f);
            field = Vec::new();
            proof {
                assert(after == before.push(seq![]));
                assert forall|k: int| 0 <= k < done@.len() implies (#[trigger] done@[k])@ == after[k] by {
                    if k < done@.len() - 1 {
                        assert(after[k] == before[k]);
                    } else {
                        assert(after[k] == before.last());
                    }
                }
                assert(field@ =~= after.last());
            }
        } else {
            field.push(v[i]);
            proof {
                assert(after == before.update(before.len() - 1, before.last().push(v@[i as int])));
                assert forall|k: int| 0 <= k < done@.len() implies (#[trigger] done@[k])@ == after[k] by {
                    assert(after[k] == before[k]);
                }
            }
        }
    }
    assert(v@.take(v@.len() as int) =~= v@);
    let last = string_from(&field);
    let ghost before_push = done@;
    done.push(last);
    proof {
        let fs = split_fields(v@, sep);
        assert forall|k: int| 0 <= k < done@.len() implies (#[trigger] done@[k])@ == fs[k] by {
            if k < before_push.len() {
                assert(done@[k] == before_push[k]);
            } else {
                assert(fs[k] == fs.last());
            }
        }
    }
    done
}

/// Whether a character separates path components: `/`, and on Windows
/// also a backslash.
pub open spec fn is_path_separator(c: char, windows: bool) -> bool {
    c == '/' || (windows && c == '\\')
}

/// A bare Windows drive such as `C:`, after which `PathBuf::push` adds no
/// separator.
pub open spec fn is_bare_drive(dir: Seq<char>) -> bool {
    dir.len() == 2 && (('a' as u32 <= dir[0] as u32 <= 'z' as u32) || ('A' as u32 <= dir[0] as u32
        <= 'Z' as u32)) && dir[1] == ':'
}

/// A relative name appended to a directory path, as `PathBuf::push` does:
/// the platform's separator (a backslash on Windows, `/` elsewhere) goes in between
/// unless the directory is empty, already ends in a separator, or is a bare
/// Windows drive.
pub open spec fn joined_path(dir: Seq<char>, name: Seq<char>, windows: bool) -> Seq<char> {
    if dir.len() == 0 || is_path_separator(dir.last(), windows) || (windows && is_bare_drive(dir)) {
        dir + name
    } else {
        dir + seq![if windows { '\\' } else { '/' }] + name
    }
}

/// Appends a relative name to a directory path.
pub fn join_path(dir: &str, name: &str, windows: bool) -> (r: String)
    ensures
        r@ == joined_path(dir@, name@, windows),
{
    let v = chars_of(dir);
    let n = v.len();
    let ends_in_separator = n > 0 && (v[n - 1] == '/' || (windows && v[n - 1] == '\\'));
    let bare_drive = n == 2 && ((('a' as u32) <= (v[0] as u32) && (v[0] as u32) <= ('z' as u32)) || (('A' as u32)
        <= (v[0] as u32) && (v[0] as u32) <= ('Z' as u32))) && v[1] == ':';
    let mut r = String::from_str(dir);
    if n > 0 && !ends_in_separator && !(windows && bare_drive) {
        if windows {
            r.push('\\');
        } else {
            r.push('/');
        }
    }
    append_str(&mut r, name);
    proof {
        if n > 0 {
            assert(v@.last() == v@[n - 1]);
        }
    }
    r
}

/// Whether the characters are exactly `"pt"`.
pub open spec fn is_pt(s: Seq<char>) -> bool {
    s == seq!['p', 't']
}

pub fn check_pt(s: &str) -> (r: bool)
    ensures
        r == is_pt(s@),
{
    let v = chars_of(s);
    let r = v.len() == 2 && v[0] == 'p' && v[1] == 't';
    if r {
        assert(v@ =~= seq!['p', 't']);
    }
    r
}

/// The decimal digit character for `d` (0 to 9).
pub open spec fn digit_char(d: int) -> char {
    if d == 0 {
        '0'
    } else if d == 1 {
        '1'
    } else if d == 2 {
        '2'
    } else if d == 3 {
        '3'
    } else if d == 4 {
        '4'
    } else if d == 5 {
        '5'
    } else if d == 6 {
        '6'
    } else if d == 7 {
        '7'
    } else if d == 8 {
        '8'
    } else {
        '9'
    }
}

/// The decimal digits of a natural number, most significant first, without
/// leading zeros.
pub open spec fn digits(n: nat) -> Seq<char>
    decreases n,
{
    if n < 10 {
        seq![digit_char(n as int)]
    } else {
        digits(n / 10).push(digit_char((n % 10) as int))
    }
}

/// An integer as `format!("{}")` writes it: a minus sign for negative
/// numbers, then the decimal digits of the magnitude.
pub open spec fn decimal(n: int) -> Seq<char> {
    if n < 0 {
        seq!['-'] + digits((-n) as nat)
    } else {
        digits(n as nat)
    }
}

fn digit(d: u64) -> (c: char)
    requires
        d < 10,
    ensures
        c == digit_char(d as int),
{
    if d == 0 {
        '0'
    } else if d == 1 {
        '1'
    } else if d == 2 {
        '2'
    } else if d == 3 {
        '3'
    } else if d == 4 {
        '4'
    } else if d == 5 {
        '5'
    } else if d == 6 {
        '6'
    } else if d == 7 {
        '7'
    } else if d == 8 {
        '8'
    } else {
        '9'
    }
}

/// Renders an integer in decimal.
pub fn decimal_string(n: i64) -> (s: String)
    ensures
        s@ == decimal(n as int),
{
    let negative = n < 0;
    let wide: i128 = n as i128;
    let mag: u64 = if negative {
        (-wide) as u64
    } else {
        n as u64
    };
    let mut m: u64 = mag;
    let mut out: Vec<char> = Vec::new();
    loop
        invariant_except_break
            digits(mag as nat) == digits(m as nat) + out@,
        ensures
            digits(mag as nat) == out@,
        decreases m,
    {
        let d = m % 10;
        let c = digit(d);
        let ghost old_out = out@;
        out.insert(0, c);
        if m < 10 {
            assert(digits(m as nat) == seq![c]);
            assert(digits(mag as nat) =~= out@);
            break ;
        }
        assert(digits(m as nat) == digits((m / 10) as nat).push(c));
        assert(digits((m / 10) as nat) + out@ =~= digits((m / 10) as nat).push(c) + old_out);
        m = m / 10;
    }
    assert(negative ==> mag as int == -(n as int));
    assert(!negative ==> mag as int == n as int);
    let mut s = String::new();
    if negative {
        s.push('-');
    }
    let tail = string_from(&out);
    append_str(&mut s, tail.as_str());
    if negative {
        assert(s@ =~= seq!['-'] + digits(mag as nat));
    } else {
        assert(s@ =~= digits(mag as nat));
    }
    s
}

} // verus!
