//! Expands abbreviations before text is spoken ("vc" becomes "você", "idk"
//! becomes "I don't know"): one replacement table per language, compiled
//! into a single case-insensitive regex whose alternatives respect word
//! boundaries and try longer keys first.
use vstd::prelude::*;
use vstd::string::*;
use crate::keyorder::{key_before, key_views, sort_keys};
use crate::pattern::{escape, escaped, regex_accepts, replaced_matches, PatternMatcher};
use crate::table::{pairs_map, StringMap};
use crate::keyorder::lemma_key_order;
use crate::text::{
    all_ascii, alphanumeric, ascii_lowered, chars_of, check_pt, collapse_whitespace, is_alphanumeric,
    is_pt, is_squeezed, lang_prefix, lang_prefix_of, lowercase, squeeze_spaces,
    squeeze_is_clean_and_stable, string_from, tag_prefix, to_lowercase,
};

verus! {

/// Replacement tables, keyed by the abbreviation, for Portuguese and for
/// English (which also serves every other language).
pub struct ReplacementsConfig {
    pub pt: StringMap,
    pub en: StringMap,
}

impl ReplacementsConfig {
    /// Empty tables.
    pub fn new() -> (r: Self)
        ensures
            r.pt@ == Map::<Seq<char>, Seq<char>>::empty(),
            r.en@ == Map::<Seq<char>, Seq<char>>::empty(),
    {
        ReplacementsConfig { pt: StringMap::new(), en: StringMap::new() }
    }
}

impl Default for ReplacementsConfig {
    fn default() -> (r: Self)
        ensures
            r.pt@ == Map::<Seq<char>, Seq<char>>::empty(),
            r.en@ == Map::<Seq<char>, Seq<char>>::empty(),
    {
        ReplacementsConfig::new()
    }
}

/// The key starts with a letter or digit, so its pattern starts with `\b`.
pub open spec fn word_start(k: Seq<char>) -> bool {
    k.len() > 0 && alphanumeric(k[0])
}

/// The key ends with a letter or digit, so its pattern ends with `\b`.
pub open spec fn word_end(k: Seq<char>) -> bool {
    k.len() > 0 && alphanumeric(k.last())
}

/// The regex alternative for one key: the key escaped, with a word
/// boundary on each side that begins or ends with a letter or digit.
pub open spec fn key_pattern(k: Seq<char>) -> Seq<char> {
    (if word_start(k) {
        seq!['\\', 'b']
    } else {
        seq![]
    }) + escaped(k) + (if word_end(k) {
        seq!['\\', 'b']
    } else {
        seq![]
    })
}

/// A key's alternative is the escaped key with a word boundary `\b` in
/// front exactly when the key begins with a letter or digit, and one behind
/// exactly when it ends with one: a key that begins with a letter or digit
/// matches only at the start of a word (never as the tail of a longer
/// word), and one that ends with a letter or digit only at a word's end.
pub proof fn key_alternatives_respect_word_boundaries(k: Seq<char>)
    ensures
        word_start(k) ==> key_pattern(k).len() >= 2 && key_pattern(k)[0] == '\\' && key_pattern(k)[1] == 'b',
        word_end(k) ==> key_pattern(k).len() >= 2 && key_pattern(k)[key_pattern(k).len() - 2] == '\\'
            && key_pattern(k)[key_pattern(k).len() - 1] == 'b',
        key_pattern(k).len() == escaped(k).len() + (if word_start(k) { 2int } else { 0int }) + (if word_end(k) {
            2int
        } else {
            0int
        }),
        key_pattern(k).subrange(
            if word_start(k) { 2int } else { 0int },
            (if word_start(k) { 2int } else { 0int }) + escaped(k).len(),
        ) == escaped(k),
{
    let pre: Seq<char> = if word_start(k) { seq!['\\', 'b'] } else { seq![] };
    let post: Seq<char> = if word_end(k) { seq!['\\', 'b'] } else { seq![] };
    assert(key_pattern(k) == pre + escaped(k) + post);
    assert((pre + escaped(k) + post).subrange(pre.len() as int, (pre.len() + escaped(k).len()) as int) =~= escaped(k));
    if word_start(k) {
        assert((pre + escaped(k) + post)[0] == pre[0]);
        assert((pre + escaped(k) + post)[1] == pre[1]);
    }
    if word_end(k) {
        let n = (pre + escaped(k) + post).len();
        assert((pre + escaped(k) + post)[n - 2] == post[0]);
        assert((pre + escaped(k) + post)[n - 1] == post[1]);
    }
}

/// The alternatives of the keys, in order, joined by `|`.
pub open spec fn alternation(keys: Seq<Seq<char>>) -> Seq<char>
    decreases keys.len(),
{
    if keys.len() == 0 {
        seq![]
    } else if keys.len() == 1 {
        key_pattern(keys[0])
    } else {
        alternation(keys.drop_last()) + seq!['|'] + key_pattern(keys.last())
    }
}

/// The whole pattern: `(?i)(?:` alternatives `)`.
pub open spec fn combined_pattern(keys: Seq<Seq<char>>) -> Seq<char> {
    seq!['(', '?', 'i', ')', '(', '?', ':'] + alternation(keys) + seq![')']
}

/// `low` is `raw` with lower-cased keys: every key of `raw` has its
/// lower-cased form in `low`, and each key of `low` comes, with its value,
/// from a key of `raw` (when two keys of `raw` differ only in case, either
/// value may be kept).
pub open spec fn lowered_from(raw: Map<Seq<char>, Seq<char>>, low: Map<Seq<char>, Seq<char>>) -> bool {
    &&& forall|k: Seq<char>| #[trigger] raw.contains_key(k) ==> low.contains_key(lowercase(k))
    &&& forall|q: Seq<char>|
        #[trigger] low.contains_key(q) ==> exists|k: Seq<char>|
            #[trigger] raw.contains_key(k) && lowercase(k) == q && low[q] == raw[k]
}

/// `keys` lists the keys of `dom`, each once, in the order they are tried.
pub open spec fn orders_keys(keys: Seq<Seq<char>>, dom: Set<Seq<char>>) -> bool {
    &&& forall|i: int| 0 <= i < keys.len() ==> dom.contains(#[trigger] keys[i])
    &&& forall|k: Seq<char>| #[trigger] dom.contains(k) ==> keys.contains(k)
    &&& forall|i: int, j: int| 0 <= i < j < keys.len() ==> key_before(#[trigger] keys[i], #[trigger] keys[j])
}

/// What compiling one language's table gives: nothing for an empty table;
/// otherwise the lower-cased table and the combined pattern of its keys, or
/// no pattern if the regex crate refuses it.
pub open spec fn compiled_rules(
    raw: Map<Seq<char>, Seq<char>>,
    table: Map<Seq<char>, Seq<char>>,
    pattern: Option<Seq<char>>,
) -> bool {
    if raw.dom().len() == 0 {
        table == Map::<Seq<char>, Seq<char>>::empty() && pattern is None
    } else {
        &&& lowered_from(raw, table)
        &&& exists|keys: Seq<Seq<char>>|
            #[trigger] orders_keys(keys, table.dom()) && pattern == (if regex_accepts(
                combined_pattern(keys),
            ) {
                Some(combined_pattern(keys))
            } else {
                None
            })
    }
}

/// The pattern a matcher holds, if any.
pub open spec fn pattern_of(m: Option<PatternMatcher>) -> Option<Seq<char>> {
    match m {
        Some(p) => Some(p.source()),
        None => None,
    }
}

/// A table laid over another: the second one's values win.
pub open spec fn overlaid(
    base: Map<Seq<char>, Seq<char>>,
    over: Option<Map<Seq<char>, Seq<char>>>,
) -> Map<Seq<char>, Seq<char>> {
    match over {
        Some(o) => base.union_prefer_right(o),
        None => base,
    }
}

/// The user's table over the defaults, for Portuguese.
pub open spec fn merged_pt(defaults: ReplacementsConfig, user: Option<ReplacementsConfig>) -> Map<
    Seq<char>,
    Seq<char>,
> {
    overlaid(
        defaults.pt@,
        match user {
            Some(u) => Some(u.pt@),
            None => None,
        },
    )
}

/// The user's table over the defaults, for English.
pub open spec fn merged_en(defaults: ReplacementsConfig, user: Option<ReplacementsConfig>) -> Map<
    Seq<char>,
    Seq<char>,
> {
    overlaid(
        defaults.en@,
        match user {
            Some(u) => Some(u.en@),
            None => None,
        },
    )
}

/// The text after normalization: with a pattern, every match replaced
/// through the table and whitespace squeezed; without one, unchanged.
pub open spec fn normalized(
    pattern: Option<Seq<char>>,
    table: Map<Seq<char>, Seq<char>>,
    text: Seq<char>,
) -> Seq<char> {
    match pattern {
        Some(p) => squeeze_spaces(replaced_matches(p, text, table)),
        None => text,
    }
}

/// Whenever a language has a pattern, normalized text has single spaces
/// between words and none at either end.
pub proof fn normalized_text_is_squeezed(
    pattern: Seq<char>,
    table: Map<Seq<char>, Seq<char>>,
    text: Seq<char>,
)
    ensures
        is_squeezed(normalized(Some(pattern), table, text)),
{
    squeeze_is_clean_and_stable(replaced_matches(pattern, text, table));
}

/// The alternative for one key.
fn key_pattern_of(k: &str) -> (r: Vec<char>)
    ensures
        r@ == key_pattern(k@),
{
    let kc = chars_of(k);
    let starts = kc.len() > 0 && is_alphanumeric(kc[0]);
    let ends = kc.len() > 0 && is_alphanumeric(kc[kc.len() - 1]);
    let esc = escape(k);
    let mut esc_chars = chars_of(esc.as_str());
    let mut out: Vec<char> = Vec::new();
    if starts {
        out.push('\\');
        out.push('b');
    }
    out.append(&mut esc_chars);
    if ends {
        out.push('\\');
        out.push('b');
    }
    proof {
        if kc@.len() > 0 {
            assert(kc@.last() == kc@[kc@.len() - 1]);
        }
    }
    assert(out@ =~= key_pattern(k@));
    out
}

/// The combined pattern of keys listed in order.
fn combined_pattern_of(keys: &Vec<String>) -> (r: String)
    ensures
        r@ == combined_pattern(key_views(keys@)),
{
    let ghost kv = key_views(keys@);
    let mut buf: Vec<char> = Vec::new();
    buf.push('(');
    buf.push('?');
    buf.push('i');
    buf.push(')');
    buf.push('(');
    buf.push('?');
    buf.push(':');
    let ghost head = buf@;
    assert(head =~= seq!['(', '?', 'i', ')', '(', '?', ':']);
    for i in 0..keys.len()
        invariant
            kv == key_views(keys@),
            head == seq!['(', '?', 'i', ')', '(', '?', ':'],
            buf@ == head + alternation(kv.take(i as int)),
    {
        let mut pat = key_pattern_of(keys[i].as_str());
        let ghost before = buf@;
        assert(kv[i as int] == keys@[i as int]@);
        assert(kv.take(i + 1).drop_last() =~= kv.take(i as int));
        assert(kv.take(i + 1).last() == kv[i as int]);
        if i > 0 {
            buf.push('|');
        }
        buf.append(&mut pat);
        if i == 0 {
            assert(kv.take(1)[0] == kv[0]);
            assert(alternation(kv.take(0)) =~= seq![]);
            assert(buf@ =~= head + alternation(kv.take(i + 1)));
        } else {
            assert(buf@ =~= head + alternation(kv.take(i + 1)));
        }
    }
    assert(kv.take(keys@.len() as int) =~= kv);
    buf.push(')');
    assert(buf@ =~= combined_pattern(kv));
    string_from(&buf)
}

/// `raw` with its keys lower-cased.
fn lowered_table(raw: &StringMap) -> (low: StringMap)
    ensures
        lowered_from(raw@, low@),
{
    proof {
        use_type_invariant(raw);
        raw.lemma_pairs();
    }
    let ghost ps = raw.pairs();
    let mut low = StringMap::new();
    let n = raw.len();
    for i in 0..n
        invariant
            n == ps.len(),
            ps == raw.pairs(),
            forall|j: int| 0 <= j < i ==> low@.contains_key(lowercase(#[trigger] ps[j].0)),
            forall|q: Seq<char>|
                #[trigger] low@.contains_key(q) ==> exists|j: int|
                    0 <= j < i && lowercase(#[trigger] ps[j].0) == q && low@[q] == ps[j].1,
    {
        let k = to_lowercase(raw.key_at(i).as_str());
        let v = raw.value_at(i).clone();
        let ghost old_low = low@;
        low.insert(k, v);
        proof {
            assert forall|q: Seq<char>| #[trigger] low@.contains_key(q) implies exists|j: int|
                0 <= j < i + 1 && lowercase(#[trigger] ps[j].0) == q && low@[q] == ps[j].1 by {
                if q == lowercase(ps[i as int].0) {
                    assert(low@[q] == ps[i as int].1);
                } else {
                    assert(old_low.contains_key(q));
                    let j = choose|j: int| 0 <= j < i && lowercase(#[trigger] ps[j].0) == q && old_low[q] == ps[j].1;
                    assert(low@[q] == ps[j].1);
                }
            }
        }
    }
    proof {
        assert forall|k: Seq<char>| #[trigger] raw@.contains_key(k) implies low@.contains_key(lowercase(k)) by {
            let j = choose|j: int| 0 <= j < ps.len() && (#[trigger] ps[j]).0 == k;
            assert(low@.contains_key(lowercase(ps[j].0)));
        }
        assert forall|q: Seq<char>| #[trigger] low@.contains_key(q) implies exists|k: Seq<char>|
            #[trigger] raw@.contains_key(k) && lowercase(k) == q && low@[q] == raw@[k] by {
            let j = choose|j: int| 0 <= j < n && lowercase(#[trigger] ps[j].0) == q && low@[q] == ps[j].1;
            let k = ps[j].0;
            assert(raw@.contains_key(k) && raw@[k] == ps[j].1);
        }
    }
    low
}

/// The keys of a map, in pair order.
fn keys_of(m: &StringMap) -> (ks: Vec<String>)
    ensures
        ks@.len() == m.pairs().len(),
        forall|i: int| 0 <= i < ks@.len() ==> (#[trigger] ks@[i])@ == m.pairs()[i].0,
{
    let mut ks: Vec<String> = Vec::new();
    let n = m.len();
    for i in 0..n
        invariant
            n == m.pairs().len(),
            ks@.len() == i,
            forall|j: int| 0 <= j < i ==> (#[trigger] ks@[j])@ == m.pairs()[j].0,
    {
        ks.push(m.key_at(i).clone());
    }
    ks
}

/// Compiles one language's table: lower-cases its keys, orders them, and
/// builds and compiles the combined pattern. An empty table gives no regex.
fn compile_lang_map(raw: &StringMap) -> (r: (Option<PatternMatcher>, StringMap))
    ensures
        compiled_rules(raw@, r.1@, pattern_of(r.0)),
{
    if raw.len() == 0 {
        return (None, StringMap::new());
    }
    let lookup = lowered_table(raw);
    proof {
        use_type_invariant(&lookup);
        lookup.lemma_pairs();
    }
    let keys = keys_of(&lookup);
    let sorted = sort_keys(&keys);
    let ghost kv = key_views(sorted@);
    proof {
        assert forall|i: int| 0 <= i < kv.len() implies lookup@.dom().contains(#[trigger] kv[i]) by {
            assert(kv[i] == sorted@[i]@);
            assert(key_views(keys@).contains(sorted@[i]@));
            let j = choose|j: int| 0 <= j < key_views(keys@).len() && key_views(keys@)[j] == sorted@[i]@;
            assert(keys@[j]@ == lookup.pairs()[j].0);
        }
        assert forall|k: Seq<char>| #[trigger] lookup@.dom().contains(k) implies kv.contains(k) by {
            assert(lookup@.contains_key(k));
            let j = choose|j: int| 0 <= j < lookup.pairs().len() && (#[trigger] lookup.pairs()[j]).0 == k;
            assert(keys@[j]@ == k);
            assert(key_views(sorted@).contains(keys@[j]@));
        }
        assert forall|i: int, j: int| 0 <= i < j < kv.len() implies key_before(#[trigger] kv[i], #[trigger] kv[j]) by {
            assert(kv[i] == sorted@[i]@ && kv[j] == sorted@[j]@);
        }
        assert(orders_keys(kv, lookup@.dom()));
    }
    let pattern = combined_pattern_of(&sorted);
    let matcher = match PatternMatcher::compile(pattern) {
        Ok(m) => Some(m),
        Err(_) => None,
    };
    (matcher, lookup)
}

/// Lays `extra` over `base`: its values win.
fn overlay(base: &mut StringMap, extra: &StringMap)
    ensures
        final(base)@ == old(base)@.union_prefer_right(extra@),
{
    let ghost start = base@;
    let ghost ps = extra.pairs();
    let n = extra.len();
    for i in 0..n
        invariant
            n == ps.len(),
            ps == extra.pairs(),
            base@ == start.union_prefer_right(pairs_map(ps.take(i as int))),
    {
        let k = extra.key_at(i).clone();
        let v = extra.value_at(i).clone();
        let ghost before = base@;
        base.insert(k, v);
        assert(ps.take(i + 1).drop_last() =~= ps.take(i as int));
        assert(ps.take(i + 1).last() == ps[i as int]);
        assert(base@ =~= start.union_prefer_right(pairs_map(ps.take(i + 1))));
    }
    proof {
        assert(ps.take(n as int) =~= ps);
        extra.lemma_pairs_map();
    }
}

/// Normalizes text with per-language replacement tables.
pub struct TextNormalizer {
    pt_regex: Option<PatternMatcher>,
    pt_map: StringMap,
    en_regex: Option<PatternMatcher>,
    en_map: StringMap,
}

/// An empty lower-cased table comes only from an empty table, which has no
/// pattern.
proof fn lemma_empty_table_has_no_pattern(
    raw: Map<Seq<char>, Seq<char>>,
    table: Map<Seq<char>, Seq<char>>,
    pattern: Option<Seq<char>>,
)
    requires
        compiled_rules(raw, table, pattern),
        table == Map::<Seq<char>, Seq<char>>::empty(),
    ensures
        pattern is None,
{
    if raw.dom().len() != 0 {
        if raw.dom() =~= Set::<Seq<char>>::empty() {
            assert(raw.dom().len() == 0);
        } else {
            let k = choose|k: Seq<char>| raw.dom().contains(k);
            assert(raw.contains_key(k));
            assert(table.contains_key(lowercase(k)));
        }
    }
}

/// A compiled table without a pattern is empty, or the regex crate refused
/// the combined pattern of its keys.
proof fn lemma_no_pattern_means_refused(
    raw: Map<Seq<char>, Seq<char>>,
    table: Map<Seq<char>, Seq<char>>,
)
    requires
        compiled_rules(raw, table, None),
        table != Map::<Seq<char>, Seq<char>>::empty(),
    ensures
        exists|keys: Seq<Seq<char>>| #[trigger]
            orders_keys(keys, table.dom()) && !regex_accepts(combined_pattern(keys)),
{
    if raw.dom().len() != 0 {
        let keys = choose|keys: Seq<Seq<char>>|
            #[trigger] orders_keys(keys, table.dom()) && None::<Seq<char>> == (if regex_accepts(
                combined_pattern(keys),
            ) {
                Some(combined_pattern(keys))
            } else {
                None
            });
        assert(orders_keys(keys, table.dom()) && !regex_accepts(combined_pattern(keys)));
    }
}

/// The table and pattern are what compiling some table gives.
pub open spec fn compiled_from_some_table(table: Map<Seq<char>, Seq<char>>, pattern: Option<Seq<char>>) -> bool {
    exists|raw: Map<Seq<char>, Seq<char>>| #[trigger] compiled_rules(raw, table, pattern)
}

impl TextNormalizer {
    /// Each language's table and pattern are what compiling some table
    /// gives.
    #[verifier::type_invariant]
    spec fn compiled_from_tables(self) -> bool {
        &&& compiled_from_some_table(self.pt_map@, pattern_of(self.pt_regex))
        &&& compiled_from_some_table(self.en_map@, pattern_of(self.en_regex))
    }

    /// Whether the language's table has entries but no pattern, because the
    /// regex crate refused the combined pattern; text in that language is
    /// then given back unchanged.
    pub fn pattern_refused(&self, pt: bool) -> (r: bool)
        ensures
            r == (self.pattern(pt) is None && self.table(pt) != Map::<Seq<char>, Seq<char>>::empty()),
            r ==> exists|keys: Seq<Seq<char>>| #[trigger]
                orders_keys(keys, self.table(pt).dom()) && !regex_accepts(combined_pattern(keys)),
    {
        proof {
            use_type_invariant(self);
        }
        let (re, map) = if pt {
            (&self.pt_regex, &self.pt_map)
        } else {
            (&self.en_regex, &self.en_map)
        };
        proof {
            use_type_invariant(map);
            map.lemma_pairs();
            let raw = choose|raw: Map<Seq<char>, Seq<char>>| #[trigger] compiled_rules(raw, map@, pattern_of(*re));
            if map.pairs().len() == 0 {
                assert(map@ =~= Map::<Seq<char>, Seq<char>>::empty());
            } else {
                assert(map@.contains_key(map.pairs()[0].0));
            }
            if re.is_none() && map@ != Map::<Seq<char>, Seq<char>>::empty() {
                lemma_no_pattern_means_refused(raw, map@);
            }
        }
        re.is_none() && map.len() != 0
    }

    /// The compiled pattern for Portuguese (`pt`) or for other languages.
    pub closed spec fn pattern(self, pt: bool) -> Option<Seq<char>> {
        if pt {
            pattern_of(self.pt_regex)
        } else {
            pattern_of(self.en_regex)
        }
    }

    /// The lower-cased replacement table for Portuguese (`pt`) or for other
    /// languages.
    pub closed spec fn table(self, pt: bool) -> Map<Seq<char>, Seq<char>> {
        if pt {
            self.pt_map@
        } else {
            self.en_map@
        }
    }

    /// Builds a normalizer from the built-in tables and, when there is one,
    /// the user's tables, whose entries override the built-in ones.
    pub fn load(defaults: ReplacementsConfig, user: Option<ReplacementsConfig>) -> (r: Self)
        ensures
            compiled_rules(merged_pt(defaults, user), r.table(true), r.pattern(true)),
            compiled_rules(merged_en(defaults, user), r.table(false), r.pattern(false)),
    {
        let ghost d = defaults;
        let ghost u = user;
        let mut config = defaults;
        match &user {
            Some(user_cfg) => {
                overlay(&mut config.pt, &user_cfg.pt);
                overlay(&mut config.en, &user_cfg.en);
            },
            None => {},
        }
        assert(config.pt@ == merged_pt(d, u));
        assert(config.en@ == merged_en(d, u));
        let (pt_regex, pt_map) = Self::compile_lang_map(&config.pt);
        let (en_regex, en_map) = Self::compile_lang_map(&config.en);
        assert(compiled_from_some_table(pt_map@, pattern_of(pt_regex))) by {
            assert(compiled_rules(config.pt@, pt_map@, pattern_of(pt_regex)));
        }
        assert(compiled_from_some_table(en_map@, pattern_of(en_regex))) by {
            assert(compiled_rules(config.en@, en_map@, pattern_of(en_regex)));
        }
        let r = TextNormalizer { pt_regex, pt_map, en_regex, en_map };
        assert(r.pt_map@ == pt_map@);
        r
    }

    fn compile_lang_map(raw: &StringMap) -> (r: (Option<PatternMatcher>, StringMap))
        ensures
            compiled_rules(raw@, r.1@, pattern_of(r.0)),
    {
        compile_lang_map(raw)
    }

    /// Expands the abbreviations of the language's table (Portuguese for a
    /// tag whose primary subtag is `pt`, English otherwise) and squeezes
    /// whitespace; text for a language without a pattern comes back as it is.
    pub fn normalize(&self, text: &str, lang: &str) -> (r: String)
        ensures
            r@ == normalized(
                self.pattern(is_pt(lang_prefix(lang@))),
                self.table(is_pt(lang_prefix(lang@))),
                text@,
            ),
            all_ascii(lang@) ==> r@ == normalized(
                self.pattern(is_pt(tag_prefix(ascii_lowered(lang@)))),
                self.table(is_pt(tag_prefix(ascii_lowered(lang@)))),
                text@,
            ),
            self.table(is_pt(lang_prefix(lang@))) == Map::<Seq<char>, Seq<char>>::empty() ==> r@ == text@,
    {
        let (_lower, prefix) = lang_prefix_of(lang);
        let pt = check_pt(prefix.as_str());
        proof {
            use_type_invariant(self);
            if self.table(pt) == Map::<Seq<char>, Seq<char>>::empty() {
                if pt {
                    let raw = choose|raw: Map<Seq<char>, Seq<char>>| #[trigger]
                        compiled_rules(raw, self.pt_map@, pattern_of(self.pt_regex));
                    lemma_empty_table_has_no_pattern(raw, self.pt_map@, pattern_of(self.pt_regex));
                } else {
                    let raw = choose|raw: Map<Seq<char>, Seq<char>>| #[trigger]
                        compiled_rules(raw, self.en_map@, pattern_of(self.en_regex));
                    lemma_empty_table_has_no_pattern(raw, self.en_map@, pattern_of(self.en_regex));
                }
            }
        }
        let (re, map) = if pt {
            (&self.pt_regex, &self.pt_map)
        } else {
            (&self.en_regex, &self.en_map)
        };
        match re {
            None => String::from_str(text),
            Some(m) => {
                let replaced = m.replace_all(text, map);
                collapse_whitespace(replaced.as_str())
            },
        }
    }
}

/// Replaces the shared normalizer with one freshly built from the tables,
/// so that edits to the user's table take effect.
pub fn reload_normalizer(
    current: &mut TextNormalizer,
    defaults: ReplacementsConfig,
    user: Option<ReplacementsConfig>,
)
    ensures
        compiled_rules(merged_pt(defaults, user), final(current).table(true), final(current).pattern(true)),
        compiled_rules(merged_en(defaults, user), final(current).table(false), final(current).pattern(false)),
{
    *current = TextNormalizer::load(defaults, user);
}

/// Normalizes with the shared normalizer when it can be read, and gives the
/// text back unchanged when it cannot.
pub fn normalize_text(normalizer: Option<&TextNormalizer>, text: &str, lang: &str) -> (r: String)
    ensures
        r@ == match normalizer {
            Some(n) => normalized(
                n.pattern(is_pt(lang_prefix(lang@))),
                n.table(is_pt(lang_prefix(lang@))),
                text@,
            ),
            None => text@,
        },
        normalizer matches Some(n) && n.table(is_pt(lang_prefix(lang@))) == Map::<Seq<char>, Seq<char>>::empty()
            ==> r@ == text@,
        all_ascii(lang@) ==> r@ == match normalizer {
            Some(n) => normalized(
                n.pattern(is_pt(tag_prefix(ascii_lowered(lang@)))),
                n.table(is_pt(tag_prefix(ascii_lowered(lang@)))),
                text@,
            ),
            None => text@,
        },
{
    match normalizer {
        Some(n) => n.normalize(text, lang),
        None => String::from_str(text),
    }
}

/// A table with no entries compiles to no pattern: text in that language
/// comes back exactly as it was given, not even squeezed.
pub proof fn empty_table_leaves_text_unchanged(
    raw: Map<Seq<char>, Seq<char>>,
    table: Map<Seq<char>, Seq<char>>,
    pattern: Option<Seq<char>>,
    text: Seq<char>,
)
    requires
        raw == Map::<Seq<char>, Seq<char>>::empty(),
        compiled_rules(raw, table, pattern),
    ensures
        pattern is None,
        normalized(pattern, table, text) == text,
{
    assert(raw.dom() =~= Set::<Seq<char>>::empty());
}

/// A normalizer loaded from tables that are empty once the user's entries
/// are laid over the built-in ones gives every text back unchanged, in
/// every language.
pub proof fn empty_tables_leave_every_text_unchanged(
    n: TextNormalizer,
    defaults: ReplacementsConfig,
    user: Option<ReplacementsConfig>,
    text: Seq<char>,
    lang: Seq<char>,
)
    requires
        compiled_rules(merged_pt(defaults, user), n.table(true), n.pattern(true)),
        compiled_rules(merged_en(defaults, user), n.table(false), n.pattern(false)),
        merged_pt(defaults, user) == Map::<Seq<char>, Seq<char>>::empty(),
        merged_en(defaults, user) == Map::<Seq<char>, Seq<char>>::empty(),
    ensures
        normalized(n.pattern(is_pt(lang_prefix(lang))), n.table(is_pt(lang_prefix(lang))), text) == text,
{
    empty_table_leaves_text_unchanged(merged_pt(defaults, user), n.table(true), n.pattern(true), text);
    empty_table_leaves_text_unchanged(merged_en(defaults, user), n.table(false), n.pattern(false), text);
}

/// Two orderings of the same keys, each strictly ascending in the order in
/// which keys are tried, are the same sequence.
proof fn lemma_key_orderings_agree(a: Seq<Seq<char>>, b: Seq<Seq<char>>)
    requires
        forall|i: int, j: int| 0 <= i < j < a.len() ==> key_before(#[trigger] a[i], #[trigger] a[j]),
        forall|i: int, j: int| 0 <= i < j < b.len() ==> key_before(#[trigger] b[i], #[trigger] b[j]),
        forall|i: int| 0 <= i < a.len() ==> b.contains(#[trigger] a[i]),
        forall|i: int| 0 <= i < b.len() ==> a.contains(#[trigger] b[i]),
    ensures
        a == b,
    decreases a.len(),
{
    if a.len() == 0 {
        if b.len() > 0 {
            assert(a.contains(b[0]));
        }
        assert(a =~= b);
    } else if b.len() == 0 {
        assert(b.contains(a[0]));
    } else {
        assert(b.contains(a[0]));
        let j = choose|j: int| 0 <= j < b.len() && b[j] == a[0];
        assert(a.contains(b[0]));
        let i = choose|i: int| 0 <= i < a.len() && a[i] == b[0];
        lemma_key_order(a[0], a[0]);
        if j > 0 {
            assert(key_before(b[0], b[j]));
            if i > 0 {
                assert(key_before(a[0], a[i]));
                lemma_key_order(a[0], a[i]);
            }
        }
        assert(b[0] == a[0]);
        let a1 = a.drop_first();
        let b1 = b.drop_first();
        assert forall|x: int| 0 <= x < a1.len() implies b1.contains(#[trigger] a1[x]) by {
            assert(a1[x] == a[x + 1]);
            assert(b.contains(a[x + 1]));
            let m = choose|m: int| 0 <= m < b.len() && b[m] == a[x + 1];
            assert(key_before(a[0], a[x + 1]));
            lemma_key_order(a[0], a[0]);
            assert(m != 0);
            assert(b1[m - 1] == b[m]);
        }
        assert forall|x: int| 0 <= x < b1.len() implies a1.contains(#[trigger] b1[x]) by {
            assert(b1[x] == b[x + 1]);
            assert(a.contains(b[x + 1]));
            let m = choose|m: int| 0 <= m < a.len() && a[m] == b[x + 1];
            assert(key_before(b[0], b[x + 1]));
            lemma_key_order(b[0], b[0]);
            assert(m != 0);
            assert(a1[m - 1] == a[m]);
        }
        assert forall|x: int, y: int| 0 <= x < y < a1.len() implies key_before(#[trigger] a1[x], #[trigger] a1[y]) by {
            assert(a1[x] == a[x + 1] && a1[y] == a[y + 1]);
        }
        assert forall|x: int, y: int| 0 <= x < y < b1.len() implies key_before(#[trigger] b1[x], #[trigger] b1[y]) by {
            assert(b1[x] == b[x + 1] && b1[y] == b[y + 1]);
        }
        lemma_key_orderings_agree(a1, b1);
        assert(a =~= seq![a[0]] + a1);
        assert(b =~= seq![b[0]] + b1);
    }
}

/// No two keys of the table differ only in case.
pub open spec fn case_distinct_keys(raw: Map<Seq<char>, Seq<char>>) -> bool {
    forall|a: Seq<char>, b: Seq<char>|
        #[trigger] raw.contains_key(a) && #[trigger] raw.contains_key(b) && lowercase(a) == lowercase(b)
            ==> a == b
}

/// When no two keys of a table differ only in case, compiling it has one
/// outcome: any two results that `compiled_rules` admits are the same
/// lower-cased table with the same pattern.
pub proof fn compiled_rules_are_unique(
    raw: Map<Seq<char>, Seq<char>>,
    table1: Map<Seq<char>, Seq<char>>,
    pattern1: Option<Seq<char>>,
    table2: Map<Seq<char>, Seq<char>>,
    pattern2: Option<Seq<char>>,
)
    requires
        case_distinct_keys(raw),
        compiled_rules(raw, table1, pattern1),
        compiled_rules(raw, table2, pattern2),
    ensures
        table1 == table2,
        pattern1 == pattern2,
{
    if raw.dom().len() != 0 {
        assert forall|q: Seq<char>| #[trigger] table1.contains_key(q) implies table2.contains_key(q)
            && table2[q] == table1[q] by {
            let k = choose|k: Seq<char>| #[trigger] raw.contains_key(k) && lowercase(k) == q && table1[q] == raw[k];
            assert(table2.contains_key(lowercase(k)));
            let k2 = choose|k2: Seq<char>|
                #[trigger] raw.contains_key(k2) && lowercase(k2) == q && table2[q] == raw[k2];
            assert(raw.contains_key(k) && raw.contains_key(k2));
        }
        assert forall|q: Seq<char>| #[trigger] table2.contains_key(q) implies table1.contains_key(q) by {
            let k = choose|k: Seq<char>| #[trigger] raw.contains_key(k) && lowercase(k) == q && table2[q] == raw[k];
            assert(table1.contains_key(lowercase(k)));
        }
        assert(table1 =~= table2);
        let keys1 = choose|keys: Seq<Seq<char>>|
            #[trigger] orders_keys(keys, table1.dom()) && pattern1 == (if regex_accepts(
                combined_pattern(keys),
            ) {
                Some(combined_pattern(keys))
            } else {
                None
            });
        let keys2 = choose|keys: Seq<Seq<char>>|
            #[trigger] orders_keys(keys, table2.dom()) && pattern2 == (if regex_accepts(
                combined_pattern(keys),
            ) {
                Some(combined_pattern(keys))
            } else {
                None
            });
        assert forall|i: int| 0 <= i < keys1.len() implies keys2.contains(#[trigger] keys1[i]) by {
            assert(table2.dom().contains(keys1[i]));
        }
        assert forall|i: int| 0 <= i < keys2.len() implies keys1.contains(#[trigger] keys2[i]) by {
            assert(table1.dom().contains(keys2[i]));
        }
        lemma_key_orderings_agree(keys1, keys2);
    }
}

/// Reloading gives the normalizer a fresh load would give: two normalizers
/// built from the same tables, whose keys do not differ only in case,
/// normalize every text in every language alike.
pub proof fn reload_matches_fresh_load(
    reloaded: TextNormalizer,
    fresh: TextNormalizer,
    defaults: ReplacementsConfig,
    user: Option<ReplacementsConfig>,
    text: Seq<char>,
    lang: Seq<char>,
)
    requires
        case_distinct_keys(merged_pt(defaults, user)),
        case_distinct_keys(merged_en(defaults, user)),
        compiled_rules(merged_pt(defaults, user), reloaded.table(true), reloaded.pattern(true)),
        compiled_rules(merged_en(defaults, user), reloaded.table(false), reloaded.pattern(false)),
        compiled_rules(merged_pt(defaults, user), fresh.table(true), fresh.pattern(true)),
        compiled_rules(merged_en(defaults, user), fresh.table(false), fresh.pattern(false)),
    ensures
        normalized(
            reloaded.pattern(is_pt(lang_prefix(lang))),
            reloaded.table(is_pt(lang_prefix(lang))),
            text,
        ) == normalized(fresh.pattern(is_pt(lang_prefix(lang))), fresh.table(is_pt(lang_prefix(lang))), text),
{
    compiled_rules_are_unique(
        merged_pt(defaults, user),
        reloaded.table(true),
        reloaded.pattern(true),
        fresh.table(true),
        fresh.pattern(true),
    );
    compiled_rules_are_unique(
        merged_en(defaults, user),
        reloaded.table(false),
        reloaded.pattern(false),
        fresh.table(false),
        fresh.pattern(false),
    );
}

} // verus!
