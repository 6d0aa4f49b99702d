use vstd::prelude::*;

use std::collections::HashMap;

use crate::text::chars_of;

verus! {

/// The order of Rust's `str`: lexicographic by character. (`str` compares its
/// UTF-8 bytes, and UTF-8 keeps the order of code points.)
pub open spec fn key_lt(a: Seq<char>, b: Seq<char>) -> bool
    decreases a.len(),
{
    if a.len() == 0 {
        b.len() > 0
    } else if b.len() == 0 {
        false
    } else if (a[0] as int) < (b[0] as int) {
        true
    } else if a[0] == b[0] {
        key_lt(a.drop_first(), b.drop_first())
    } else {
        false
    }
}

proof fn lemma_key_lt_irreflexive(a: Seq<char>)
    ensures
        !key_lt(a, a),
    decreases a.len(),
{
    if a.len() > 0 {
        lemma_key_lt_irreflexive(a.drop_first());
    }
}

proof fn lemma_key_lt_asymmetric(a: Seq<char>, b: Seq<char>)
    ensures
        key_lt(a, b) ==> !key_lt(b, a),
    decreases a.len(),
{
    if a.len() > 0 && b.len() > 0 && a[0] == b[0] {
        lemma_key_lt_asymmetric(a.drop_first(), b.drop_first());
    }
}

proof fn lemma_key_lt_total(a: Seq<char>, b: Seq<char>)
    ensures
        a != b ==> key_lt(a, b) || key_lt(b, a),
    decreases a.len(),
{
    if a.len() == 0 && b.len() == 0 {
        assert(a =~= b);
    } else if a.len() > 0 && b.len() > 0 && a[0] == b[0] {
        lemma_key_lt_total(a.drop_first(), b.drop_first());
        if a.drop_first() == b.drop_first() {
            assert(a =~= seq![a[0]] + a.drop_first());
            assert(b =~= seq![b[0]] + b.drop_first());
        }
    }
}

proof fn lemma_key_lt_transitive(a: Seq<char>, b: Seq<char>, c: Seq<char>)
    ensures
        key_lt(a, b) && key_lt(b, c) ==> key_lt(a, c),
    decreases a.len(),
{
    if a.len() > 0 && b.len() > 0 && c.len() > 0 {
        lemma_key_lt_transitive(a.drop_first(), b.drop_first(), c.drop_first());
    }
}

/// `key_lt` is a strict total order.
pub proof fn lemma_key_lt_order(a: Seq<char>, b: Seq<char>, c: Seq<char>)
    ensures
        !key_lt(a, a),
        key_lt(a, b) ==> !key_lt(b, a),
        a != b ==> key_lt(a, b) || key_lt(b, a),
        key_lt(a, b) && key_lt(b, c) ==> key_lt(a, c),
{
    lemma_key_lt_irreflexive(a);
    lemma_key_lt_asymmetric(a, b);
    lemma_key_lt_total(a, b);
    lemma_key_lt_transitive(a, b, c);
}

/// Whether `a` sorts before `b` in the order of Rust's `str`.
pub fn str_lt(a: &str, b: &str) -> (r: bool)
    ensures
        r == key_lt(a@, b@),
{
    let x = chars_of(a);
    let y = chars_of(b);
    let mut i: usize = 0;
    assert(x@.skip(0) =~= x@);
    assert(y@.skip(0) =~= y@);
    while i < x.len() && i < y.len()
        invariant
            i <= x@.len(),
            i <= y@.len(),
            key_lt(a@, b@) == key_lt(x@.skip(i as int), y@.skip(i as int)),
        decreases x.len() - i,
    {
        assert(x@.skip(i as int).drop_first() =~= x@.skip(i + 1));
        assert(y@.skip(i as int).drop_first() =~= y@.skip(i + 1));
        assert(x@.skip(i as int)[0] == x@[i as int]);
        assert(y@.skip(i as int)[0] == y@[i as int]);
        if x[i] < y[i] {
            return true;
        }
        if x[i] != y[i] {
            return false;
        }
        i = i + 1;
    }
    x.len() - i == 0 && y.len() - i > 0
}


/// The map that an association list stands for: each pair `(k, v)` maps `k`
/// to `f(v)`, a later pair replacing an earlier one with the same key.
pub open spec fn assoc<V, W>(s: Seq<(String, V)>, f: spec_fn(V) -> W) -> Map<Seq<char>, W>
    decreases s.len(),
{
    if s.len() == 0 {
        Map::empty()
    } else {
        assoc(s.drop_last(), f).insert(s.last().0@, f(s.last().1))
    }
}

/// The text of a `String`.
pub open spec fn text_view() -> spec_fn(String) -> Seq<char> {
    |v: String| v@
}

/// A list of text pairs as a map from text to text.
pub open spec fn text_map(s: Seq<(String, String)>) -> Map<Seq<char>, Seq<char>> {
    assoc(s, text_view())
}

/// The translations of a list of text pairs.
pub open spec fn entries_view() -> spec_fn(Vec<(String, String)>) -> Map<Seq<char>, Seq<char>> {
    |v: Vec<(String, String)>| text_map(v@)
}

/// A list of languages with their translation lists as a map.
pub open spec fn lang_map(s: Seq<(String, Vec<(String, String)>)>) -> Map<
    Seq<char>,
    Map<Seq<char>, Seq<char>>,
> {
    assoc(s, entries_view())
}

/// A key is in the map of an association list exactly when some pair has it.
pub proof fn lemma_assoc_dom<V, W>(s: Seq<(String, V)>, f: spec_fn(V) -> W, k: Seq<char>)
    ensures
        assoc(s, f).contains_key(k) <==> exists|i: int| 0 <= i < s.len() && #[trigger] s[i].0@ == k,
    decreases s.len(),
{
    if s.len() > 0 {
        let p = s.drop_last();
        lemma_assoc_dom(p, f, k);
        if assoc(s, f).contains_key(k) && s.last().0@ != k {
            let i = choose|i: int| 0 <= i < p.len() && #[trigger] p[i].0@ == k;
            assert(s[i].0@ == k);
        }
        if exists|i: int| 0 <= i < s.len() && #[trigger] s[i].0@ == k {
            let i = choose|i: int| 0 <= i < s.len() && #[trigger] s[i].0@ == k;
            if i < s.len() - 1 {
                assert(p[i].0@ == k);
            }
        }
    }
}

/// A key maps to the value of the last pair that has it.
pub proof fn lemma_assoc_last<V, W>(s: Seq<(String, V)>, f: spec_fn(V) -> W, i: int)
    requires
        0 <= i < s.len(),
        forall|j: int| i < j < s.len() ==> s[j].0@ != s[i].0@,
    ensures
        assoc(s, f).contains_key(s[i].0@),
        assoc(s, f)[s[i].0@] == f(s[i].1),
    decreases s.len(),
{
    if i < s.len() - 1 {
        let p = s.drop_last();
        assert(s[s.len() - 1].0@ != s[i].0@);
        assert(p[i] == s[i]);
        lemma_assoc_last(p, f, i);
    }
}

/// Position of the last pair of `s` whose key is `k`, if any.
fn find_key<V>(s: &Vec<(String, V)>, k: &String) -> (r: Option<usize>)
    ensures
        match r {
            Some(i) => i < s@.len() && s@[i as int].0@ == k@ && (forall|j: int|
                i < j < s@.len() ==> s@[j].0@ != k@),
            None => forall|j: int| 0 <= j < s@.len() ==> s@[j].0@ != k@,
        },
{
    let mut i: usize = s.len();
    while i > 0
        invariant
            i <= s@.len(),
            forall|j: int| i <= j < s@.len() ==> s@[j].0@ != k@,
        decreases i,
    {
        if s[i - 1].0 == *k {
            return Some(i - 1);
        }
        i = i - 1;
    }
    None
}


/// The map from text to text that `serde_json` reads from a JSON document, or
/// `None` when the document is not a JSON object whose values are all strings.
pub uninterp spec fn json_string_map(text: Seq<char>) -> Option<Map<Seq<char>, Seq<char>>>;

/// Whether no two pairs of `s` have the same key.
pub open spec fn distinct_keys(s: Seq<(String, String)>) -> bool {
    forall|i: int, j: int| 0 <= i < j < s.len() ==> #[trigger] s[i].0@ != #[trigger] s[j].0@
}

/// Calls `serde_json::from_str::<HashMap<String, String>>` and lists the pairs
/// of the map it returns. Claims that the call succeeds exactly when
/// `json_string_map` is `Some`, and that the list holds each key of that map
/// once (a hash map's keys are distinct), with its value. The order of the
/// list is the hash map's and is not stated.
#[verifier::external_body]
fn parse_string_map(text: &str) -> (r: Option<Vec<(String, String)>>)
    ensures
        r is Some <==> json_string_map(text@) is Some,
        r matches Some(v) ==> text_map(v@) == json_string_map(text@).unwrap() && distinct_keys(v@),
{
    match serde_json::from_str::<HashMap<String, String>>(text) {
        Ok(m) => Some(m.into_iter().collect()),
        Err(_) => None,
    }
}

/// Collects the pairs, whose keys are distinct, into a `HashMap<String, String>`
/// and calls `serde_json::to_string_pretty` on it. Claims that serialising a
/// map of strings to strings always succeeds (`None` is never returned), and
/// that `serde_json` reads the text back as the same map. The order of the
/// keys in the text is the hash map's, so the text itself is not stated.
#[verifier::external_body]
fn string_map_to_pretty_json(entries: &Vec<(String, String)>) -> (r: Option<String>)
    requires
        distinct_keys(entries@),
    ensures
        r is Some,
        r matches Some(t) ==> json_string_map(t@) == Some(text_map(entries@)),
{
    let m: HashMap<String, String> = entries.iter().cloned().collect();
    serde_json::to_string_pretty(&m).ok()
}

/// What `key` translates to: its entry in the current language, else its entry
/// in English (`en`), else the key itself.
pub open spec fn translation(
    langs: Map<Seq<char>, Map<Seq<char>, Seq<char>>>,
    current: Seq<char>,
    key: Seq<char>,
) -> Seq<char> {
    if langs.contains_key(current) && langs[current].contains_key(key) {
        langs[current][key]
    } else if langs.contains_key("en"@) && langs["en"@].contains_key(key) {
        langs["en"@][key]
    } else {
        key
    }
}

/// The languages of a set of translation documents `(file stem, JSON text)`:
/// each document that is a JSON object of strings is the language named by
/// its stem, a later document replacing an earlier one of the same stem.
pub open spec fn loaded_langs(docs: Seq<(String, String)>) -> Map<
    Seq<char>,
    Map<Seq<char>, Seq<char>>,
>
    decreases docs.len(),
{
    if docs.len() == 0 {
        Map::empty()
    } else {
        let m = loaded_langs(docs.drop_last());
        match json_string_map(docs.last().1@) {
            Some(t) => m.insert(docs.last().0@, t),
            None => m,
        }
    }
}

/// The display names of the languages of a set of translation documents: the
/// value of the key `__lang_name` of each document that has it.
pub open spec fn loaded_names(docs: Seq<(String, String)>) -> Map<Seq<char>, Seq<char>>
    decreases docs.len(),
{
    if docs.len() == 0 {
        Map::empty()
    } else {
        let m = loaded_names(docs.drop_last());
        match json_string_map(docs.last().1@) {
            Some(t) => if t.contains_key("__lang_name"@) {
                m.insert(docs.last().0@, t["__lang_name"@])
            } else {
                m
            },
            None => m,
        }
    }
}

/// Whether some string of `keys` has the text `t`.
pub open spec fn lists(keys: Seq<String>, t: Seq<char>) -> bool {
    exists|i: int| 0 <= i < keys.len() && #[trigger] keys[i]@ == t
}

/// A strictly ascending list of keys whose set is the domain of `m`.
pub open spec fn lists_keys_of<V>(keys: Seq<String>, m: Map<Seq<char>, V>) -> bool {
    &&& forall|i: int, j: int| 0 <= i < j < keys.len() ==> key_lt(keys[i]@, keys[j]@)
    &&& forall|k: Seq<char>| #[trigger] m.contains_key(k) <==> lists(keys, k)
}

/// Inserting `k` at `j` adds exactly the text of `k` to the texts listed.
proof fn lemma_insert_lists(before: Seq<String>, j: int, k: String)
    requires
        0 <= j <= before.len(),
    ensures
        forall|t: Seq<char>| #[trigger] lists(before.insert(j, k), t) <==> (t == k@ || lists(before, t)),
{
    let after = before.insert(j, k);
    assert forall|t: Seq<char>| lists(after, t) implies (t == k@ || lists(before, t)) by {
        let i = choose|i: int| 0 <= i < after.len() && #[trigger] after[i]@ == t;
        if i < j {
            assert(before[i]@ == t);
        } else if i > j {
            assert(before[i - 1]@ == t);
        }
    }
    assert forall|t: Seq<char>| (t == k@ || lists(before, t)) implies lists(after, t) by {
        if t == k@ {
            assert(after[j]@ == t);
        } else {
            let i = choose|i: int| 0 <= i < before.len() && #[trigger] before[i]@ == t;
            if i < j {
                assert(after[i]@ == t);
            } else {
                assert(after[i + 1]@ == t);
            }
        }
    }
}

/// Inserting `k` after the keys below it and before the keys above it keeps a
/// list strictly ascending.
proof fn lemma_insert_sorted(before: Seq<String>, j: int, k: String)
    requires
        0 <= j <= before.len(),
        forall|a: int, b: int| 0 <= a < b < before.len() ==> key_lt(before[a]@, before[b]@),
        forall|a: int| 0 <= a < j ==> key_lt(#[trigger] before[a]@, k@),
        j < before.len() ==> key_lt(k@, before[j]@),
    ensures
        forall|a: int, b: int|
            0 <= a < b < before.insert(j, k).len() ==> key_lt(
                before.insert(j, k)[a]@,
                before.insert(j, k)[b]@,
            ),
{
    let after = before.insert(j, k);
    assert forall|m: int| j <= m < before.len() implies key_lt(k@, #[trigger] before[m]@) by {
        if m > j {
            lemma_key_lt_order(k@, before[j]@, before[m]@);
        }
    }
    assert forall|a: int, b: int| 0 <= a < b < after.len() implies key_lt(after[a]@, after[b]@) by {
        if b < j {
        } else if b == j {
        } else if a < j {
            lemma_key_lt_order(after[a]@, k@, after[b]@);
        } else if a == j {
        } else {
        }
    }
}

/// Inserts `k` into a strictly ascending list, unless it is there already.
fn insert_sorted(out: &mut Vec<String>, k: String)
    requires
        forall|i: int, j: int| 0 <= i < j < old(out)@.len() ==> key_lt(old(out)@[i]@, old(out)@[j]@),
    ensures
        forall|i: int, j: int| 0 <= i < j < final(out)@.len() ==> key_lt(final(out)@[i]@, final(out)@[j]@),
        forall|t: Seq<char>| #[trigger] lists(final(out)@, t) <==> (t == k@ || lists(old(out)@, t)),
{
    let mut j: usize = 0;
    while j < out.len() && str_lt(out[j].as_str(), k.as_str())
        invariant
            j <= out@.len(),
            out@ == old(out)@,
            forall|i: int| 0 <= i < j ==> key_lt(#[trigger] out@[i]@, k@),
        decreases out.len() - j,
    {
        j = j + 1;
    }
    if j < out.len() && out[j] == k {
        assert(out@[j as int]@ == k@);
        return ;
    }
    proof {
        if j < out@.len() {
            lemma_key_lt_order(out@[j as int]@, k@, k@);
        }
        lemma_insert_lists(out@, j as int, k);
        lemma_insert_sorted(out@, j as int, k);
    }
    out.insert(j, k);
}

/// A strictly ascending list that lists exactly the keys of `m` has as many
/// entries as `m` has keys.
proof fn lemma_listed_keys_count<V>(keys: Seq<String>, m: Map<Seq<char>, V>)
    requires
        lists_keys_of(keys, m),
    ensures
        keys.len() == m.dom().len(),
{
    let texts = keys.map_values(|s: String| s@);
    assert forall|a: int, b: int| 0 <= a < b < texts.len() implies texts[a] != texts[b] by {
        lemma_key_lt_order(keys[a]@, keys[b]@, keys[b]@);
    }
    assert(texts.no_duplicates());
    texts.unique_seq_to_set();
    assert forall|t: Seq<char>| #[trigger] texts.to_set().contains(t) <==> m.dom().contains(t) by {
        if texts.to_set().contains(t) {
            let i = choose|i: int| 0 <= i < texts.len() && texts[i] == t;
            assert(keys[i]@ == t);
            assert(lists(keys, t));
        }
        if m.dom().contains(t) {
            assert(lists(keys, t));
            let i = choose|i: int| 0 <= i < keys.len() && #[trigger] keys[i]@ == t;
            assert(texts[i] == t);
        }
    }
    assert(texts.to_set() =~= m.dom());
}

/// Translation tables for the user interface, with a current language.
pub struct I18n {
    current: String,
    data: Vec<(String, Vec<(String, String)>)>,
    display_names: Vec<(String, String)>,
}

impl I18n {
    /// The translation list of each language has each key once.
    #[verifier::type_invariant]
    spec fn well_formed(self) -> bool {
        forall|i: int| 0 <= i < self.data@.len() ==> #[trigger] distinct_keys(self.data@[i].1@)
    }

    /// The current language.
    pub closed spec fn current_lang(&self) -> Seq<char> {
        self.current@
    }

    /// Each language with its translations.
    pub closed spec fn langs(&self) -> Map<Seq<char>, Map<Seq<char>, Seq<char>>> {
        lang_map(self.data@)
    }

    /// The human-readable names of languages.
    pub closed spec fn display_names(&self) -> Map<Seq<char>, Seq<char>> {
        text_map(self.display_names@)
    }

    /// Tables built from translation documents `(file stem, JSON text)`: every
    /// document that is a JSON object of strings becomes the language named by
    /// its stem, with the value of its key `__lang_name` as display name. The
    /// default language is added, empty and named by itself, where missing, and
    /// becomes the current language.
    pub fn from_documents(docs: &Vec<(String, String)>, default: &str) -> (r: Self)
        ensures
            r.current_lang() == default@,
            r.langs() == (if loaded_langs(docs@).contains_key(default@) {
                loaded_langs(docs@)
            } else {
                loaded_langs(docs@).insert(default@, Map::empty())
            }),
            r.display_names() == (if loaded_names(docs@).contains_key(default@) {
                loaded_names(docs@)
            } else {
                loaded_names(docs@).insert(default@, default@)
            }),
    {
        let mut data: Vec<(String, Vec<(String, String)>)> = Vec::new();
        let mut display_names: Vec<(String, String)> = Vec::new();
        let name_key = "__lang_name".to_owned();
        let mut d: usize = 0;
        while d < docs.len()
            invariant
                d <= docs@.len(),
                name_key@ == "__lang_name"@,
                lang_map(data@) == loaded_langs(docs@.take(d as int)),
                text_map(display_names@) == loaded_names(docs@.take(d as int)),
                forall|i: int| 0 <= i < data@.len() ==> #[trigger] distinct_keys(data@[i].1@),
            decreases docs.len() - d,
        {
            assert(docs@.take(d + 1).drop_last() =~= docs@.take(d as int));
            assert(docs@.take(d + 1).last() == docs@[d as int]);
            let ghost data0 = data@;
            let ghost names0 = display_names@;
            let stem = &docs[d].0;
            if let Some(entries) = parse_string_map(docs[d].1.as_str()) {
                match find_key(&entries, &name_key) {
                    Some(j) => {
                        proof {
                            lemma_assoc_last(entries@, text_view(), j as int);
                        }
                        display_names.push((stem.clone(), entries[j].1.clone()));
                    },
                    None => {
                        proof {
                            lemma_assoc_dom(entries@, text_view(), name_key@);
                        }
                    },
                }
                data.push((stem.clone(), entries));
                assert(data@.drop_last() =~= data0);
                assert(display_names@.len() > names0.len() ==> display_names@.drop_last() =~= names0);
            }
            d = d + 1;
        }
        assert(docs@.take(docs.len() as int) =~= docs@);
        let default_lang = default.to_owned();
        let ghost data0 = data@;
        let ghost names0 = display_names@;
        proof {
            lemma_assoc_dom(data0, entries_view(), default_lang@);
            lemma_assoc_dom(names0, text_view(), default_lang@);
        }
        if find_key(&data, &default_lang).is_none() {
            let empty: Vec<(String, String)> = Vec::new();
            assert(distinct_keys(empty@));
            data.push((default.to_owned(), empty));
            assert(data@.drop_last() =~= data0);
            assert(text_map(empty@) =~= Map::<Seq<char>, Seq<char>>::empty());
        }
        if find_key(&display_names, &default_lang).is_none() {
            display_names.push((default.to_owned(), default.to_owned()));
            assert(display_names@.drop_last() =~= names0);
        }
        I18n { current: default_lang, data, display_names }
    }

    /// Looks up the translation list of `lang`.
    fn find_lang(&self, lang: &String) -> (r: Option<usize>)
        ensures
            match r {
                Some(i) => i < self.data@.len() && self.langs().contains_key(lang@)
                    && self.langs()[lang@] == text_map(self.data@[i as int].1@),
                None => !self.langs().contains_key(lang@),
            },
    {
        let r = find_key(&self.data, lang);
        proof {
            lemma_assoc_dom(self.data@, entries_view(), lang@);
            if let Some(i) = r {
                lemma_assoc_last(self.data@, entries_view(), i as int);
            }
        }
        r
    }

    /// The languages available, in ascending order.
    pub fn available_langs(&self) -> (v: Vec<String>)
        ensures
            lists_keys_of(v@, self.langs()),
            key_texts(v@) == lang_order(self.langs()),
    {
        let mut v: Vec<String> = Vec::new();
        let mut i: usize = 0;
        while i < self.data.len()
            invariant
                i <= self.data@.len(),
                forall|a: int, b: int| 0 <= a < b < v@.len() ==> key_lt(v@[a]@, v@[b]@),
                forall|t: Seq<char>| #[trigger] lists(v@, t) <==> exists|m: int|
                    0 <= m < i && #[trigger] self.data@[m].0@ == t,
            decreases self.data.len() - i,
        {
            let ghost v0 = v@;
            insert_sorted(&mut v, self.data[i].0.clone());
            assert forall|t: Seq<char>| #[trigger] lists(v@, t) <==> exists|m: int|
                0 <= m < i + 1 && #[trigger] self.data@[m].0@ == t by {
                if lists(v@, t) && t != self.data@[i as int].0@ {
                    assert(lists(v0, t));
                }
            }
            i = i + 1;
        }
        assert forall|t: Seq<char>| #[trigger] self.langs().contains_key(t) <==> lists(v@, t) by {
            lemma_assoc_dom(self.data@, entries_view(), t);
        }
        proof {
            let k = key_texts(v@);
            assert forall|a: int, b: int| 0 <= a < b < k.len() implies key_lt(#[trigger] k[a], #[trigger] k[b]) by {
                assert(k[a] == v@[a]@ && k[b] == v@[b]@);
            }
            assert forall|t: Seq<char>| #[trigger] k.contains(t) <==> #[trigger] self.langs().contains_key(t) by {
                if k.contains(t) {
                    let a = choose|a: int| 0 <= a < k.len() && k[a] == t;
                    assert(v@[a]@ == t);
                    assert(lists(v@, t));
                }
                if self.langs().contains_key(t) {
                    assert(lists(v@, t));
                    let a = choose|a: int| 0 <= a < v@.len() && #[trigger] v@[a]@ == t;
                    assert(k[a] == t);
                }
            }
            lemma_lang_order(k, self.langs());
        }
        v
    }

    /// The languages available with their display names (the language itself
    /// where it has none), in ascending order of language.
    pub fn available_langs_with_display(&self) -> (v: Vec<(String, String)>)
        ensures
            first_texts(v@) == lang_order(self.langs()),
            v@.len() == self.langs().dom().len(),
            forall|i: int, j: int| 0 <= i < j < v@.len() ==> key_lt(v@[i].0@, v@[j].0@),
            forall|t: Seq<char>| #[trigger] self.langs().contains_key(t) <==> exists|i: int|
                0 <= i < v@.len() && #[trigger] v@[i].0@ == t,
            forall|i: int|
                0 <= i < v@.len() ==> #[trigger] v@[i].1@ == (if self.display_names().contains_key(
                    v@[i].0@,
                ) {
                    self.display_names()[v@[i].0@]
                } else {
                    v@[i].0@
                }),
    {
        let langs = self.available_langs();
        let mut v: Vec<(String, String)> = Vec::new();
        let mut i: usize = 0;
        while i < langs.len()
            invariant
                i <= langs@.len(),
                v@.len() == i,
                forall|m: int| 0 <= m < i ==> #[trigger] v@[m].0 == langs@[m],
                forall|m: int|
                    0 <= m < i ==> #[trigger] v@[m].1@ == (if self.display_names().contains_key(
                        v@[m].0@,
                    ) {
                        self.display_names()[v@[m].0@]
                    } else {
                        v@[m].0@
                    }),
            decreases langs.len() - i,
        {
            let k = langs[i].clone();
            let display = match find_key(&self.display_names, &k) {
                Some(j) => {
                    proof {
                        lemma_assoc_last(self.display_names@, text_view(), j as int);
                    }
                    self.display_names[j].1.clone()
                },
                None => {
                    proof {
                        lemma_assoc_dom(self.display_names@, text_view(), k@);
                    }
                    k.clone()
                },
            };
            v.push((k, display));
            i = i + 1;
        }
        proof {
            lemma_listed_keys_count(langs@, self.langs());
            assert forall|t: Seq<char>| #[trigger] self.langs().contains_key(t) implies exists|i: int|
                0 <= i < v@.len() && #[trigger] v@[i].0@ == t by {
                let i = choose|i: int| 0 <= i < langs@.len() && #[trigger] langs@[i]@ == t;
                assert(v@[i].0@ == t);
            }
            assert forall|t: Seq<char>| (exists|i: int| 0 <= i < v@.len() && #[trigger] v@[i].0@ == t)
                implies #[trigger] self.langs().contains_key(t) by {
                let i = choose|i: int| 0 <= i < v@.len() && #[trigger] v@[i].0@ == t;
                assert(langs@[i]@ == t);
                assert(lists(langs@, t));
            }
            assert(first_texts(v@) =~= key_texts(langs@));
        }
        v
    }

    /// Makes `lang` the current language if it is available; returns whether it is.
    pub fn set_lang(&mut self, lang: &str) -> (ok: bool)
        ensures
            ok == old(self).langs().contains_key(lang@),
            final(self).current_lang() == (if ok { lang@ } else { old(self).current_lang() }),
            final(self).langs() == old(self).langs(),
            final(self).display_names() == old(self).display_names(),
    {
        let l = lang.to_owned();
        proof {
            use_type_invariant(&*self);
        }
        if self.find_lang(&l).is_some() {
            self.current = l;
            true
        } else {
            false
        }
    }

    /// The entry of `key` in the language at position `i` of the tables.
    fn entry_of(&self, i: usize, key: &String) -> (r: Option<String>)
        requires
            i < self.data@.len(),
        ensures
            match r {
                Some(v) => text_map(self.data@[i as int].1@).contains_key(key@) && v@ == text_map(
                    self.data@[i as int].1@,
                )[key@],
                None => !text_map(self.data@[i as int].1@).contains_key(key@),
            },
    {
        let entries = &self.data[i].1;
        let r = find_key(entries, key);
        proof {
            lemma_assoc_dom(entries@, text_view(), key@);
        }
        match r {
            Some(j) => {
                proof {
                    lemma_assoc_last(entries@, text_view(), j as int);
                }
                Some(entries[j].1.clone())
            },
            None => None,
        }
    }

    /// The translation of `key`: its entry in the current language, else in
    /// English, else the key itself.
    pub fn t(&self, key: &str) -> (r: String)
        ensures
            r@ == translation(self.langs(), self.current_lang(), key@),
    {
        let k = key.to_owned();
        if let Some(i) = self.find_lang(&self.current) {
            if let Some(v) = self.entry_of(i, &k) {
                return v;
            }
        }
        let en = "en".to_owned();
        if let Some(i) = self.find_lang(&en) {
            if let Some(v) = self.entry_of(i, &k) {
                return v;
            }
        }
        k
    }

    /// The translations of `lang` as pretty-printed JSON, a text that reads
    /// back as exactly those translations; `None` when the language is not
    /// available.
    pub fn lang_json(&self, lang: &str) -> (r: Option<String>)
        ensures
            r is Some <==> self.langs().contains_key(lang@),
            r matches Some(t) ==> json_string_map(t@) == Some(self.langs()[lang@]),
    {
        let l = lang.to_owned();
        proof {
            use_type_invariant(self);
        }
        match self.find_lang(&l) {
            Some(i) => string_map_to_pretty_json(&self.data[i].1),
            None => None,
        }
    }
}


/// The translation key of the name of a bone.
pub open spec fn bone_key(id: u8) -> Seq<char> {
    match id {
        0 => "bone.hip"@,
        1 => "bone.waist"@,
        2 => "bone.chest"@,
        3 => "bone.neck"@,
        4 => "bone.head"@,
        10 => "bone.l_up_leg"@,
        11 => "bone.l_leg"@,
        12 => "bone.l_foot"@,
        20 => "bone.r_up_leg"@,
        21 => "bone.r_leg"@,
        22 => "bone.r_foot"@,
        30 => "bone.l_shoulder"@,
        31 => "bone.l_up_arm"@,
        32 => "bone.l_forearm"@,
        40 => "bone.r_shoulder"@,
        41 => "bone.r_up_arm"@,
        42 => "bone.r_forearm"@,
        _ => "bone.unknown"@,
    }
}

/// The bones that have a name of their own: hip, waist, chest, neck, head,
/// the legs and feet (10 to 12 left, 20 to 22 right) and the arms (30 to 32
/// left, 40 to 42 right).
pub open spec fn named_bone(id: u8) -> bool {
    id == 0 || id == 1 || id == 2 || id == 3 || id == 4 || id == 10 || id == 11 || id == 12 || id == 20 || id == 21 || id == 22 || id == 30 || id == 31 || id == 32 || id == 40 || id == 41 || id == 42
}

/// Each named bone has its own documented key (the right foot's is
/// `bone.r_foot`, the left foot's `bone.l_foot`, and so on), no two named bones
/// share a key, none of them is `bone.unknown`, and every other id has that key.
pub proof fn lemma_bone_keys()
    ensures
        bone_key(0) == "bone.hip"@,
        bone_key(1) == "bone.waist"@,
        bone_key(2) == "bone.chest"@,
        bone_key(3) == "bone.neck"@,
        bone_key(4) == "bone.head"@,
        bone_key(10) == "bone.l_up_leg"@,
        bone_key(11) == "bone.l_leg"@,
        bone_key(12) == "bone.l_foot"@,
        bone_key(20) == "bone.r_up_leg"@,
        bone_key(21) == "bone.r_leg"@,
        bone_key(22) == "bone.r_foot"@,
        bone_key(30) == "bone.l_shoulder"@,
        bone_key(31) == "bone.l_up_arm"@,
        bone_key(32) == "bone.l_forearm"@,
        bone_key(40) == "bone.r_shoulder"@,
        bone_key(41) == "bone.r_up_arm"@,
        bone_key(42) == "bone.r_forearm"@,
        forall|id: u8| !named_bone(id) ==> bone_key(id) == "bone.unknown"@,
        forall|a: u8, b: u8|
            named_bone(a) && named_bone(b) && a != b ==> bone_key(a) != bone_key(b),
        forall|id: u8| named_bone(id) ==> bone_key(id) != "bone.unknown"@,
{
    reveal_strlit("bone.hip");
    reveal_strlit("bone.waist");
    reveal_strlit("bone.chest");
    reveal_strlit("bone.neck");
    reveal_strlit("bone.head");
    reveal_strlit("bone.l_up_leg");
    reveal_strlit("bone.l_leg");
    reveal_strlit("bone.l_foot");
    reveal_strlit("bone.r_up_leg");
    reveal_strlit("bone.r_leg");
    reveal_strlit("bone.r_foot");
    reveal_strlit("bone.l_shoulder");
    reveal_strlit("bone.l_up_arm");
    reveal_strlit("bone.l_forearm");
    reveal_strlit("bone.r_shoulder");
    reveal_strlit("bone.r_up_arm");
    reveal_strlit("bone.r_forearm");
    reveal_strlit("bone.unknown");
    assert forall|a: u8, b: u8|
        named_bone(a) && named_bone(b) && a != b implies bone_key(a) != bone_key(b) by {
        let ka = bone_key(a);
        let kb = bone_key(b);
        if ka == kb {
            assert(ka.len() == kb.len() && ka[5] == kb[5] && ka[10] == kb[10]);
        }
    }
    assert forall|id: u8| named_bone(id) implies bone_key(id) != "bone.unknown"@ by {
        if bone_key(id) == "bone.unknown"@ {
            assert(bone_key(id).len() == 12);
        }
    }
}

/// The translated name of a bone.
pub fn bone_name(i18n: &I18n, id: u8) -> (r: String)
    ensures
        r@ == translation(i18n.langs(), i18n.current_lang(), bone_key(id)),
{
    match id {
        0 => i18n.t("bone.hip"),
        1 => i18n.t("bone.waist"),
        2 => i18n.t("bone.chest"),
        3 => i18n.t("bone.neck"),
        4 => i18n.t("bone.head"),
        10 => i18n.t("bone.l_up_leg"),
        11 => i18n.t("bone.l_leg"),
        12 => i18n.t("bone.l_foot"),
        20 => i18n.t("bone.r_up_leg"),
        21 => i18n.t("bone.r_leg"),
        22 => i18n.t("bone.r_foot"),
        30 => i18n.t("bone.l_shoulder"),
        31 => i18n.t("bone.l_up_arm"),
        32 => i18n.t("bone.l_forearm"),
        40 => i18n.t("bone.r_shoulder"),
        41 => i18n.t("bone.r_up_arm"),
        42 => i18n.t("bone.r_forearm"),
        _ => i18n.t("bone.unknown"),
    }
}


/// The default language is always among the languages of tables built from
/// documents, and is their current language.
pub proof fn lemma_default_language_available(docs: Seq<(String, String)>, default: Seq<char>)
    ensures
        (if loaded_langs(docs).contains_key(default) {
            loaded_langs(docs)
        } else {
            loaded_langs(docs).insert(default, Map::empty())
        }).contains_key(default),
{
}

/// A key translates to its entry in the current language when it has one, to
/// its English entry when only English has one, and to itself otherwise; in
/// particular, after switching to a language, that language's entries win.
pub proof fn lemma_translation_order(
    langs: Map<Seq<char>, Map<Seq<char>, Seq<char>>>,
    current: Seq<char>,
    key: Seq<char>,
)
    ensures
        langs.contains_key(current) && langs[current].contains_key(key) ==> translation(
            langs,
            current,
            key,
        ) == langs[current][key],
        !(langs.contains_key(current) && langs[current].contains_key(key)) && langs.contains_key(
            "en"@,
        ) && langs["en"@].contains_key(key) ==> translation(langs, current, key)
            == langs["en"@][key],
        !(langs.contains_key(current) && langs[current].contains_key(key)) && !(langs.contains_key(
            "en"@,
        ) && langs["en"@].contains_key(key)) ==> translation(langs, current, key) == key,
{
}

/// The languages of tables built from `docs` with the default `default`.
pub open spec fn built_langs(docs: Seq<(String, String)>, default: Seq<char>) -> Map<
    Seq<char>,
    Map<Seq<char>, Seq<char>>,
> {
    if loaded_langs(docs).contains_key(default) {
        loaded_langs(docs)
    } else {
        loaded_langs(docs).insert(default, Map::empty())
    }
}

/// The display names of tables built from `docs` with the default `default`.
pub open spec fn built_names(docs: Seq<(String, String)>, default: Seq<char>) -> Map<Seq<char>, Seq<char>> {
    if loaded_names(docs).contains_key(default) {
        loaded_names(docs)
    } else {
        loaded_names(docs).insert(default, default)
    }
}

/// The name shown for language `l`: its display name, else `l` itself.
pub open spec fn display_of(names: Map<Seq<char>, Seq<char>>, l: Seq<char>) -> Seq<char> {
    if names.contains_key(l) {
        names[l]
    } else {
        l
    }
}

/// The name a language's own table gives it: its `__lang_name` entry, else
/// the language itself.
pub open spec fn own_name(langs: Map<Seq<char>, Map<Seq<char>, Seq<char>>>, l: Seq<char>) -> Seq<char> {
    if langs[l].contains_key("__lang_name"@) {
        langs[l]["__lang_name"@]
    } else {
        l
    }
}

/// Whether no two documents have the same stem.
pub open spec fn distinct_stems(docs: Seq<(String, String)>) -> bool {
    forall|i: int, j: int| 0 <= i < j < docs.len() ==> #[trigger] docs[i].0@ != #[trigger] docs[j].0@
}

proof fn lemma_loaded_names_follow(docs: Seq<(String, String)>)
    requires
        distinct_stems(docs),
    ensures
        forall|l: Seq<char>| #[trigger] loaded_names(docs).contains_key(l) ==> loaded_langs(docs).contains_key(l),
        forall|l: Seq<char>|
            #[trigger] loaded_langs(docs).contains_key(l) ==> (loaded_names(docs).contains_key(l)
                <==> loaded_langs(docs)[l].contains_key("__lang_name"@)),
        forall|l: Seq<char>|
            #[trigger] loaded_names(docs).contains_key(l) ==> loaded_names(docs)[l] == loaded_langs(
                docs,
            )[l]["__lang_name"@],
        forall|l: Seq<char>|
            #[trigger] loaded_langs(docs).contains_key(l) ==> exists|i: int|
                0 <= i < docs.len() && #[trigger] docs[i].0@ == l,
    decreases docs.len(),
{
    if docs.len() > 0 {
        let d0 = docs.drop_last();
        assert(distinct_stems(d0)) by {
            assert forall|i: int, j: int| 0 <= i < j < d0.len() implies #[trigger] d0[i].0@ != #[trigger] d0[j].0@ by {
                assert(d0[i] == docs[i] && d0[j] == docs[j]);
            }
        }
        lemma_loaded_names_follow(d0);
        let s = docs.last().0@;
        let l0 = loaded_langs(d0);
        let n0 = loaded_names(d0);
        let ln = "__lang_name"@;
        assert(!l0.contains_key(s)) by {
            if loaded_langs(d0).contains_key(s) {
                let i = choose|i: int| 0 <= i < d0.len() && #[trigger] d0[i].0@ == s;
                assert(docs[i].0@ == docs[docs.len() - 1].0@);
            }
        }
        assert(!n0.contains_key(s));
        match json_string_map(docs.last().1@) {
            Some(t) => {
                assert(loaded_langs(docs) == l0.insert(s, t));
                if t.contains_key(ln) {
                    assert(loaded_names(docs) == n0.insert(s, t[ln]));
                } else {
                    assert(loaded_names(docs) == n0);
                }
            },
            None => {
                assert(loaded_langs(docs) == l0);
                assert(loaded_names(docs) == n0);
            },
        }
        assert forall|l: Seq<char>| #[trigger] loaded_langs(docs).contains_key(l) implies exists|i: int|
            0 <= i < docs.len() && #[trigger] docs[i].0@ == l by {
            if l == s {
                assert(docs[docs.len() - 1].0@ == l);
            } else {
                assert(loaded_langs(d0).contains_key(l));
                let i = choose|i: int| 0 <= i < d0.len() && #[trigger] d0[i].0@ == l;
                assert(docs[i].0@ == l);
            }
        }
    }
}

/// The name shown for each language of tables built from documents with
/// distinct stems is the `__lang_name` entry of that language's own table, or
/// the language itself where the table has none.
pub proof fn lemma_display_names_follow_tables(docs: Seq<(String, String)>, default: Seq<char>)
    requires
        distinct_stems(docs),
    ensures
        forall|l: Seq<char>|
            #[trigger] built_langs(docs, default).contains_key(l) ==> display_of(
                built_names(docs, default),
                l,
            ) == own_name(built_langs(docs, default), l),
{
    lemma_loaded_names_follow(docs);
    assert forall|l: Seq<char>| #[trigger] built_langs(docs, default).contains_key(l) implies display_of(
        built_names(docs, default),
        l,
    ) == own_name(built_langs(docs, default), l) by {
        if l == default && !loaded_langs(docs).contains_key(default) {
            assert(!loaded_names(docs).contains_key(default));
            assert(built_langs(docs, default)[l] == Map::<Seq<char>, Seq<char>>::empty());
        } else if l == default && !loaded_names(docs).contains_key(default) {
            assert(loaded_langs(docs).contains_key(l));
        } else {
            assert(loaded_langs(docs).contains_key(l));
        }
    }
}

/// Two strictly ascending lists of texts with the same members are the same list.
pub proof fn lemma_ascending_lists_agree(a: Seq<Seq<char>>, b: Seq<Seq<char>>)
    requires
        forall|i: int, j: int| 0 <= i < j < a.len() ==> key_lt(#[trigger] a[i], #[trigger] a[j]),
        forall|i: int, j: int| 0 <= i < j < b.len() ==> key_lt(#[trigger] b[i], #[trigger] b[j]),
        forall|t: Seq<char>| a.contains(t) <==> b.contains(t),
    ensures
        a == b,
    decreases a.len(),
{
    if a.len() == 0 {
        if b.len() > 0 {
            assert(b.contains(b[0]));
            assert(a.contains(b[0]));
            let i = choose|i: int| 0 <= i < a.len() && a[i] == b[0];
            assert(false);
        }
        assert(a =~= b);
    } else {
        assert(a.contains(a[0]));
        assert(b.len() > 0);
        assert(b.contains(b[0]));
        let k = choose|k: int| 0 <= k < a.len() && a[k] == b[0];
        let m = choose|m: int| 0 <= m < b.len() && b[m] == a[0];
        lemma_key_lt_order(a[0], b[0], a[0]);
        if k > 0 && m > 0 {
            assert(key_lt(a[0], a[k]));
            assert(key_lt(b[0], b[m]));
        }
        assert(a[0] == b[0]);
        let a1 = a.drop_first();
        let b1 = b.drop_first();
        assert forall|t: Seq<char>| a1.contains(t) <==> b1.contains(t) by {
            if a1.contains(t) {
                let i = choose|i: int| 0 <= i < a1.len() && a1[i] == t;
                assert(a[i + 1] == t);
                assert(key_lt(a[0], a[i + 1]));
                lemma_key_lt_order(t, t, t);
                assert(b.contains(t));
                let j = choose|j: int| 0 <= j < b.len() && b[j] == t;
                assert(j != 0);
                assert(b1[j - 1] == t);
            }
            if b1.contains(t) {
                let i = choose|i: int| 0 <= i < b1.len() && b1[i] == t;
                assert(b[i + 1] == t);
                assert(key_lt(b[0], b[i + 1]));
                lemma_key_lt_order(t, t, t);
                assert(a.contains(t));
                let j = choose|j: int| 0 <= j < a.len() && a[j] == t;
                assert(j != 0);
                assert(a1[j - 1] == t);
            }
        }
        assert forall|i: int, j: int| 0 <= i < j < a1.len() implies key_lt(#[trigger] a1[i], #[trigger] a1[j]) by {
            assert(a1[i] == a[i + 1] && a1[j] == a[j + 1]);
        }
        assert forall|i: int, j: int| 0 <= i < j < b1.len() implies key_lt(#[trigger] b1[i], #[trigger] b1[j]) by {
            assert(b1[i] == b[i + 1] && b1[j] == b[j + 1]);
        }
        lemma_ascending_lists_agree(a1, b1);
        assert(a.len() == b.len());
        assert forall|i: int| 0 <= i < a.len() implies a[i] == b[i] by {
            if i > 0 {
                assert(a[i] == a1[i - 1] && b[i] == b1[i - 1]);
            }
        }
        assert(a =~= b);
    }
}

/// The languages of a list of (language, display name) pairs.
pub open spec fn first_texts(v: Seq<(String, String)>) -> Seq<Seq<char>> {
    v.map_values(|p: (String, String)| p.0@)
}

/// The texts of a list of strings.
pub open spec fn key_texts(w: Seq<String>) -> Seq<Seq<char>> {
    w.map_values(|k: String| k@)
}

/// What `available_langs_with_display` gives lists the languages that
/// `available_langs` gives, in the same order: both are the strictly
/// ascending list of the available languages.
pub proof fn lemma_display_list_matches_langs(
    v: Seq<(String, String)>,
    w: Seq<String>,
    m: Map<Seq<char>, Map<Seq<char>, Seq<char>>>,
)
    requires
        lists_keys_of(w, m),
        forall|i: int, j: int| 0 <= i < j < v.len() ==> key_lt(v[i].0@, v[j].0@),
        forall|t: Seq<char>| #[trigger] m.contains_key(t) <==> exists|i: int|
            0 <= i < v.len() && #[trigger] v[i].0@ == t,
    ensures
        first_texts(v) == key_texts(w),
{
    let a = first_texts(v);
    let b = key_texts(w);
    assert forall|i: int, j: int| 0 <= i < j < a.len() implies key_lt(#[trigger] a[i], #[trigger] a[j]) by {
        assert(a[i] == v[i].0@ && a[j] == v[j].0@);
    }
    assert forall|i: int, j: int| 0 <= i < j < b.len() implies key_lt(#[trigger] b[i], #[trigger] b[j]) by {
        assert(b[i] == w[i]@ && b[j] == w[j]@);
    }
    assert forall|t: Seq<char>| a.contains(t) <==> b.contains(t) by {
        if a.contains(t) {
            let i = choose|i: int| 0 <= i < a.len() && a[i] == t;
            assert(v[i].0@ == t);
            assert(m.contains_key(t));
            assert(lists(w, t));
            let j = choose|j: int| 0 <= j < w.len() && #[trigger] w[j]@ == t;
            assert(b[j] == t);
        }
        if b.contains(t) {
            let j = choose|j: int| 0 <= j < b.len() && b[j] == t;
            assert(w[j]@ == t);
            assert(lists(w, t));
            assert(m.contains_key(t));
            let i = choose|i: int| 0 <= i < v.len() && #[trigger] v[i].0@ == t;
            assert(a[i] == t);
        }
    }
    lemma_ascending_lists_agree(a, b);
}

/// Whether `s` lists exactly the languages of `langs`, strictly ascending.
pub open spec fn ascending_listing(s: Seq<Seq<char>>, langs: Map<Seq<char>, Map<Seq<char>, Seq<char>>>) -> bool {
    &&& forall|i: int, j: int| 0 <= i < j < s.len() ==> key_lt(#[trigger] s[i], #[trigger] s[j])
    &&& forall|t: Seq<char>| #[trigger] s.contains(t) <==> #[trigger] langs.contains_key(t)
}

/// The languages of `langs` in ascending order.
pub open spec fn lang_order(langs: Map<Seq<char>, Map<Seq<char>, Seq<char>>>) -> Seq<Seq<char>> {
    choose|s: Seq<Seq<char>>| ascending_listing(s, langs)
}

/// A strictly ascending listing of the languages is the one `lang_order` names.
proof fn lemma_lang_order(s: Seq<Seq<char>>, langs: Map<Seq<char>, Map<Seq<char>, Seq<char>>>)
    requires
        ascending_listing(s, langs),
    ensures
        lang_order(langs) == s,
{
    let c = lang_order(langs);
    assert(ascending_listing(c, langs));
    assert forall|t: Seq<char>| c.contains(t) <==> s.contains(t) by {
        assert(c.contains(t) <==> langs.contains_key(t));
        assert(s.contains(t) <==> langs.contains_key(t));
    }
    lemma_ascending_lists_agree(c, s);
}

} // verus!
