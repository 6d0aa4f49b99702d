use vstd::prelude::*;

use crate::text::{chars_of, push_char};

verus! {

/// The first position at or after `from` where `pat` occurs in `s`.
pub open spec fn find_from(s: Seq<char>, pat: Seq<char>, from: int) -> Option<int>
    decreases s.len() + 1 - from,
{
    if from < 0 || from + pat.len() > s.len() {
        None
    } else if s.subrange(from, from + pat.len()) == pat {
        Some(from)
    } else {
        find_from(s, pat, from + 1)
    }
}

/// The text that opens a translation lookup in source code: `.t("`.
pub open spec fn call_open() -> Seq<char> {
    seq!['.', 't', '(', '"']
}

/// The translation keys used in source text from position `from` on: the text
/// between each `.t("` and the next `"`, in order; scanning stops at a `.t("`
/// that no `"` follows.
pub open spec fn keys_from(s: Seq<char>, from: int) -> Seq<Seq<char>>
    decreases s.len() + 1 - from,
{
    match find_from(s, call_open(), from) {
        None => Seq::empty(),
        Some(i) => match find_from(s, seq!['"'], i + 4) {
            None => Seq::empty(),
            Some(e) => if from < e + 1 <= s.len() {
                seq![s.subrange(i + 4, e)] + keys_from(s, e + 1)
            } else {
                Seq::empty()
            },
        },
    }
}

proof fn lemma_find_from_bounds(s: Seq<char>, pat: Seq<char>, from: int)
    ensures
        find_from(s, pat, from) matches Some(i) ==> from <= i && i + pat.len() <= s.len() && s.subrange(
            i,
            i + pat.len(),
        ) == pat,
    decreases s.len() + 1 - from,
{
    if !(from < 0 || from + pat.len() > s.len()) && s.subrange(from, from + pat.len()) != pat {
        lemma_find_from_bounds(s, pat, from + 1);
    }
}

/// The first `c` at or after `from` is the one at `to` when none comes between.
proof fn lemma_find_char(s: Seq<char>, c: char, from: int, to: int)
    requires
        0 <= from <= to < s.len(),
        s[to] == c,
        forall|j: int| from <= j < to ==> s[j] != c,
    ensures
        find_from(s, seq![c], from) == Some(to),
    decreases to - from,
{
    if from < to {
        assert(s.subrange(from, from + 1)[0] == s[from]);
        lemma_find_char(s, c, from + 1, to);
    } else {
        assert(s.subrange(from, from + 1) =~= seq![c]);
    }
}

/// The lookup `.t("key")` written out, with the opening `.t("` and the closing
/// quote as literal characters: a text that is one such call yields exactly its
/// key, whatever the key holds besides quotes.
pub proof fn lemma_single_call_key(k: Seq<char>)
    requires
        forall|i: int| 0 <= i < k.len() ==> k[i] != '"',
    ensures
        keys_from(seq!['.', 't', '(', '"'] + k + seq!['"'], 0) == seq![k],
{
    let s = seq!['.', 't', '(', '"'] + k + seq!['"'];
    let e: int = 4 + k.len() as int;
    assert(s.subrange(0, 4) =~= call_open());
    assert(find_from(s, call_open(), 0) == Some(0int));
    assert forall|j: int| 4 <= j < e implies s[j] != '"' by {
        assert(s[j] == k[j - 4]);
    }
    lemma_find_char(s, '"', 4, e);
    assert(s.subrange(4, e) =~= k);
    assert(find_from(s, call_open(), e + 1) is None);
    assert(keys_from(s, e + 1) =~= Seq::<Seq<char>>::empty());
    assert(seq![k] + Seq::<Seq<char>>::empty() =~= seq![k]);
}

/// Whether `pat` occurs in `s` at position `at`.
fn occurs_at(s: &Vec<char>, pat: &Vec<char>, at: usize) -> (r: bool)
    requires
        at + pat.len() <= s.len(),
    ensures
        r == (s@.subrange(at as int, at + pat@.len()) == pat@),
{
    let mut k: usize = 0;
    while k < pat.len()
        invariant
            at + pat.len() <= s.len(),
            k <= pat@.len(),
            s@.subrange(at as int, at + k) == pat@.take(k as int),
        decreases pat.len() - k,
    {
        if s[at + k] != pat[k] {
            assert(s@.subrange(at as int, at + pat@.len())[k as int] == s@[at + k]);
            assert(!(s@.subrange(at as int, at + pat@.len()) =~= pat@));
            return false;
        }
        assert(s@.subrange(at as int, at + k + 1) =~= s@.subrange(at as int, at + k).push(
            s@[at + k],
        ));
        assert(pat@.take(k + 1) =~= pat@.take(k as int).push(pat@[k as int]));
        k = k + 1;
    }
    assert(pat@.take(pat@.len() as int) =~= pat@);
    true
}

/// The first position at or after `from` where `pat` occurs in `s`.
fn find_in(s: &Vec<char>, pat: &Vec<char>, from: usize) -> (r: Option<usize>)
    requires
        pat@.len() > 0,
    ensures
        r == (match find_from(s@, pat@, from as int) {
            Some(i) => Some(i as usize),
            None => None::<usize>,
        }),
{
    if from > s.len() {
        return None;
    }
    let mut i = from;
    while pat.len() <= s.len() - i
        invariant
            pat@.len() > 0,
            from <= i <= s.len(),
            find_from(s@, pat@, from as int) == find_from(s@, pat@, i as int),
        decreases s.len() + 1 - i,
    {
        if occurs_at(s, pat, i) {
            return Some(i);
        }
        i = i + 1;
    }
    None
}

/// The translation keys used in a source file: the text between each `.t("`
/// and the next `"`, in order of appearance.
pub fn collect_keys(contents: &str) -> (keys: Vec<String>)
    ensures
        keys@.len() == keys_from(contents@, 0).len(),
        forall|k: int| 0 <= k < keys@.len() ==> #[trigger] keys@[k]@ == keys_from(contents@, 0)[k],
{
    let s = chars_of(contents);
    let open: Vec<char> = vec!['.', 't', '(', '"'];
    let quote: Vec<char> = vec!['"'];
    assert(open@ =~= call_open());
    assert(quote@ =~= seq!['"']);
    let mut keys: Vec<String> = Vec::new();
    let ghost mut found: Seq<Seq<char>> = Seq::empty();
    let mut start: usize = 0;
    let n = s.len();
    loop
        invariant
            n == s@.len(),
            s@ == contents@,
            open@ == call_open(),
            quote@ == seq!['"'],
            start <= s@.len() + 1,
            keys_from(s@, 0) == found + keys_from(s@, start as int),
            keys@.len() == found.len(),
            forall|k: int| 0 <= k < keys@.len() ==> #[trigger] keys@[k]@ == found[k],
        ensures
            keys@.len() == keys_from(s@, 0).len(),
            forall|k: int| 0 <= k < keys@.len() ==> #[trigger] keys@[k]@ == keys_from(s@, 0)[k],
        decreases s@.len() + 1 - start,
    {
        proof {
            lemma_find_from_bounds(s@, call_open(), start as int);
        }
        match find_in(&s, &open, start) {
            None => {
                assert(found + Seq::<Seq<char>>::empty() =~= found);
                break ;
            },
            Some(i) => {
                assert(i + 4 <= n);
                let abs = i + 4;
                proof {
                    lemma_find_from_bounds(s@, seq!['"'], abs as int);
                }
                match find_in(&s, &quote, abs) {
                    None => {
                        assert(found + Seq::<Seq<char>>::empty() =~= found);
                        break ;
                    },
                    Some(end) => {
                        let key = string_of(&s, abs, end);
                        proof {
                            assert(found.push(key@) + keys_from(s@, end + 1) =~= found + (seq![key@]
                                + keys_from(s@, end + 1)));
                            found = found.push(key@);
                        }
                        keys.push(key);
                        start = end + 1;
                    },
                }
            },
        }
    }
    keys
}

/// The string of the characters `chars[from..to]`.
fn string_of(chars: &Vec<char>, from: usize, to: usize) -> (s: String)
    requires
        from <= to <= chars@.len(),
    ensures
        s@ == chars@.subrange(from as int, to as int),
{
    let mut s = String::new();
    let mut i = from;
    while i < to
        invariant
            from <= i <= to <= chars@.len(),
            s@ == chars@.subrange(from as int, i as int),
        decreases to - i,
    {
        push_char(&mut s, chars[i]);
        assert(s@ =~= chars@.subrange(from as int, i + 1));
        i = i + 1;
    }
    s
}

/// The entries a translation file is missing: each key found in the sources
/// that the file lacks and that is not added already, with the key itself as
/// value in the English file and an empty value elsewhere.
pub open spec fn missing_entries(existing: Seq<String>, found: Seq<String>, is_en: bool) -> Seq<(Seq<char>, Seq<char>)>
    decreases found.len(),
{
    if found.len() == 0 {
        Seq::empty()
    } else {
        let prev = missing_entries(existing, found.drop_last(), is_en);
        let k = found.last()@;
        if (exists|i: int| 0 <= i < existing.len() && #[trigger] existing[i]@ == k) || (exists|i: int|
            0 <= i < prev.len() && #[trigger] prev[i].0 == k) {
            prev
        } else {
            prev.push((k, if is_en { k } else { Seq::empty() }))
        }
    }
}

/// Whether some string of `v` has the text of `k`.
fn contains_text(v: &Vec<String>, k: &String) -> (r: bool)
    ensures
        r == exists|i: int| 0 <= i < v@.len() && #[trigger] v@[i]@ == k@,
{
    let mut i: usize = 0;
    while i < v.len()
        invariant
            i <= v@.len(),
            forall|j: int| 0 <= j < i ==> v@[j]@ != k@,
        decreases v.len() - i,
    {
        if v[i] == *k {
            return true;
        }
        i = i + 1;
    }
    false
}

/// The entries to add to a translation file that has the keys `existing`,
/// for the keys `found` in the sources, in order.
pub fn entries_to_add(existing: &Vec<String>, found: &Vec<String>, is_en: bool) -> (r: Vec<
    (String, String),
>)
    ensures
        r@.len() == missing_entries(existing@, found@, is_en).len(),
        forall|i: int|
            0 <= i < r@.len() ==> #[trigger] r@[i].0@ == missing_entries(existing@, found@, is_en)[i].0
                && r@[i].1@ == missing_entries(existing@, found@, is_en)[i].1,
{
    let mut r: Vec<(String, String)> = Vec::new();
    let mut added: Vec<String> = Vec::new();
    let mut n: usize = 0;
    while n < found.len()
        invariant
            n <= found@.len(),
            r@.len() == added@.len(),
            r@.len() == missing_entries(existing@, found@.take(n as int), is_en).len(),
            forall|i: int|
                0 <= i < r@.len() ==> #[trigger] r@[i].0@ == missing_entries(
                    existing@,
                    found@.take(n as int),
                    is_en,
                )[i].0 && r@[i].1@ == missing_entries(existing@, found@.take(n as int), is_en)[i].1,
            forall|i: int| 0 <= i < added@.len() ==> #[trigger] added@[i]@ == r@[i].0@,
        decreases found.len() - n,
    {
        let ghost prev = missing_entries(existing@, found@.take(n as int), is_en);
        assert(found@.take(n + 1).drop_last() =~= found@.take(n as int));
        assert(found@.take(n + 1).last() == found@[n as int]);
        let k = &found[n];
        let in_existing = contains_text(existing, k);
        let in_added = contains_text(&added, k);
        proof {
            if in_added {
                let i = choose|i: int| 0 <= i < added@.len() && #[trigger] added@[i]@ == k@;
                assert(r@[i].0@ == prev[i].0);
                assert(prev[i].0 == k@);
            }
            if exists|i: int| 0 <= i < prev.len() && #[trigger] prev[i].0 == k@ {
                let i = choose|i: int| 0 <= i < prev.len() && #[trigger] prev[i].0 == k@;
                assert(r@[i].0@ == prev[i].0);
                assert(added@[i]@ == k@);
            }
        }
        let ghost next = missing_entries(existing@, found@.take(n + 1), is_en);
        if !in_existing && !in_added {
            let value = if is_en { k.clone() } else { String::new() };
            assert(next == prev.push((k@, if is_en { k@ } else { Seq::<char>::empty() })));
            r.push((k.clone(), value));
            added.push(k.clone());
        } else {
            assert(next == prev);
        }
        n = n + 1;
    }
    assert(found@.take(found.len() as int) =~= found@);
    assert(n == found@.len());
    assert(missing_entries(existing@, found@.take(n as int), is_en) == missing_entries(existing@, found@, is_en));
    r
}

/// Whether some string of `v` has the text `k`.
pub open spec fn has_text(v: Seq<String>, k: Seq<char>) -> bool {
    exists|i: int| 0 <= i < v.len() && #[trigger] v[i]@ == k
}

/// Whether some entry of `m` has the key `k`.
pub open spec fn has_entry(m: Seq<(Seq<char>, Seq<char>)>, k: Seq<char>) -> bool {
    exists|i: int| 0 <= i < m.len() && #[trigger] m[i].0 == k
}

/// The value of each added entry: in the English file the key itself, in any
/// other file the empty text; and every added key was found in the sources.
pub proof fn lemma_sweep_values(existing: Seq<String>, found: Seq<String>, is_en: bool)
    ensures
        forall|i: int|
            0 <= i < missing_entries(existing, found, is_en).len() ==> {
                let e = #[trigger] missing_entries(existing, found, is_en)[i];
                &&& is_en ==> e.1 == e.0
                &&& !is_en ==> e.1.len() == 0
                &&& has_text(found, e.0)
            },
    decreases found.len(),
{
    if found.len() > 0 {
        let f0 = found.drop_last();
        lemma_sweep_values(existing, f0, is_en);
        let prev = missing_entries(existing, f0, is_en);
        let m = missing_entries(existing, found, is_en);
        assert forall|i: int| 0 <= i < m.len() implies {
            let e = #[trigger] m[i];
            &&& is_en ==> e.1 == e.0
            &&& !is_en ==> e.1.len() == 0
            &&& has_text(found, e.0)
        } by {
            if i < prev.len() {
                assert(m[i] == prev[i]);
                let j = choose|j: int| 0 <= j < f0.len() && #[trigger] f0[j]@ == prev[i].0;
                assert(found[j] == f0[j]);
            } else {
                assert(found[found.len() - 1]@ == found.last()@);
            }
        }
    }
}

/// After the sweep a translation file holds every key found in the sources,
/// as a key it had or as an added entry; no added entry has a key the file
/// had, and no key is added twice.
pub proof fn lemma_sweep_complete(existing: Seq<String>, found: Seq<String>, is_en: bool)
    ensures
        forall|j: int|
            0 <= j < found.len() ==> has_text(existing, #[trigger] found[j]@) || has_entry(
                missing_entries(existing, found, is_en),
                found[j]@,
            ),
        forall|i: int|
            0 <= i < missing_entries(existing, found, is_en).len() ==> !has_text(
                existing,
                #[trigger] missing_entries(existing, found, is_en)[i].0,
            ),
        forall|i: int, j: int|
            0 <= i < j < missing_entries(existing, found, is_en).len() ==> #[trigger] missing_entries(
                existing,
                found,
                is_en,
            )[i].0 != #[trigger] missing_entries(existing, found, is_en)[j].0,
    decreases found.len(),
{
    if found.len() > 0 {
        let f0 = found.drop_last();
        lemma_sweep_complete(existing, f0, is_en);
        let prev = missing_entries(existing, f0, is_en);
        let m = missing_entries(existing, found, is_en);
        let k = found.last()@;
        let added = has_text(existing, k) || has_entry(prev, k);
        assert(added ==> m == prev);
        assert(!added ==> m == prev.push((k, if is_en { k } else { Seq::<char>::empty() })));
        assert forall|j: int| 0 <= j < found.len() implies has_text(existing, #[trigger] found[j]@)
            || has_entry(m, found[j]@) by {
            if j < found.len() - 1 {
                assert(f0[j] == found[j]);
                if has_entry(prev, found[j]@) {
                    let i = choose|i: int| 0 <= i < prev.len() && #[trigger] prev[i].0 == found[j]@;
                    assert(m[i] == prev[i]);
                }
            } else {
                if !added {
                    assert(m[prev.len() as int].0 == k);
                } else if has_entry(prev, k) {
                    let i = choose|i: int| 0 <= i < prev.len() && #[trigger] prev[i].0 == k;
                    assert(m[i] == prev[i]);
                }
            }
        }
        assert forall|i: int| 0 <= i < m.len() implies !has_text(existing, #[trigger] m[i].0) by {
            if i < prev.len() {
                assert(m[i] == prev[i]);
            }
        }
        assert forall|i: int, j: int| 0 <= i < j < m.len() implies #[trigger] m[i].0 != #[trigger] m[j].0 by {
            if j < prev.len() {
                assert(m[i] == prev[i] && m[j] == prev[j]);
            } else {
                assert(m[i] == prev[i]);
                assert(m[j].0 == k);
            }
        }
    }
}

/// What `serde_json::from_str::<serde_json::Map<String, serde_json::Value>>`
/// reads from a JSON document whose top level is an object: each key with
/// `Some` of its value when that is a JSON string and `None` when it is any
/// other value; `None` when the document is not read as a JSON object.
pub uninterp spec fn json_object_entries(text: Seq<char>) -> Option<Map<Seq<char>, Option<Seq<char>>>>;

/// The keys that `serde_json` reads from a JSON document whose top level is
/// an object, or `None` when the document is not read as a JSON object.
pub open spec fn json_object_keys(text: Seq<char>) -> Option<Set<Seq<char>>> {
    match json_object_entries(text) {
        Some(e) => Some(e.dom()),
        None => None,
    }
}

/// The texts of a list of strings.
pub open spec fn texts(v: Seq<String>) -> Seq<Seq<char>> {
    v.map_values(|s: String| s@)
}

/// Calls `serde_json::from_str::<serde_json::Map<String, serde_json::Value>>`
/// and lists the keys of the map it returns. Claims that the call succeeds
/// exactly when `json_object_keys` is `Some`, and that the list holds exactly
/// the keys of that object.
#[verifier::external_body]
fn parse_object_keys(text: &str) -> (r: Option<Vec<String>>)
    ensures
        r is Some <==> json_object_keys(text@) is Some,
        r matches Some(v) ==> texts(v@).to_set() == json_object_keys(text@).unwrap(),
{
    match serde_json::from_str::<serde_json::Map<String, serde_json::Value>>(text) {
        Ok(m) => Some(m.keys().cloned().collect()),
        Err(_) => None,
    }
}

/// The keys of a translation file's text: those of its top-level JSON object,
/// or `None` when the text is not a JSON object.
pub fn existing_keys(text: &str) -> (r: Option<Vec<String>>)
    ensures
        r is Some <==> json_object_keys(text@) is Some,
        r matches Some(v) ==> texts(v@).to_set() == json_object_keys(text@).unwrap(),
{
    parse_object_keys(text)
}

/// The keys a translation file holds: those of its JSON object, none when its
/// text is not one.
pub open spec fn file_keys(text: Seq<char>) -> Set<Seq<char>> {
    match json_object_keys(text) {
        Some(k) => k,
        None => Set::empty(),
    }
}

/// The entries a translation file with the keys `keys` is missing: each key
/// found in the sources that the file lacks and that is not added already,
/// with the key itself as value in the English file and an empty value
/// elsewhere.
pub open spec fn missing_for_keys(keys: Set<Seq<char>>, found: Seq<String>, is_en: bool) -> Seq<
    (Seq<char>, Seq<char>),
>
    decreases found.len(),
{
    if found.len() == 0 {
        Seq::empty()
    } else {
        let prev = missing_for_keys(keys, found.drop_last(), is_en);
        let k = found.last()@;
        if keys.contains(k) || has_entry(prev, k) {
            prev
        } else {
            prev.push((k, if is_en { k } else { Seq::empty() }))
        }
    }
}

/// The missing entries depend only on which keys the file has.
proof fn lemma_missing_for_keys(existing: Seq<String>, keys: Set<Seq<char>>, found: Seq<String>, is_en: bool)
    requires
        texts(existing).to_set() == keys,
    ensures
        missing_entries(existing, found, is_en) == missing_for_keys(keys, found, is_en),
    decreases found.len(),
{
    if found.len() > 0 {
        lemma_missing_for_keys(existing, keys, found.drop_last(), is_en);
        let k = found.last()@;
        if keys.contains(k) {
            assert(texts(existing).contains(k));
            let i = choose|i: int| 0 <= i < texts(existing).len() && texts(existing)[i] == k;
            assert(existing[i]@ == k);
            assert(has_text(existing, k));
        }
        if has_text(existing, k) {
            let i = choose|i: int| 0 <= i < existing.len() && #[trigger] existing[i]@ == k;
            assert(texts(existing)[i] == k);
            assert(texts(existing).contains(k));
        }
    }
}

/// The entries to add to a translation file whose text is `text`, for the
/// keys `found` in the sources, in order; a text that is not a JSON object
/// counts as a file with no keys.
pub fn sweep_additions(text: &str, found: &Vec<String>, is_en: bool) -> (r: Vec<(String, String)>)
    ensures
        r@.len() == missing_for_keys(file_keys(text@), found@, is_en).len(),
        forall|i: int|
            0 <= i < r@.len() ==> #[trigger] r@[i].0@ == missing_for_keys(file_keys(text@), found@, is_en)[i].0
                && r@[i].1@ == missing_for_keys(file_keys(text@), found@, is_en)[i].1,
{
    let existing = match existing_keys(text) {
        Some(v) => v,
        None => Vec::new(),
    };
    proof {
        assert(texts(existing@).to_set() =~= file_keys(text@));
        lemma_missing_for_keys(existing@, file_keys(text@), found@, is_en);
    }
    entries_to_add(&existing, found, is_en)
}

/// After the sweep a translation file holds every key found in the sources,
/// as a key it had or as an added entry; no added entry has a key the file
/// had, and no key is added twice.
pub proof fn lemma_sweep_file_complete(keys: Set<Seq<char>>, found: Seq<String>, is_en: bool)
    ensures
        forall|j: int|
            0 <= j < found.len() ==> keys.contains(#[trigger] found[j]@) || has_entry(
                missing_for_keys(keys, found, is_en),
                found[j]@,
            ),
        forall|i: int|
            0 <= i < missing_for_keys(keys, found, is_en).len() ==> !keys.contains(
                #[trigger] missing_for_keys(keys, found, is_en)[i].0,
            ),
        forall|i: int, j: int|
            0 <= i < j < missing_for_keys(keys, found, is_en).len() ==> #[trigger] missing_for_keys(
                keys,
                found,
                is_en,
            )[i].0 != #[trigger] missing_for_keys(keys, found, is_en)[j].0,
    decreases found.len(),
{
    if found.len() > 0 {
        let f0 = found.drop_last();
        lemma_sweep_file_complete(keys, f0, is_en);
        let prev = missing_for_keys(keys, f0, is_en);
        let m = missing_for_keys(keys, found, is_en);
        let k = found.last()@;
        let added = keys.contains(k) || has_entry(prev, k);
        assert(added ==> m == prev);
        assert(!added ==> m == prev.push((k, if is_en { k } else { Seq::<char>::empty() })));
        assert forall|j: int| 0 <= j < found.len() implies keys.contains(#[trigger] found[j]@)
            || has_entry(m, found[j]@) by {
            if j < found.len() - 1 {
                assert(f0[j] == found[j]);
                if has_entry(prev, found[j]@) {
                    let i = choose|i: int| 0 <= i < prev.len() && #[trigger] prev[i].0 == found[j]@;
                    assert(m[i] == prev[i]);
                }
            } else {
                if !added {
                    assert(m[prev.len() as int].0 == k);
                } else if has_entry(prev, k) {
                    let i = choose|i: int| 0 <= i < prev.len() && #[trigger] prev[i].0 == k;
                    assert(m[i] == prev[i]);
                }
            }
        }
        assert forall|i: int| 0 <= i < m.len() implies !keys.contains(#[trigger] m[i].0) by {
            if i < prev.len() {
                assert(m[i] == prev[i]);
            }
        }
        assert forall|i: int, j: int| 0 <= i < j < m.len() implies #[trigger] m[i].0 != #[trigger] m[j].0 by {
            if j < prev.len() {
                assert(m[i] == prev[i] && m[j] == prev[j]);
            } else {
                assert(m[i] == prev[i]);
                assert(m[j].0 == k);
            }
        }
    }
}

#[verifier::external_type_specification]
#[verifier::external_body]
pub struct ExJsonValue(serde_json::Value);

#[verifier::external_type_specification]
#[verifier::external_body]
#[verifier::reject_recursive_types(K)]
#[verifier::reject_recursive_types(V)]
pub struct ExJsonMap<K, V>(serde_json::Map<K, V>);

/// The entries of a JSON object held by `serde_json`: each key with `Some`
/// of its value when that is a JSON string and `None` for any other value.
pub uninterp spec fn object_entries(m: serde_json::Map<String, serde_json::Value>) -> Map<
    Seq<char>,
    Option<Seq<char>>,
>;

/// How deeply objects and arrays nest in a JSON object held by `serde_json`,
/// the object itself counting one.
pub uninterp spec fn object_depth(m: serde_json::Map<String, serde_json::Value>) -> nat;

/// The deepest nesting that `serde_json` reads back: its parser gives up at
/// 128 nested objects and arrays.
pub open spec fn readable_depth() -> nat {
    127
}

/// Calls `serde_json::Map::new`, an object with no entries.
#[verifier::external_body]
fn empty_object() -> (m: serde_json::Map<String, serde_json::Value>)
    ensures
        object_entries(m).dom() == Set::<Seq<char>>::empty(),
        object_depth(m) == 1,
{
    serde_json::Map::new()
}

/// Calls `serde_json::from_str::<serde_json::Map<String, serde_json::Value>>`.
/// Claims that the call succeeds exactly when `json_object_entries` is
/// `Some`, that the object it reads has those entries, and that it nests no
/// deeper than the parser reads (deeper text fails to parse).
#[verifier::external_body]
fn parse_object(text: &str) -> (r: Option<serde_json::Map<String, serde_json::Value>>)
    ensures
        r is Some <==> json_object_entries(text@) is Some,
        r matches Some(m) ==> object_entries(m) == json_object_entries(text@).unwrap() && object_depth(m)
            <= readable_depth(),
{
    match serde_json::from_str::<serde_json::Map<String, serde_json::Value>>(text) {
        Ok(m) => Some(m),
        Err(_) => None,
    }
}

/// Calls `serde_json::Map::keys` and lists them.
#[verifier::external_body]
fn object_key_list(m: &serde_json::Map<String, serde_json::Value>) -> (v: Vec<String>)
    ensures
        texts(v@).to_set() == object_entries(*m).dom(),
{
    m.keys().cloned().collect()
}

/// Calls `serde_json::Map::insert` with the value as a JSON string: the key
/// now has that string as its value, the other entries are unchanged, and the
/// nesting gets no deeper (a string does not nest).
#[verifier::external_body]
fn insert_string(m: &mut serde_json::Map<String, serde_json::Value>, k: String, v: String)
    ensures
        object_entries(*final(m)) == object_entries(*old(m)).insert(k@, Some(v@)),
        object_depth(*final(m)) <= object_depth(*old(m)),
{
    m.insert(k, serde_json::Value::String(v));
}

/// Calls `serde_json::to_string_pretty` on the object. Claims that
/// serialising a JSON object always succeeds (`None` is never returned) and
/// that, when the object nests no deeper than the parser reads, `serde_json`
/// reads the text back as an object with the same keys, the same string
/// values, and a value that is not a string wherever there was one. Numbers
/// are read back with the parser's default precision, so that a non-string
/// value comes back exactly is not stated.
#[verifier::external_body]
fn object_to_pretty_json(m: &serde_json::Map<String, serde_json::Value>) -> (r: Option<String>)
    ensures
        r is Some,
        r matches Some(t) ==> (object_depth(*m) <= readable_depth() ==> json_object_entries(t@)
            == Some(object_entries(*m))),
{
    serde_json::to_string_pretty(m).ok()
}

/// The entries a translation file holds: those of its JSON object, none when
/// its text is not one.
pub open spec fn file_entries(text: Seq<char>) -> Map<Seq<char>, Option<Seq<char>>> {
    match json_object_entries(text) {
        Some(e) => e,
        None => Map::empty(),
    }
}

/// The entries `base` with the missing entries `m` added in order, each value
/// a JSON string.
pub open spec fn with_added(base: Map<Seq<char>, Option<Seq<char>>>, m: Seq<(Seq<char>, Seq<char>)>) -> Map<
    Seq<char>,
    Option<Seq<char>>,
>
    decreases m.len(),
{
    if m.len() == 0 {
        base
    } else {
        with_added(base, m.drop_last()).insert(m.last().0, Some(m.last().1))
    }
}

/// Adding entries whose keys the file lacks leaves every entry the file had
/// as it was.
proof fn lemma_with_added_keeps(base: Map<Seq<char>, Option<Seq<char>>>, m: Seq<(Seq<char>, Seq<char>)>, k: Seq<char>)
    requires
        base.contains_key(k),
        forall|i: int| 0 <= i < m.len() ==> #[trigger] m[i].0 != k,
    ensures
        with_added(base, m).contains_key(k) && with_added(base, m)[k] == base[k],
    decreases m.len(),
{
    if m.len() > 0 {
        assert forall|i: int| 0 <= i < m.drop_last().len() implies #[trigger] m.drop_last()[i].0 != k by {
            assert(m.drop_last()[i] == m[i]);
        }
        lemma_with_added_keeps(base, m.drop_last(), k);
        assert(m[m.len() - 1].0 != k);
    }
}

/// A translation file's text after the sweep: `None` when it lacks none of
/// the keys `found` in the sources; else the pretty-printed JSON object with
/// the missing entries added (a text that is not a JSON object counts as an
/// empty one): it reads back with every key the file had, each string value
/// unchanged and each other value still not a string, and each missing key
/// with the key itself as value in the English file and an empty string
/// elsewhere.
pub fn swept_document(text: &str, found: &Vec<String>, is_en: bool) -> (r: Option<String>)
    ensures
        r is None <==> missing_for_keys(file_keys(text@), found@, is_en).len() == 0,
        r matches Some(t) ==> json_object_entries(t@) == Some(
            with_added(file_entries(text@), missing_for_keys(file_keys(text@), found@, is_en)),
        ),
        r matches Some(t) ==> forall|k: Seq<char>|
            #[trigger] file_entries(text@).contains_key(k) ==> json_object_entries(t@).unwrap().contains_key(k)
                && json_object_entries(t@).unwrap()[k] == file_entries(text@)[k],
{
    let mut object = match parse_object(text) {
        Some(m) => m,
        None => empty_object(),
    };
    let additions = sweep_additions(text, found, is_en);
    let ghost missing = missing_for_keys(file_keys(text@), found@, is_en);
    if additions.len() == 0 {
        return None;
    }
    assert(file_keys(text@) == file_entries(text@).dom());
    let mut i: usize = 0;
    while i < additions.len()
        invariant
            i <= additions@.len(),
            additions@.len() == missing.len(),
            forall|k: int|
                0 <= k < additions@.len() ==> #[trigger] additions@[k].0@ == missing[k].0 && additions@[k].1@
                    == missing[k].1,
            object_entries(object) == with_added(file_entries(text@), missing.take(i as int)),
            object_depth(object) <= readable_depth(),
        decreases additions.len() - i,
    {
        let k = additions[i].0.clone();
        let v = additions[i].1.clone();
        insert_string(&mut object, k, v);
        proof {
            let t1 = missing.take(i + 1);
            assert(t1.drop_last() =~= missing.take(i as int));
            assert(t1.last() == missing[i as int]);
        }
        i = i + 1;
    }
    assert(missing.take(missing.len() as int) =~= missing);
    proof {
        lemma_sweep_file_complete(file_keys(text@), found@, is_en);
        assert forall|k: Seq<char>| #[trigger] file_entries(text@).contains_key(k) implies with_added(
            file_entries(text@),
            missing,
        ).contains_key(k) && with_added(file_entries(text@), missing)[k] == file_entries(text@)[k] by {
            assert forall|i: int| 0 <= i < missing.len() implies #[trigger] missing[i].0 != k by {
                assert(!file_keys(text@).contains(missing[i].0));
            }
            lemma_with_added_keeps(file_entries(text@), missing, k);
        }
    }
    object_to_pretty_json(&object)
}

} // verus!
