use vstd::prelude::*;
use vstd::string::StrSliceExecFns;
use vstd::string::StringExecFns;
use std::collections::HashMap;
use rand::seq::SliceRandom;
use rand::Rng;

verus! {

broadcast use vstd::std_specs::hash::group_hash_axioms;

/// Words grouped by initial; the key is the initial's code point.
pub type WordMap = HashMap<u32, Vec<String>>;

/// The reply when some letter has no word to stand for it.
pub const NO_BACRONYM: &'static str = "Could not build a bacronym :(";

/// Whether `c` is alphabetic in Unicode's sense.
pub uninterp spec fn alphabetic(c: char) -> bool;

/// Relies on `char::is_alphabetic`: Unicode's `Alphabetic` property of `c`,
/// which depends on `c` alone.
#[verifier::external_body]
fn is_alphabetic(c: char) -> (r: bool)
    ensures
        r == alphabetic(c),
{
    c.is_alphabetic()
}

/// Relies on `SliceRandom::choose` of rand, with the thread-local generator:
/// `None` on an empty slice, else a reference to one of its elements.
#[verifier::external_body]
fn choose_word(words: &Vec<String>) -> (r: Option<String>)
    ensures
        r is None <==> words@.len() == 0,
        r matches Some(w) ==> exists|i: int| 0 <= i < words@.len() && (#[trigger] words@[i])@ == w@,
{
    words.choose(&mut rand::thread_rng()).map(|w| w.clone())
}

/// Relies on `Rng::gen_range` of rand, with the thread-local generator: a value
/// in `lo..hi`, which must not be empty.
#[verifier::external_body]
fn random_byte(lo: u8, hi: u8) -> (r: u8)
    requires
        lo < hi,
    ensures
        lo <= r < hi,
{
    rand::thread_rng().gen_range(lo..hi)
}

/// Relies on `char::to_string`: the string of that one character.
#[verifier::external_body]
fn char_string(c: char) -> (r: String)
    ensures
        r@ == seq![c],
{
    c.to_string()
}

/// Relies on the word list of the `memorable_wordlist` crate.
#[verifier::external_body]
fn word_list() -> (r: Vec<String>) {
    memorable_wordlist::WORDS.iter().map(|w| w.to_string()).collect()
}

/// The alphabetic characters of `s`, in order.
pub open spec fn letters_of(s: Seq<char>) -> Seq<char>
    decreases s.len(),
{
    if s.len() == 0 {
        Seq::empty()
    } else if alphabetic(s.last()) {
        letters_of(s.drop_last()).push(s.last())
    } else {
        letters_of(s.drop_last())
    }
}

/// Whether some word stands for initial `c` in `m`.
pub open spec fn has_words(m: Map<u32, Vec<String>>, c: char) -> bool {
    m.contains_key(c as u32) && m[c as u32]@.len() > 0
}

/// Whether `w` is one of the words for initial `c` in `m`.
pub open spec fn word_for(m: Map<u32, Vec<String>>, c: char, w: Seq<char>) -> bool {
    m.contains_key(c as u32) && exists|i: int|
        0 <= i < m[c as u32]@.len() && (#[trigger] m[c as u32]@[i])@ == w
}

/// `ws` picks, for each letter of `letters`, one of its words in `m`.
pub open spec fn valid_choice(m: Map<u32, Vec<String>>, letters: Seq<char>, ws: Seq<Seq<char>>) -> bool {
    &&& ws.len() == letters.len()
    &&& forall|i: int| 0 <= i < ws.len() ==> word_for(m, letters[i], #[trigger] ws[i])
}

/// The words of `ws` separated by single spaces.
pub open spec fn joined(ws: Seq<Seq<char>>) -> Seq<char>
    decreases ws.len(),
{
    if ws.len() == 0 {
        Seq::empty()
    } else if ws.len() == 1 {
        ws[0]
    } else {
        joined(ws.drop_last()) + seq![' '] + ws.last()
    }
}

/// The words grouped by their first character, each group in list order;
/// empty words are left out.
pub open spec fn grouped(ws: Seq<String>) -> Map<u32, Seq<String>>
    decreases ws.len(),
{
    if ws.len() == 0 {
        Map::empty()
    } else {
        let m = grouped(ws.drop_last());
        let w = ws.last();
        if w@.len() == 0 {
            m
        } else {
            let k = w@[0] as u32;
            if m.contains_key(k) {
                m.insert(k, m[k].push(w))
            } else {
                m.insert(k, seq![w])
            }
        }
    }
}

/// Whether `m` holds the words of `ws` grouped by first character, each group
/// in list order, empty words left out.
pub open spec fn groups_words(m: Map<u32, Vec<String>>, ws: Seq<String>) -> bool {
    &&& forall|k: u32| m.contains_key(k) <==> grouped(ws).contains_key(k)
    &&& forall|k: u32| #[trigger] m.contains_key(k) ==> m[k]@ == grouped(ws)[k]
}

/// Whether `m` is a word list grouped by first character: every group is
/// non-empty, and every word in it is non-empty and starts with its key.
pub open spec fn word_map_of_list(m: Map<u32, Vec<String>>) -> bool {
    &&& exists|ws: Seq<String>| groups_words(m, ws)
    &&& forall|k: u32| #[trigger] m.contains_key(k) ==> m[k]@.len() > 0
    &&& forall|k: u32, i: int|
        m.contains_key(k) && 0 <= i < m[k]@.len() ==> (#[trigger] m[k]@[i])@.len() > 0
            && m[k]@[i]@[0] as u32 == k
}

/// A random lower-case letter from `a` to `y`, as a one-character string.
pub fn random_letter() -> (r: String)
    ensures
        r@.len() == 1,
        'a' <= r@[0] < 'z',
{
    let b = random_byte(97u8, 122u8);
    char_string(b as char)
}

/// A word of `word_map` that starts with `initial`, picked at random; `None`
/// when there is none.
pub fn randomly_choose_word_with_initial(word_map: &WordMap, initial: char) -> (r: Option<String>)
    ensures
        r is None <==> !has_words(word_map@, initial),
        r matches Some(w) ==> word_for(word_map@, initial, w@),
{
    let key = initial as u32;
    match word_map.get(&key) {
        None => None,
        Some(words) => choose_word(words),
    }
}

/// A backronym for `letters`: one random word of `prefix_list` per letter,
/// separated by spaces; the fixed apology when some letter has no word.
pub fn bacronym_of_letters(prefix_list: &WordMap, letters: &Vec<char>) -> (r: String)
    ensures
        (forall|i: int| 0 <= i < letters@.len() ==> has_words(prefix_list@, #[trigger] letters@[i]))
            ==> exists|ws: Seq<Seq<char>>|
            valid_choice(prefix_list@, letters@, ws) && r@ == joined(ws),
        !(forall|i: int| 0 <= i < letters@.len() ==> has_words(prefix_list@, #[trigger] letters@[i]))
            ==> r@ == NO_BACRONYM@,
{
    let mut out = String::new();
    let ghost mut ws: Seq<Seq<char>> = Seq::empty();
    let mut i: usize = 0;
    while i < letters.len()
        invariant
            i <= letters@.len(),
            ws.len() == i,
            forall|j: int| 0 <= j < i ==> has_words(prefix_list@, #[trigger] letters@[j]),
            forall|j: int| 0 <= j < i ==> word_for(prefix_list@, letters@[j], #[trigger] ws[j]),
            out@ == joined(ws),
        decreases letters@.len() - i,
    {
        match randomly_choose_word_with_initial(prefix_list, letters[i]) {
            None => {
                return String::from_str(NO_BACRONYM);
            },
            Some(w) => {
                proof {
                    reveal_strlit(" ");
                }
                if i > 0 {
                    out.append(" ");
                }
                out.append(w.as_str());
                proof {
                    let next = ws.push(w@);
                    assert(next.drop_last() =~= ws);
                    if i > 0 {
                        assert(out@ =~= joined(ws) + seq![' '] + w@);
                    } else {
                        assert(out@ =~= w@);
                    }
                    ws = next;
                }
            },
        }
        i = i + 1;
    }
    assert(valid_choice(prefix_list@, letters@, ws));
    out
}

/// The alphabetic characters of `s`, in order.
pub fn letters(s: &str) -> (r: Vec<char>)
    ensures
        r@ == letters_of(s@),
{
    let n = s.unicode_len();
    let mut out: Vec<char> = Vec::new();
    let mut i: usize = 0;
    while i < n
        invariant
            n == s@.len(),
            i <= n,
            out@ == letters_of(s@.subrange(0, i as int)),
        decreases n - i,
    {
        let c = s.get_char(i);
        proof {
            assert(s@.subrange(0, i + 1).drop_last() =~= s@.subrange(0, i as int));
        }
        if is_alphabetic(c) {
            out.push(c);
        }
        i = i + 1;
    }
    proof {
        assert(s@.subrange(0, n as int) =~= s@);
    }
    out
}

/// Whether every letter of `letters` has a word in `m`.
pub open spec fn all_have_words(m: Map<u32, Vec<String>>, letters: Seq<char>) -> bool {
    forall|i: int| 0 <= i < letters.len() ==> has_words(m, #[trigger] letters[i])
}

/// Whether `t` is a backronym of `acronym` from `m`: one word per alphabetic
/// character, separated by spaces; the fixed apology when some letter has no word.
pub open spec fn is_bacronym(m: Map<u32, Vec<String>>, acronym: Seq<char>, t: Seq<char>) -> bool {
    if all_have_words(m, letters_of(acronym)) {
        exists|ws: Seq<Seq<char>>| valid_choice(m, letters_of(acronym), ws) && t == joined(ws)
    } else {
        t == NO_BACRONYM@
    }
}

/// A backronym for the alphabetic characters of `acronym`: one random word of
/// `prefix_list` per letter, separated by spaces; the fixed apology when some
/// letter has no word.
pub fn bacronym(prefix_list: &WordMap, acronym: &str) -> (r: String)
    ensures
        is_bacronym(prefix_list@, acronym@, r@),
{
    let ls = letters(acronym);
    bacronym_of_letters(prefix_list, &ls)
}

/// `words` grouped by first character into a word map, each group in list
/// order; empty words are left out.
pub fn group_by_initial(words: &Vec<String>) -> (r: WordMap)
    ensures
        groups_words(r@, words@),
{
    let mut map: WordMap = HashMap::new();
    let mut i: usize = 0;
    while i < words.len()
        invariant
            i <= words@.len(),
            forall|k: u32| map@.contains_key(k) <==> grouped(words@.subrange(0, i as int)).contains_key(k),
            forall|k: u32| #[trigger]
                map@.contains_key(k) ==> map@[k]@ == grouped(words@.subrange(0, i as int))[k],
        decreases words@.len() - i,
    {
        let w = words[i].clone();
        proof {
            assert(words@.subrange(0, i + 1).drop_last() =~= words@.subrange(0, i as int));
            assert(words@.subrange(0, i + 1).last() == w);
        }
        if w.as_str().unicode_len() > 0 {
            let key = w.as_str().get_char(0) as u32;
            match map.remove(&key) {
                Some(mut group) => {
                    group.push(w);
                    map.insert(key, group);
                },
                None => {
                    let group = vec![w];
                    map.insert(key, group);
                },
            }
        }
        i = i + 1;
    }
    proof {
        assert(words@.subrange(0, words@.len() as int) =~= words@);
    }
    map
}

/// Every word of the built-in word list, grouped by first character, each
/// group in list order.
pub fn build_word_map() -> (r: WordMap)
    ensures
        word_map_of_list(r@),
{
    let words = word_list();
    let r = group_by_initial(&words);
    proof {
        lemma_groups_well_formed(words@);
        assert(groups_words(r@, words@));
        assert forall|k: u32, i: int| r@.contains_key(k) && 0 <= i < r@[k]@.len() implies (
        #[trigger] r@[k]@[i])@.len() > 0 && r@[k]@[i]@[0] as u32 == k by {
            assert(r@[k]@ == grouped(words@)[k]);
            assert(grouped(words@)[k][i] == r@[k]@[i]);
        }
    }
    r
}

/// Every group of a grouping is non-empty and holds non-empty words that start
/// with its key.
proof fn lemma_groups_well_formed(ws: Seq<String>)
    ensures
        forall|k: u32| #[trigger] grouped(ws).contains_key(k) ==> grouped(ws)[k].len() > 0,
        forall|k: u32, i: int|
            grouped(ws).contains_key(k) && 0 <= i < grouped(ws)[k].len() ==> (
            #[trigger] grouped(ws)[k][i])@.len() > 0 && grouped(ws)[k][i]@[0] as u32 == k,
    decreases ws.len(),
{
    if ws.len() > 0 {
        lemma_groups_well_formed(ws.drop_last());
        let m = grouped(ws.drop_last());
        assert forall|k: u32| #[trigger] grouped(ws).contains_key(k) implies grouped(ws)[k].len() > 0 by {
            if m.contains_key(k) {
                assert(m[k].len() > 0);
            }
        }
        assert forall|k: u32, i: int|
            grouped(ws).contains_key(k) && 0 <= i < grouped(ws)[k].len() implies (
            #[trigger] grouped(ws)[k][i])@.len() > 0 && grouped(ws)[k][i]@[0] as u32 == k by {
            let w = ws.last();
            if w@.len() > 0 && w@[0] as u32 == k {
                if m.contains_key(k) && i < m[k].len() {
                    assert(grouped(ws)[k][i] == m[k][i]);
                }
            } else {
                assert(grouped(ws)[k] == m[k]);
            }
        }
    }
}

} // verus!
