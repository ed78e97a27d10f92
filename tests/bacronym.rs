use std::collections::HashMap;

use chatbot::bacronym::{
    bacronym, build_word_map, group_by_initial, letters, random_letter,
    randomly_choose_word_with_initial, NO_BACRONYM,
};
use chatbot::plugins::BacronymPlugin;

#[test]
fn extract_arg_finds_acronym_arg() {
    let plugin = BacronymPlugin::new();

    assert_eq!(plugin.extract_acronym(".bacronym").is_some(), true);
    assert_eq!(plugin.extract_acronym(".b").is_some(), true);
    assert_eq!(plugin.extract_acronym(".b ").is_some(), true);
    assert_eq!(plugin.extract_acronym(".bacronym foobar").unwrap(), Some("foobar".to_owned()));
    assert_eq!(plugin.extract_acronym(".b foobar").unwrap(), Some("foobar".to_owned()));
}

#[test]
fn bacronym_creates_bacronym() {
    let plugin = BacronymPlugin::new();
    assert_eq!(bacronym(&plugin.words, "hello").split_whitespace().count(), 5);
}

#[test]
fn randomly_letter_selects_letter() {
    let letter = random_letter();
    let chars = letter.chars().collect::<Vec<char>>();
    assert_eq!(chars.len() == 1, true);
    assert_eq!(chars[0].is_alphabetic(), true);
}

#[test]
fn randomly_choose_word_with_initial_chooses_word() {
    let mut word_map: HashMap<u32, Vec<String>> = HashMap::new();
    word_map.insert('a' as u32, vec!["apple".to_owned()]);

    assert_eq!(randomly_choose_word_with_initial(&word_map, 'a'), Some("apple".to_owned()));
    assert_eq!(randomly_choose_word_with_initial(&word_map, 'z'), None);
}

#[test]
fn build_prefix_list_has_data() {
    let word_map = build_word_map();
    assert_eq!(word_map.get(&('a' as u32)).unwrap().len() > 0, true);
}

fn small_map() -> HashMap<u32, Vec<String>> {
    let mut m: HashMap<u32, Vec<String>> = HashMap::new();
    m.insert('h' as u32, vec!["happy".to_owned()]);
    m.insert('i' as u32, vec!["igloo".to_owned()]);
    m.insert('x' as u32, vec![]);
    m
}

#[test]
fn bacronym_one_word_per_letter_in_order() {
    assert_eq!(bacronym(&small_map(), "hi"), "happy igloo");
    assert_eq!(bacronym(&small_map(), "h-i h"), "happy igloo happy");
}

#[test]
fn bacronym_missing_letter_apologises() {
    assert_eq!(bacronym(&small_map(), "hey"), NO_BACRONYM);
    assert_eq!(bacronym(&small_map(), "hx"), "Could not build a bacronym :(");
}

#[test]
fn bacronym_of_nothing_is_empty() {
    assert_eq!(bacronym(&small_map(), ""), "");
    assert_eq!(bacronym(&small_map(), "1 2 !"), "");
}

#[test]
fn choose_word_none_for_empty_group() {
    assert_eq!(randomly_choose_word_with_initial(&small_map(), 'x'), None);
}

#[test]
fn letters_keeps_alphabetic_only() {
    assert_eq!(letters("a1 b-Ç"), vec!['a', 'b', 'Ç']);
}

#[test]
fn group_by_initial_groups_in_order() {
    let words: Vec<String> = vec!["apple", "", "bear", "ant", "éclair"]
        .into_iter()
        .map(|w| w.to_owned())
        .collect();
    let m = group_by_initial(&words);
    assert_eq!(m.len(), 3);
    assert_eq!(m.get(&('a' as u32)).unwrap(), &vec!["apple".to_owned(), "ant".to_owned()]);
    assert_eq!(m.get(&('b' as u32)).unwrap(), &vec!["bear".to_owned()]);
    assert_eq!(m.get(&('é' as u32)).unwrap(), &vec!["éclair".to_owned()]);
}

#[test]
fn random_letter_in_range() {
    for _ in 0..50 {
        let c = random_letter().chars().next().unwrap();
        assert!(('a'..'z').contains(&c));
    }
}
