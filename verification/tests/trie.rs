use calculator::tokeniser::trie::Trie;

#[test]
fn pushes_elements() {
    let mut trie = Trie::new();
    trie.push("abc");
    trie.push("abd");

    assert_eq!(trie.end(), None);
    assert_eq!(
        trie.get('a').unwrap().get('b').unwrap().get('d').unwrap().end(),
        Some(3)
    )
}

#[test]
fn returns_has_for_elements() {
    let mut trie = Trie::new();
    trie.push("abc");
    trie.push("abd");

    assert_eq!(trie.has("abc"), true);
    assert_eq!(trie.has("abd"), true);
    assert_eq!(trie.has("adc"), false);
}

#[test]
fn creates_from_list() {
    let trie = Trie::from_list(&["abc", "abd"]);

    assert_eq!(trie.has("abc"), true);
    assert_eq!(trie.has("abd"), true);
    assert_eq!(trie.has("adc"), false);
    assert_eq!(trie.has("abcd"), false);
    assert_eq!(trie.has("ab"), false);
}

#[test]
fn words_keep_their_lengths() {
    let mut trie = Trie::new();
    assert!(!trie.is_leaf());
    assert!(trie.push("é試"));
    assert!(trie.push("é"));
    assert!(trie.push(""));
    assert!(trie.is_leaf());
    assert_eq!(trie.end(), Some(0));
    assert_eq!(trie.get('é').unwrap().end(), Some(1));
    assert_eq!(trie.get('é').unwrap().get('試').unwrap().end(), Some(2));
    assert!(trie.get('é').unwrap().is_leaf());
    assert!(trie.get('試').is_none());
    assert!(trie.has("") && trie.has("é") && trie.has("é試"));
    assert!(!trie.has("試"));
}

#[test]
fn pushing_twice_changes_nothing() {
    let mut trie = Trie::from_list(&["ab", "a"]);
    assert!(trie.push("ab"));
    assert!(trie.has("ab") && trie.has("a"));
    assert!(!trie.has("b") && !trie.has("abc") && !trie.has(""));
    assert_eq!(trie.get('a').unwrap().get('b').unwrap().end(), Some(2));
}

#[test]
fn starts_and_steps() {
    let trie = Trie::from_list(&["::", ":", "+="]);
    assert!(trie.has_start(':') && trie.has_start('+'));
    assert!(!trie.has_start('='));
    let colon = trie.get(':').unwrap();
    assert!(colon.is_leaf());
    assert!(colon.has_start(':'));
    assert!(colon.get(':').unwrap().is_leaf());
    assert!(colon.get(':').unwrap().get(':').is_none());
    let plus = trie.get('+').unwrap();
    assert!(!plus.is_leaf());
    assert!(plus.get('=').unwrap().is_leaf());
    assert!(Trie::new().get('a').is_none());
    assert!(!Trie::new().has_start('a'));
}

#[test]
fn has_prefix_is_true_of_the_empty_word_and_of_whole_words() {
    let trie = Trie::from_list(&["abc"]);
    assert!(trie.has_prefix(""));
    assert!(trie.has_prefix("abc"));
    assert!(!trie.has_prefix("ab"));
    assert!(!trie.has_prefix("abd"));
    assert!(!trie.has("") && Trie::new().has_prefix(""));
}
