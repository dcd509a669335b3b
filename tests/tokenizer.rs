use gguf_reader::tokenizer::DevstralTokenizer;

#[test]
fn new_sets_special_ids() {
    let t = DevstralTokenizer::new(32000);
    assert_eq!(t.vocab_size, 32000);
    assert_eq!(t.pad_token_id, 0);
    assert_eq!(t.bos_token_id, 1);
    assert_eq!(t.eos_token_id, 2);
    assert_eq!(t.unk_token_id, 3);
}

#[test]
fn word_ids_follow_the_rolling_hash() {
    let t = DevstralTokenizer::new(100);
    assert_eq!(t.word_to_token_id("a"), 5);
    assert_eq!(t.word_to_token_id("ab"), 37);
    assert_eq!(t.word_to_token_id(""), 4);
}

#[test]
fn encode_wraps_words_in_begin_and_end() {
    let t = DevstralTokenizer::new(100);
    assert_eq!(t.encode("  a\tab\n"), vec![1, 5, 37, 2]);
    assert_eq!(t.encode(""), vec![1, 2]);
    assert_eq!(t.encode_words(&vec!["a".to_string()]), vec![1, 5, 2]);
}

#[test]
fn decode_skips_specials_and_stops_at_end() {
    let t = DevstralTokenizer::new(100);
    assert_eq!(t.decode(&[1, 5, 3, 0, 2, 7]), "word_5 <UNK>");
    assert_eq!(t.decode(&[1, 123, 2]), "word_123");
    assert_eq!(t.decode(&[]), "");
    assert_eq!(t.decode_pieces(&[10, 11]), "word_10 word_11 ");
}

#[test]
fn encode_then_decode_of_a_prompt() {
    let t = DevstralTokenizer::new(32000);
    let ids = t.encode("Hello, how are you today?");
    assert_eq!(ids.len(), 7);
    assert_eq!(ids[0], 1);
    assert_eq!(ids[6], 2);
    assert!(ids[1..6].iter().all(|&x| x >= 4 && x < 32000));
    let text = t.decode(&ids);
    assert_eq!(text.split(' ').count(), 5);
    assert!(text.starts_with("word_"));
}

#[test]
fn encode_of_word_free_text_needs_no_vocabulary() {
    assert_eq!(DevstralTokenizer::new(0).encode(""), vec![1, 2]);
    assert_eq!(DevstralTokenizer::new(0).encode("   "), vec![1, 2]);
    assert_eq!(DevstralTokenizer::new(3).encode(""), vec![1, 2]);
    assert_eq!(DevstralTokenizer::new(0).encode_words(&Vec::new()), vec![1, 2]);
}

#[test]
fn encode_splits_on_unicode_whitespace() {
    let t = DevstralTokenizer::new(100);
    assert_eq!(t.encode("a\u{3000}ab\u{a0}"), vec![1, 5, 37, 2]);
}

#[test]
fn decode_trims_only_the_ends() {
    let t = DevstralTokenizer::new(100);
    assert_eq!(t.decode(&[3, 5]), "<UNK>word_5");
    assert_eq!(t.decode(&[9, 3]), "word_9 <UNK>");
    assert_eq!(t.decode(&[4294967295]), "word_4294967295");
}
