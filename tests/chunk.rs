use llmcord::chunk::{chunk_text, pack_words, split_on, MESSAGE_CHUNK_SIZE};

fn chars(s: &str) -> Vec<char> {
    s.chars().collect()
}

fn check_cover(s: &str) {
    let chunks = chunk_text(&chars(s));
    assert!(!chunks.is_empty());
    assert_eq!(chunks.join(" "), s);
    for c in &chunks {
        assert!(c.chars().count() <= MESSAGE_CHUNK_SIZE || !c.contains(' '));
    }
}

#[test]
fn short_text_is_one_chunk() {
    assert_eq!(chunk_text(&chars("hello world")), vec!["hello world".to_string()]);
}

#[test]
fn empty_text_is_one_empty_chunk() {
    assert_eq!(chunk_text(&chars("")), vec![String::new()]);
}

#[test]
fn long_text_is_split_on_spaces_within_bound() {
    let word = "abcdefghi";
    let text = vec![word; 400].join(" ");
    let chunks = chunk_text(&chars(&text));
    assert_eq!(chunks.len(), 3);
    assert_eq!(chunks[0].chars().count(), 1499);
    assert_eq!(chunks.join(" "), text);
    check_cover(&text);
}

#[test]
fn oversized_word_stands_alone() {
    let big = "x".repeat(3000);
    let text = format!("a {big} b");
    let chunks = chunk_text(&chars(&text));
    assert_eq!(chunks, vec!["a".to_string(), big, "b".to_string()]);
}

#[test]
fn chunks_rejoin_to_text() {
    check_cover("  leading and  double  spaces ");
    check_cover(&"word ".repeat(1000));
}

#[test]
fn split_and_pack_small_bound() {
    let words = split_on(&chars("aa bb cc"), ' ');
    assert_eq!(words.len(), 3);
    let packed = pack_words(&words, 5);
    let packed: Vec<String> = packed.iter().map(|w| w.iter().collect()).collect();
    assert_eq!(packed, vec!["aa bb".to_string(), "cc".to_string()]);
}

#[test]
fn chunking_rejoined_chunks_is_stable() {
    let text = format!("{} tail", vec!["lorem ipsum"; 300].join(" "));
    let chunks = chunk_text(&chars(&text));
    let again = chunk_text(&chars(&chunks.join(" ")));
    assert_eq!(again, chunks);
}
