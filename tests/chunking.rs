use thread_relay::chunker::chunk_reply;
use thread_relay::completion::last_choice_text;

#[test]
fn reply_of_4500_chars_makes_three_chunks() {
    let reply: String = std::iter::repeat('a').take(4500).collect();
    let chunks = chunk_reply(&reply, 2000);
    let lens: Vec<usize> = chunks.iter().map(|c| c.chars().count()).collect();
    assert_eq!(lens, vec![2000, 2000, 500]);
    assert_eq!(chunks.concat(), reply);
}

#[test]
fn chunks_keep_character_order() {
    let reply: String = (0..4500).map(|i| char::from(b'a' + (i % 26) as u8)).collect();
    let chunks = chunk_reply(&reply, 2000);
    assert_eq!(chunks.len(), 3);
    assert_eq!(chunks[0], reply[..2000]);
    assert_eq!(chunks[1], reply[2000..4000]);
    assert_eq!(chunks[2], reply[4000..]);
}

#[test]
fn empty_reply_makes_no_chunk() {
    assert!(chunk_reply("", 2000).is_empty());
}

#[test]
fn short_reply_is_one_chunk() {
    assert_eq!(chunk_reply("Hi", 2000), vec!["Hi".to_string()]);
}

#[test]
fn exact_multiple_has_no_empty_tail() {
    let chunks = chunk_reply("abcdef", 3);
    assert_eq!(chunks, vec!["abc".to_string(), "def".to_string()]);
}

#[test]
fn chunks_count_characters_not_bytes() {
    let chunks = chunk_reply("héllo wörld", 4);
    assert_eq!(chunks, vec!["héll".to_string(), "o wö".to_string(), "rld".to_string()]);
    assert_eq!(chunks.concat(), "héllo wörld");
}

#[test]
fn chunk_limit_of_one() {
    assert_eq!(chunk_reply("añb", 1), vec!["a".to_string(), "ñ".to_string(), "b".to_string()]);
}

#[test]
fn last_choice_is_the_reply() {
    let choices = vec!["first".to_string(), "second".to_string()];
    assert_eq!(last_choice_text(&choices), "second");
}

#[test]
fn no_choice_gives_empty_reply() {
    assert_eq!(last_choice_text(&Vec::new()), "");
}
