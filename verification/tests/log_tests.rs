use tileworld::log::Logger;

#[test]
fn push_joins_messages_with_newlines() {
    let mut log = Logger::new();
    assert!(log.is_empty());
    log.push("first".to_string());
    log.push("second".to_string());
    assert_eq!(log.len(), 2);
    assert_eq!(log.buffer(), "first\nsecond");
}

#[test]
fn push_if_unique_drops_repeats() {
    let mut log = Logger::new();
    log.push_if_unique("lost connection".to_string());
    log.push_if_unique("lost connection".to_string());
    log.push_if_unique("missing texture".to_string());
    assert_eq!(log.len(), 2);
    assert_eq!(log.buffer(), "lost connection\nmissing texture");
}

#[test]
fn insert_behaves_like_push_if_unique() {
    let mut log = Logger::new();
    log.insert("a".to_string());
    log.insert("b".to_string());
    log.insert("a".to_string());
    assert_eq!(log.len(), 2);
    assert_eq!(log.message(0), "a");
    assert_eq!(log.message(1), "b");
}

#[test]
fn clear_empties_everything() {
    let mut log = Logger::new();
    log.push("noise".to_string());
    log.clear();
    assert!(log.is_empty());
    assert_eq!(log.len(), 0);
    assert_eq!(log.buffer(), "");
}

#[test]
fn set_message_rebuilds_the_buffer() {
    let mut log = Logger::new();
    log.push("old line".to_string());
    log.push("kept".to_string());
    log.set_message(0, "new line".to_string());
    assert_eq!(log.message(0), "new line");
    assert_eq!(log.buffer(), "new line\nkept");
}

#[test]
fn empty_message_adds_no_separator() {
    let mut log = Logger::new();
    log.push(String::new());
    log.push("visible".to_string());
    assert_eq!(log.len(), 2);
    assert_eq!(log.buffer(), "visible");
}
