use thread_relay::directory::{PromptDirectory, PromptRule, TableError};
use thread_relay::text::parse_identifier;

fn literal(dir: &PromptDirectory, container: u64) -> Option<String> {
    match dir.get(container) {
        Some(PromptRule::Literal(t)) => Some(t.clone()),
        _ => None,
    }
}

fn reference(dir: &PromptDirectory, container: u64) -> Option<u64> {
    match dir.get(container) {
        Some(PromptRule::DynamicReference(c)) => Some(*c),
        _ => None,
    }
}

#[test]
fn table_reads_literal_and_reference_rules() {
    let table = "# chat prompt\n1103101252830765096 1110235580220063804\n42 = Be concise.\n\n7 = \n";
    let dir = PromptDirectory::from_table(table).ok().unwrap();
    assert_eq!(reference(&dir, 1103101252830765096), Some(1110235580220063804));
    assert_eq!(literal(&dir, 42), Some("Be concise.".to_string()));
    assert_eq!(literal(&dir, 7), Some(String::new()));
    assert!(dir.contains(42));
    assert!(!dir.contains(43));
    assert!(dir.get(1110235580220063804).is_none());
}

#[test]
fn literal_keeps_its_spaces_and_equals_signs() {
    let dir = PromptDirectory::from_table("5 = a = b  c").ok().unwrap();
    assert_eq!(literal(&dir, 5), Some("a = b  c".to_string()));
}

#[test]
fn empty_table_registers_nothing() {
    let dir = PromptDirectory::from_table("").ok().unwrap();
    assert!(!dir.contains(0));
    assert!(!PromptDirectory::new().contains(0));
}

#[test]
fn malformed_line_is_reported_with_its_number() {
    assert_eq!(PromptDirectory::from_table("1 2\nnot a rule\n").err(), Some(TableError::Malformed { line: 2 }));
    assert_eq!(PromptDirectory::from_table("12").err(), Some(TableError::Malformed { line: 1 }));
    assert_eq!(PromptDirectory::from_table("1 2x").err(), Some(TableError::Malformed { line: 1 }));
    assert_eq!(PromptDirectory::from_table("1  2").err(), Some(TableError::Malformed { line: 1 }));
    assert_eq!(PromptDirectory::from_table("1 =x").err(), Some(TableError::Malformed { line: 1 }));
}

#[test]
fn id_too_large_is_malformed() {
    assert_eq!(
        PromptDirectory::from_table("18446744073709551616 1").err(),
        Some(TableError::Malformed { line: 1 })
    );
    let dir = PromptDirectory::from_table("18446744073709551615 1").ok().unwrap();
    assert_eq!(reference(&dir, u64::MAX), Some(1));
}

#[test]
fn repeated_container_is_refused() {
    assert_eq!(
        PromptDirectory::from_table("1 2\n3 = x\n1 = y\n").err(),
        Some(TableError::DuplicateContainer { line: 3 })
    );
}

#[test]
fn identifiers_parse_as_decimal() {
    assert_eq!(parse_identifier("1103101252830765096"), Some(1103101252830765096));
    assert_eq!(parse_identifier("0"), Some(0));
    assert_eq!(parse_identifier(""), None);
    assert_eq!(parse_identifier("12a"), None);
    assert_eq!(parse_identifier(" 12"), None);
    assert_eq!(parse_identifier("99999999999999999999"), None);
}
