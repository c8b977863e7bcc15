use matrix_gen::{AgentId, Memory, MemoryEntry, MemorySource};

#[test]
fn with_history_marks_entries_as_historical() {
    let m = Memory::with_history(&["hello".to_string(), "goodbye".to_string()]);
    assert_eq!(m.entries.len(), 2);
    assert!(matches!(m.entries[0].source, MemorySource::Historical));
    assert_eq!(m.entries[0].tick, 0);
}

#[test]
fn memory_new_and_default_are_empty() {
    assert!(Memory::new().entries.is_empty());
    assert!(Memory::default().entries.is_empty());
}

#[test]
fn push_appends_at_the_end() {
    let mut m = Memory::with_history(&["old".to_string()]);
    let entry = MemoryEntry {
        tick: 42,
        content: "they mentioned ferns".into(),
        source: MemorySource::Observed { from: AgentId(7) },
    };
    m.push(entry.clone());
    assert_eq!(m.entries.len(), 2);
    assert_eq!(m.entries[0].content, "old");
    assert_eq!(m.entries[1], entry);
}
