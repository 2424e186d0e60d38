use squid::value::{State, TinyLangType};

#[test]
fn reading_back_what_was_stored() {
    let mut state = State::new();
    assert_eq!(state.len(), 0);
    assert!(state.get("name").is_none());
    assert!(state.insert("name".into(), TinyLangType::String("rust".into())).is_none());
    assert!(state.get("name") == Some(&TinyLangType::String("rust".into())));
    assert_eq!(state.len(), 1);
}

#[test]
fn storing_again_replaces_and_hands_back_the_old_value() {
    let mut state = State::new();
    state.insert("k".into(), TinyLangType::Numeric(1));
    state.insert("other".into(), TinyLangType::Bool(true));
    let old = state.insert("k".into(), TinyLangType::Numeric(2));
    assert!(old == Some(TinyLangType::Numeric(1)));
    assert!(state.get("k") == Some(&TinyLangType::Numeric(2)));
    assert!(state.get("other") == Some(&TinyLangType::Bool(true)));
    assert_eq!(state.len(), 2);
}

#[test]
fn values_are_shown_as_text() {
    assert_eq!(TinyLangType::String("hi".into()).to_display_string(), "hi");
    assert_eq!(TinyLangType::Numeric(-42).to_display_string(), "-42");
    assert_eq!(TinyLangType::Numeric(0).to_display_string(), "0");
    assert_eq!(TinyLangType::Bool(true).to_display_string(), "true");
    assert_eq!(TinyLangType::Bool(false).to_display_string(), "false");
    assert_eq!(TinyLangType::Nil.to_display_string(), "nil");
}
