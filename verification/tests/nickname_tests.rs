use hookrunner::nickname::{validate, MAX_NICKNAME_CHARS};
use hookrunner::title::NicknameDraft;

#[test]
fn validate_trims_and_accepts() {
    assert_eq!(validate("  Ada  "), Ok("Ada".to_string()));
}

#[test]
fn validate_rejects_empty_and_blank() {
    assert_eq!(validate(""), Err("Enter a nickname."));
    assert_eq!(validate(" \t\n "), Err("Enter a nickname."));
}

#[test]
fn validate_length_limit() {
    let twenty = "a".repeat(MAX_NICKNAME_CHARS);
    assert_eq!(validate(&twenty), Ok(twenty.clone()));
    let twenty_one = "a".repeat(MAX_NICKNAME_CHARS + 1);
    assert_eq!(validate(&twenty_one), Err("Use at most 20 characters."));
    // The limit counts characters, not bytes.
    let wide = "é".repeat(20);
    assert_eq!(validate(&wide), Ok(wide.clone()));
}

#[test]
fn validate_rejects_other_characters() {
    assert_eq!(validate("a!b"), Err("Use letters, numbers, spaces, _ or -."));
    assert_eq!(validate("tab\there"), Err("Use letters, numbers, spaces, _ or -."));
}

#[test]
fn validate_accepts_allowed_characters() {
    assert_eq!(validate("Zoë_42 the-Great"), Ok("Zoë_42 the-Great".to_string()));
    assert_eq!(validate("名前"), Ok("名前".to_string()));
}

#[test]
fn validate_output_is_fixed_point() {
    for input in ["  Ada  ", "x", "  a b  ", "Zoë"] {
        let once = validate(input).unwrap();
        assert_eq!(validate(&once), Ok(once.clone()));
    }
}

#[test]
fn draft_typing_respects_limit_and_controls() {
    let mut draft = NicknameDraft::default();
    draft.insert_text("abc");
    assert_eq!(draft.value, "abc");
    draft.insert_text("\u{7}x");
    assert_eq!(draft.value, "abc");
    draft.insert_text(&"z".repeat(30));
    assert_eq!(draft.value.chars().count(), MAX_NICKNAME_CHARS);
    assert!(draft.value.starts_with("abczzz"));
}

#[test]
fn draft_select_all_then_type_replaces() {
    let mut draft = NicknameDraft::default();
    draft.insert_text("old");
    draft.select_all();
    assert!(draft.selected);
    draft.insert_text("new");
    assert_eq!(draft.value, "new");
    assert!(!draft.selected);
}

#[test]
fn draft_erase_and_clear() {
    let mut draft = NicknameDraft::default();
    draft.insert_text("héé");
    draft.erase();
    assert_eq!(draft.value, "hé");
    draft.select_all();
    draft.erase();
    assert_eq!(draft.value, "");
    draft.erase();
    assert_eq!(draft.value, "");
}

#[test]
fn draft_submit() {
    let mut draft = NicknameDraft::default();
    draft.insert_text("  Bo ");
    assert_eq!(draft.submit(), Some("Bo".to_string()));
    assert_eq!(draft.value, "Bo");
    assert_eq!(draft.error, None);
    let mut bad = NicknameDraft::default();
    bad.insert_text("#");
    assert_eq!(bad.submit(), None);
    assert_eq!(bad.error.as_deref(), Some("Use letters, numbers, spaces, _ or -."));
    assert_eq!(bad.value, "#");
}
