use task_masker::ui::portrait_preferences::{
    preference_or_default, stored_preference, DEFAULT_SUBSCRIBER_SPRITE_IDX, FIND_PREFERENCE_QUERY,
    SAVE_PREFERENCE_QUERY,
};

#[test]
fn default_portrait_without_preference() {
    assert_eq!(210, DEFAULT_SUBSCRIBER_SPRITE_IDX);
    assert_eq!(
        DEFAULT_SUBSCRIBER_SPRITE_IDX,
        preference_or_default(None, DEFAULT_SUBSCRIBER_SPRITE_IDX)
    );
}

#[test]
fn recorded_preference_read_back() {
    assert_eq!(5, preference_or_default(Some(stored_preference(5)), DEFAULT_SUBSCRIBER_SPRITE_IDX));
    assert_eq!(8, preference_or_default(Some(stored_preference(8)), DEFAULT_SUBSCRIBER_SPRITE_IDX));
}

#[test]
fn queries_name_the_preference_table() {
    assert!(FIND_PREFERENCE_QUERY.contains("twitch_portrait_preferences"));
    assert!(SAVE_PREFERENCE_QUERY.contains("ON CONFLICT(name)"));
}
