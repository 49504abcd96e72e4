use vstd::prelude::*;

verus! {

/// The sprite a subscriber gets when it has chosen none.
pub const DEFAULT_SUBSCRIBER_SPRITE_IDX: usize = 210;

/// Creates the table of portrait preferences when it is missing.
pub const CREATE_PREFERENCES_TABLE_QUERY: &'static str = "CREATE TABLE IF NOT EXISTS twitch_portrait_preferences (name VARCHAR(25) NOT NULL PRIMARY KEY, preference INTEGER);";

/// Looks up the preference of the user bound to its parameter.
pub const FIND_PREFERENCE_QUERY: &'static str = "SELECT preference FROM twitch_portrait_preferences WHERE name = ?";

/// Records the preference (second parameter) of a user (first parameter),
/// replacing the one recorded before.
pub const SAVE_PREFERENCE_QUERY: &'static str = "INSERT INTO twitch_portrait_preferences(name, preference) VALUES (?, ?) ON CONFLICT(name) DO UPDATE SET preference=excluded.preference;";

/// The portrait index of a user from what the table holds for it: the
/// recorded preference, or the default when none is recorded.
pub fn preference_or_default(found: Option<i64>, default_value: usize) -> (preference: usize)
    ensures
        preference == match found {
            Some(recorded) => recorded as usize,
            None => default_value,
        },
{
    match found {
        Some(recorded) => recorded as usize,
        None => default_value,
    }
}

/// The value a portrait index is recorded as in the table.
pub fn stored_preference(preference_idx: usize) -> (stored: i64)
    ensures
        stored == preference_idx as i64,
{
    preference_idx as i64
}

/// Recording an index and reading it back gives the index again, for every
/// index that the table's integers can hold.
pub proof fn lemma_stored_preference_read_back(preference_idx: usize)
    requires
        preference_idx <= i64::MAX,
    ensures
        (preference_idx as i64) as usize == preference_idx,
{
}

} // verus!
