//! The user profile kept per character, and the character list entry.
use vstd::prelude::*;
use crate::keyed::StringMap;

verus! {

/// Something the user and the character did together.
pub struct Interaction {
    pub date: String,
    pub activity: String,
    pub summary: String,
}

/// A memory the character keeps about the user.
pub struct SpecialMemory {
    pub title: String,
    pub description: String,
    pub date: String,
    pub tags: Vec<String>,
}

/// What the character knows about the user.
pub struct UserProfile {
    pub user_name: Option<String>,
    pub traits: Vec<String>,
    pub preferences: StringMap,
    pub important_dates: StringMap,
    pub recent_interactions: Vec<Interaction>,
    pub special_memories: Vec<SpecialMemory>,
    /// Number of user messages when the profile was last rebuilt.
    pub last_update_conversation_count: u32,
    pub last_updated: String,
}

impl Default for UserProfile {
    /// A profile with nothing known yet.
    fn default() -> (p: Self)
        ensures
            p.user_name is None,
            p.traits@.len() == 0,
            p.preferences@.len() == 0,
            p.important_dates@.len() == 0,
            p.recent_interactions@.len() == 0,
            p.special_memories@.len() == 0,
            p.last_update_conversation_count == 0,
            p.last_updated@.len() == 0,
    {
        UserProfile {
            user_name: None,
            traits: Vec::new(),
            preferences: StringMap::new(),
            important_dates: StringMap::new(),
            recent_interactions: Vec::new(),
            special_memories: Vec::new(),
            last_update_conversation_count: 0,
            last_updated: String::new(),
        }
    }
}

/// A character as listed, without its prompts.
pub struct CharacterBrief {
    pub id: String,
    pub name: String,
    pub description: String,
    pub avatar: String,
    pub preferred_address: String,
}

} // verus!
