//! Application configuration: its sections, the chat-model settings derived from it,
//! and the character list.
use vstd::prelude::*;
use vstd::string::*;
use crate::keyed::KeyedList;
use crate::llm::LLMProvider;
use crate::profile::CharacterBrief;
use crate::text::str_eq;

verus! {

/// Settings of the chat window.
pub struct ChatConfig {
    pub enabled: bool,
    pub max_messages: u32,
    pub window_width: u32,
    pub window_height: u32,
}

/// Access to a chat service.
pub struct ProviderConfig {
    pub api_key: String,
    pub base_url: String,
    pub model: String,
}

/// Access to the Minimax service (its address is fixed).
pub struct MinimaxConfig {
    pub api_key: String,
    pub model: String,
}

/// The chat-model section of the configuration. The temperature, a 32-bit float, is
/// held by its IEEE-754 bit pattern.
pub struct LLMConfigData {
    pub provider: String,
    pub deepseek: ProviderConfig,
    pub minimax: MinimaxConfig,
    pub ollama: ProviderConfig,
    pub temperature_bits: u32,
    pub max_tokens: u32,
    pub stream: bool,
}

/// A voice of the speech service.
pub struct VoiceConfig {
    pub speaker: String,
    pub emo: String,
    pub emo_method: Option<String>,
    /// Speaking speed, a 32-bit float held by its bit pattern.
    pub speed_bits: Option<u32>,
}

impl Default for VoiceConfig {
    /// A voice with empty names and no method or speed.
    fn default() -> (v: Self)
        ensures
            v.speaker@.len() == 0,
            v.emo@.len() == 0,
            v.emo_method is None,
            v.speed_bits is None,
    {
        VoiceConfig {
            speaker: String::new(),
            emo: String::new(),
            emo_method: None,
            speed_bits: None,
        }
    }
}

/// Settings of the IndexTTS2 server.
pub struct IndexTTS2Config {
    pub base_url: String,
}

/// Settings of speech output.
pub struct TTSConfig {
    pub enabled: bool,
    pub provider: String,
    pub base_url: String,
    pub default_voice_id: String,
    pub voices: KeyedList<VoiceConfig>,
    pub indextts2: IndexTTS2Config,
}

impl Default for TTSConfig {
    /// Speech off, the local IndexTTS2 server, the `suyao` voice, no voices registered.
    fn default() -> (c: Self)
        ensures
            !c.enabled,
            c.provider@ == "indextts2"@,
            c.base_url@ == "http://localhost:9880"@,
            c.default_voice_id@ == "suyao"@,
            c.voices@.len() == 0,
            c.indextts2.base_url@ == "http://localhost:9880"@,
    {
        TTSConfig {
            enabled: false,
            provider: String::from_str("indextts2"),
            base_url: String::from_str("http://localhost:9880"),
            default_voice_id: String::from_str("suyao"),
            voices: KeyedList::new(),
            indextts2: IndexTTS2Config { base_url: String::from_str("http://localhost:9880") },
        }
    }
}

/// Settings of the conversation memory.
pub struct MemoryConfig {
    pub enabled: bool,
    pub retention_days: u32,
    pub context_weeks: u32,
    pub auto_summary: bool,
    pub profile_update_interval: u32,
}

/// Which character is in use.
pub struct CharactersConfig {
    pub current: String,
}

/// The whole configuration file.
pub struct AppConfig {
    pub llm: LLMConfigData,
    pub tts: TTSConfig,
    pub memory: MemoryConfig,
    pub characters: CharactersConfig,
    pub chat: ChatConfig,
}

/// A character the user can talk to.
pub struct Character {
    pub id: String,
    pub name: String,
    pub description: String,
    pub avatar: String,
    pub preferred_address: String,
    pub system_prompt: String,
    pub preset_prompt: String,
    pub voice_id: Option<String>,
}

// ── Chat-model settings ─────────────────────────────────────────────

/// Settings used to talk to the chat model. The temperature is held by its bits.
pub struct LLMConfig {
    pub provider: LLMProvider,
    pub api_key: String,
    pub base_url: String,
    pub model: String,
    pub temperature_bits: u32,
    pub max_tokens: u32,
    pub stream: bool,
}

/// Bits of the 32-bit float 0.8.
pub const TEMPERATURE_0_8_BITS: u32 = 0x3f4c_cccd;

impl Default for LLMConfig {
    /// DeepSeek's `deepseek-v4-flash` with no key, temperature 0.8, 500 tokens, no streaming.
    fn default() -> (c: Self)
        ensures
            c.provider == LLMProvider::DeepSeek,
            c.api_key@.len() == 0,
            c.base_url@ == "https://api.deepseek.com/v1"@,
            c.model@ == "deepseek-v4-flash"@,
            c.temperature_bits == TEMPERATURE_0_8_BITS,
            c.max_tokens == 500,
            !c.stream,
    {
        LLMConfig {
            provider: LLMProvider::DeepSeek,
            api_key: String::new(),
            base_url: String::from_str("https://api.deepseek.com/v1"),
            model: String::from_str("deepseek-v4-flash"),
            temperature_bits: TEMPERATURE_0_8_BITS,
            max_tokens: 500,
            stream: false,
        }
    }
}

/// The provider named in the configuration: `minimax`, `ollama` (served by llama.cpp),
/// and DeepSeek for `deepseek` or any other name.
pub open spec fn provider_of(name: Seq<char>) -> LLMProvider {
    if name == "deepseek"@ {
        LLMProvider::DeepSeek
    } else if name == "minimax"@ {
        LLMProvider::Minimax
    } else if name == "ollama"@ {
        LLMProvider::LlamaCpp
    } else {
        LLMProvider::DeepSeek
    }
}

/// The provider named in the configuration (see [`provider_of`]).
pub fn parse_provider(name: &str) -> (p: LLMProvider)
    ensures
        p == provider_of(name@),
{
    if str_eq(name, "deepseek") {
        LLMProvider::DeepSeek
    } else if str_eq(name, "minimax") {
        LLMProvider::Minimax
    } else if str_eq(name, "ollama") {
        LLMProvider::LlamaCpp
    } else {
        LLMProvider::DeepSeek
    }
}

/// The chat-model settings for the configured provider: its key, address and model
/// (Minimax at its fixed address), with the section's temperature, token limit and
/// streaming switch.
pub fn llm_config_from(llm: LLMConfigData) -> (c: LLMConfig)
    ensures
        c.provider == provider_of(llm.provider@),
        c.provider == LLMProvider::DeepSeek ==> c.api_key == llm.deepseek.api_key
            && c.base_url == llm.deepseek.base_url && c.model == llm.deepseek.model,
        c.provider == LLMProvider::Minimax ==> c.api_key == llm.minimax.api_key && c.base_url@
            == "https://api.minimax.chat/v1"@ && c.model == llm.minimax.model,
        c.provider == LLMProvider::LlamaCpp ==> c.api_key == llm.ollama.api_key && c.base_url
            == llm.ollama.base_url && c.model == llm.ollama.model,
        c.temperature_bits == llm.temperature_bits,
        c.max_tokens == llm.max_tokens,
        c.stream == llm.stream,
{
    let provider = parse_provider(llm.provider.as_str());
    let (api_key, base_url, model) = match provider {
        LLMProvider::Minimax => (
            llm.minimax.api_key,
            String::from_str("https://api.minimax.chat/v1"),
            llm.minimax.model,
        ),
        LLMProvider::LlamaCpp => (llm.ollama.api_key, llm.ollama.base_url, llm.ollama.model),
        _ => (llm.deepseek.api_key, llm.deepseek.base_url, llm.deepseek.model),
    };
    LLMConfig {
        provider,
        api_key,
        base_url,
        model,
        temperature_bits: llm.temperature_bits,
        max_tokens: llm.max_tokens,
        stream: llm.stream,
    }
}

// ── Characters ──────────────────────────────────────────────────────

/// Items found by their id.
pub trait Identified {
    spec fn id_view(&self) -> Seq<char>;

    fn id_str(&self) -> (s: &str)
        ensures
            s@ == self.id_view(),
    ;
}

impl Identified for Character {
    open spec fn id_view(&self) -> Seq<char> {
        self.id@
    }

    fn id_str(&self) -> (s: &str) {
        self.id.as_str()
    }
}

/// Some item of the list has the id.
pub open spec fn has_id<T: Identified>(s: Seq<T>, id: Seq<char>) -> bool {
    exists|i: int| 0 <= i < s.len() && #[trigger] s[i].id_view() == id
}

/// `acc` followed by each of `extra` in order whose id is not already listed.
pub open spec fn add_unlisted<T: Identified>(acc: Seq<T>, extra: Seq<T>) -> Seq<T>
    decreases extra.len(),
{
    if extra.len() == 0 {
        acc
    } else {
        let next = if has_id(acc, extra[0].id_view()) {
            acc
        } else {
            acc.push(extra[0])
        };
        add_unlisted(next, extra.skip(1))
    }
}

fn contains_id<T: Identified>(v: &Vec<T>, id: &str) -> (b: bool)
    ensures
        b == has_id(v@, id@),
{
    let mut i: usize = 0;
    while i < v.len()
        invariant
            i <= v@.len(),
            forall|j: int| 0 <= j < i ==> v@[j].id_view() != id@,
        decreases v.len() - i,
    {
        if str_eq(v[i].id_str(), id) {
            return true;
        }
        i = i + 1;
    }
    false
}

/// The user's items followed by the built-in ones whose id is not yet listed
/// (see [`add_unlisted`]).
pub fn merge_by_id<T: Identified>(user: Vec<T>, builtin: Vec<T>) -> (r: Vec<T>)
    ensures
        r@ == add_unlisted(user@, builtin@),
{
    let ghost all = builtin@;
    let mut acc = user;
    let mut rest = builtin;
    let ghost mut i: int = 0;
    assert(all.skip(0) =~= all);
    while rest.len() > 0
        invariant
            0 <= i <= all.len(),
            rest@ == all.skip(i),
            add_unlisted(user@, all) == add_unlisted(acc@, all.skip(i)),
        decreases rest.len(),
    {
        let x = rest.remove(0);
        proof {
            assert(all.skip(i)[0] == x);
            assert(all.skip(i).skip(1) =~= all.skip(i + 1));
        }
        let present = contains_id(&acc, x.id_str());
        if !present {
            acc.push(x);
        }
        proof {
            i = i + 1;
        }
    }
    assert(all.skip(i).len() == 0);
    acc
}

/// The list entry of a character.
pub open spec fn brief_of(c: Character) -> CharacterBrief {
    CharacterBrief {
        id: c.id,
        name: c.name,
        description: c.description,
        avatar: c.avatar,
        preferred_address: c.preferred_address,
    }
}

/// The list entries of characters, in order.
pub fn character_briefs(characters: Vec<Character>) -> (r: Vec<CharacterBrief>)
    ensures
        r@ == characters@.map_values(|c: Character| brief_of(c)),
{
    let ghost all = characters@;
    let mut rest = characters;
    let mut r: Vec<CharacterBrief> = Vec::new();
    let ghost mut i: int = 0;
    while rest.len() > 0
        invariant
            0 <= i <= all.len(),
            rest@ == all.skip(i),
            r@ == all.take(i).map_values(|c: Character| brief_of(c)),
        decreases rest.len(),
    {
        let c = rest.remove(0);
        proof {
            assert(all.skip(i)[0] == c);
            assert(all.skip(i).skip(1) =~= all.skip(i + 1));
            assert(all.take(i + 1) =~= all.take(i).push(c));
        }
        r.push(
            CharacterBrief {
                id: c.id,
                name: c.name,
                description: c.description,
                avatar: c.avatar,
                preferred_address: c.preferred_address,
            },
        );
        assert(r@ =~= all.take(i + 1).map_values(|c: Character| brief_of(c)));
        proof {
            i = i + 1;
        }
    }
    assert(all.take(i) =~= all);
    r
}

/// The voice of the current character, when it has one.
pub fn get_current_character_voice_id_internal(character: Option<&Character>) -> (r: Option<String>)
    ensures
        r == match character {
            Some(c) => c.voice_id,
            None => None,
        },
{
    match character {
        Some(c) => match &c.voice_id {
            Some(v) => Some(v.clone()),
            None => None,
        },
        None => None,
    }
}

impl AppConfig {
    /// Makes another character current; nothing else changes.
    pub fn switch_character(&mut self, id: String)
        ensures
            final(self).characters.current == id,
            final(self).llm == old(self).llm,
            final(self).tts == old(self).tts,
            final(self).memory == old(self).memory,
            final(self).chat == old(self).chat,
    {
        self.characters.current = id;
    }

    /// Replaces the speech settings; nothing else changes.
    pub fn set_tts(&mut self, tts: TTSConfig)
        ensures
            final(self).tts == tts,
            final(self).llm == old(self).llm,
            final(self).characters == old(self).characters,
            final(self).memory == old(self).memory,
            final(self).chat == old(self).chat,
    {
        self.tts = tts;
    }
}

proof fn lemma_has_id_prefix<T: Identified>(s: Seq<T>, t: Seq<T>, id: Seq<char>)
    requires
        s.len() <= t.len(),
        t.take(s.len() as int) == s,
        has_id(s, id),
    ensures
        has_id(t, id),
{
    let i = choose|i: int| 0 <= i < s.len() && #[trigger] s[i].id_view() == id;
    assert(t[i] == t.take(s.len() as int)[i]);
    assert(t[i].id_view() == id);
}

/// Merging lists by id keeps the first list as it is, in front, and lists every id of
/// the second: an item of the second list is added unless its id is already listed.
pub proof fn lemma_merge_by_id_covers<T: Identified>(acc: Seq<T>, extra: Seq<T>)
    ensures
        add_unlisted(acc, extra).len() >= acc.len(),
        add_unlisted(acc, extra).len() <= acc.len() + extra.len(),
        add_unlisted(acc, extra).take(acc.len() as int) == acc,
        forall|i: int| 0 <= i < extra.len() ==> has_id(add_unlisted(acc, extra), (#[trigger] extra[i]).id_view()),
    decreases extra.len(),
{
    if extra.len() > 0 {
        let x = extra[0];
        let next = if has_id(acc, x.id_view()) {
            acc
        } else {
            acc.push(x)
        };
        lemma_merge_by_id_covers(next, extra.skip(1));
        let r = add_unlisted(acc, extra);
        assert(r == add_unlisted(next, extra.skip(1)));
        assert(next.take(acc.len() as int) =~= acc);
        assert(r.take(acc.len() as int) =~= next.take(acc.len() as int)) by {
            assert forall|k: int| 0 <= k < acc.len() implies r[k] == next[k] by {
                assert(r.take(next.len() as int)[k] == next[k]);
            }
        }
        if !has_id(acc, x.id_view()) {
            assert(next[acc.len() as int] == x);
            assert(has_id(next, x.id_view()));
        }
        lemma_has_id_prefix(next, r, x.id_view());
        assert forall|i: int| 0 <= i < extra.len() implies has_id(r, (#[trigger] extra[i]).id_view()) by {
            if i > 0 {
                assert(extra.skip(1)[i - 1] == extra[i]);
            }
        }
    } else {
        assert(acc.take(acc.len() as int) =~= acc);
    }
}

} // verus!
