//! The prompt template and role presets.
use vstd::prelude::*;
use vstd::string::*;
use crate::config::Identified;

verus! {

/// The template from which the system prompt is assembled.
pub struct PromptTemplate {
    pub template_version: String,
    pub system_prompt_template: String,
    pub components: PromptComponents,
    pub summary_prompts: SummaryPrompts,
}

/// The parts of the system prompt.
pub struct PromptComponents {
    pub role_preset: ComponentConfig,
    pub user_profile: ComponentConfig,
    pub long_term_memory: ComponentConfig,
    pub short_term_memory: ComponentConfig,
}

/// One part of the system prompt.
pub struct ComponentConfig {
    pub enabled: bool,
    pub description: String,
    pub prompt: Option<String>,
    pub max_weeks: Option<u32>,
    pub max_messages: Option<u32>,
}

/// Instructions for the weekly and monthly summaries.
pub struct SummaryPrompts {
    pub weekly: String,
    pub monthly: String,
}

/// A role the character can play.
pub struct RolePreset {
    pub id: String,
    pub name: String,
    pub description: String,
    pub prompt: String,
}

impl Identified for RolePreset {
    open spec fn id_view(&self) -> Seq<char> {
        self.id@
    }

    fn id_str(&self) -> (s: &str) {
        self.id.as_str()
    }
}

fn component(
    description: &str,
    prompt: Option<&str>,
    max_weeks: Option<u32>,
    max_messages: Option<u32>,
) -> (c: ComponentConfig)
    ensures
        c.enabled,
        c.description@ == description@,
        match prompt {
            Some(p) => c.prompt matches Some(q) && q@ == p@,
            None => c.prompt is None,
        },
        c.max_weeks == max_weeks,
        c.max_messages == max_messages,
{
    ComponentConfig {
        enabled: true,
        description: String::from_str(description),
        prompt: match prompt {
            Some(p) => Some(String::from_str(p)),
            None => None,
        },
        max_weeks,
        max_messages,
    }
}

/// The template used when no template file exists: version 1.0, all four parts enabled,
/// four weeks of long-term memory and twenty recent messages.
pub fn default_prompt_template() -> (t: PromptTemplate)
    ensures
        t.template_version@ == "1.0"@,
        t.system_prompt_template@
            == "{role_preset}\n\n{user_profile}\n\n{long_term_memory}\n\n{短期记忆}\n\n当前对话："@,
        t.components.role_preset.enabled,
        t.components.role_preset.description@ == "角色预设"@,
        t.components.role_preset.prompt is None,
        t.components.role_preset.max_weeks is None,
        t.components.role_preset.max_messages is None,
        t.components.user_profile.enabled,
        t.components.user_profile.description@ == "用户画像"@,
        t.components.user_profile.prompt matches Some(p) && p@ == "## 用户信息\n{user_info}"@,
        t.components.user_profile.max_weeks is None,
        t.components.user_profile.max_messages is None,
        t.components.long_term_memory.enabled,
        t.components.long_term_memory.description@ == "长期记忆"@,
        t.components.long_term_memory.prompt matches Some(p) && p@ == "## 近期记忆\n{memory_summary}"@,
        t.components.long_term_memory.max_weeks == Some(4u32),
        t.components.long_term_memory.max_messages is None,
        t.components.short_term_memory.enabled,
        t.components.short_term_memory.description@ == "短期记忆"@,
        t.components.short_term_memory.prompt matches Some(p) && p@ == "## 今日对话\n{chat_history}"@,
        t.components.short_term_memory.max_weeks is None,
        t.components.short_term_memory.max_messages == Some(20u32),
        t.summary_prompts.weekly@ == "请分析以下一周的对话记录..."@,
        t.summary_prompts.monthly@ == "请分析本月的对话记录..."@,
{
    PromptTemplate {
        template_version: String::from_str("1.0"),
        system_prompt_template: String::from_str(
            "{role_preset}\n\n{user_profile}\n\n{long_term_memory}\n\n{短期记忆}\n\n当前对话：",
        ),
        components: PromptComponents {
            role_preset: component("角色预设", None, None, None),
            user_profile: component("用户画像", Some("## 用户信息\n{user_info}"), None, None),
            long_term_memory: component(
                "长期记忆",
                Some("## 近期记忆\n{memory_summary}"),
                Some(4),
                None,
            ),
            short_term_memory: component(
                "短期记忆",
                Some("## 今日对话\n{chat_history}"),
                None,
                Some(20),
            ),
        },
        summary_prompts: SummaryPrompts {
            weekly: String::from_str("请分析以下一周的对话记录..."),
            monthly: String::from_str("请分析本月的对话记录..."),
        },
    }
}

} // verus!
