use bongo_cat::prompt::{
    default_prompt_template, ComponentConfig, PromptComponents, PromptTemplate, RolePreset, SummaryPrompts,
};

#[test]
fn test_prompt_template_creation() {
    let template = PromptTemplate {
        template_version: "1.0".to_string(),
        system_prompt_template: "{role_preset}".to_string(),
        components: PromptComponents {
            role_preset: ComponentConfig {
                enabled: true,
                description: "角色预设".to_string(),
                prompt: None,
                max_weeks: None,
                max_messages: None,
            },
            user_profile: ComponentConfig {
                enabled: true,
                description: "用户画像".to_string(),
                prompt: Some("## 用户信息".to_string()),
                max_weeks: None,
                max_messages: None,
            },
            long_term_memory: ComponentConfig {
                enabled: true,
                description: "长期记忆".to_string(),
                prompt: Some("## 记忆".to_string()),
                max_weeks: Some(4),
                max_messages: None,
            },
            short_term_memory: ComponentConfig {
                enabled: true,
                description: "短期记忆".to_string(),
                prompt: Some("## 对话".to_string()),
                max_weeks: None,
                max_messages: Some(20),
            },
        },
        summary_prompts: SummaryPrompts {
            weekly: "请分析周对话".to_string(),
            monthly: "请分析月对话".to_string(),
        },
    };

    assert_eq!(template.template_version, "1.0");
    assert_eq!(template.components.role_preset.enabled, true);
    assert_eq!(template.components.long_term_memory.max_weeks, Some(4));
}

#[test]
fn test_role_preset_creation() {
    let preset = RolePreset {
        id: "cat_default".to_string(),
        name: "猫咪默认".to_string(),
        description: "Bongo Cat 角色的默认预设".to_string(),
        prompt: "你是一只可爱的猫咪...".to_string(),
    };

    assert_eq!(preset.id, "cat_default");
    assert_eq!(preset.name, "猫咪默认");
    assert!(preset.prompt.contains("猫咪"));
}

#[test]
fn default_template_when_no_file_exists() {
    let t = default_prompt_template();
    assert_eq!(t.template_version, "1.0");
    assert_eq!(
        t.system_prompt_template,
        "{role_preset}\n\n{user_profile}\n\n{long_term_memory}\n\n{短期记忆}\n\n当前对话："
    );
    assert_eq!(t.components.role_preset.prompt, None);
    assert_eq!(t.components.user_profile.prompt, Some("## 用户信息\n{user_info}".to_string()));
    assert_eq!(t.components.long_term_memory.max_weeks, Some(4));
    assert_eq!(t.components.short_term_memory.max_messages, Some(20));
    assert_eq!(t.summary_prompts.weekly, "请分析以下一周的对话记录...");
    assert_eq!(t.summary_prompts.monthly, "请分析本月的对话记录...");
}
