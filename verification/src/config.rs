//! Settings that the synchronisation core takes from the application.

use vstd::prelude::*;
use crate::text::chain;

verus! {

/// How a prompt file's frontmatter carries its tags.
#[derive(Debug, Clone, PartialEq, Eq)]
pub struct FrontmatterSettings {
    /// Name of the frontmatter key that holds the tags of a prompt.
    pub prompt_tags_property: String,
    /// Whether a written file also gets the marker tag `prompts` under the
    /// key `tags`.
    pub add_prompts_tag_to_tags: bool,
}

/// What the list of prompts shows.
#[derive(Debug, Clone, PartialEq, Eq)]
pub struct ViewSettings {
    pub show_prompt_titles: bool,
    pub show_full_prompt: bool,
    pub show_prompt_tags: bool,
    pub show_created_date: bool,
}

/// The application's configuration.
#[derive(Debug, Clone, PartialEq, Eq)]
pub struct AppConfig {
    /// The vault's root directory; nothing can be synchronised without it.
    pub vault_path: Option<String>,
    /// Name of the theme.
    pub theme: String,
    pub view: ViewSettings,
    pub frontmatter: FrontmatterSettings,
}

/// Why the configuration could not be loaded or saved.
#[derive(Debug, Clone, PartialEq, Eq)]
pub enum ConfigError {
    PathError(String),
    IoError(String),
    ParseError(String),
    SerializeError(String),
}

/// The theme of a configuration that names none.
pub fn default_theme() -> (theme: String)
    ensures
        theme@ == "dark"@,
{
    "dark".to_string()
}

/// Titles are shown unless the configuration says otherwise.
pub fn default_show_prompt_titles() -> (show: bool)
    ensures
        show,
{
    true
}

/// Prompts are shown shortened unless the configuration says otherwise.
pub fn default_show_full_prompt() -> (show: bool)
    ensures
        !show,
{
    false
}

/// Tags are shown unless the configuration says otherwise.
pub fn default_show_prompt_tags() -> (show: bool)
    ensures
        show,
{
    true
}

/// Dates are shown unless the configuration says otherwise.
pub fn default_show_created_date() -> (show: bool)
    ensures
        show,
{
    true
}

impl Default for ViewSettings {
    fn default() -> (settings: Self)
        ensures
            settings.show_prompt_titles,
            !settings.show_full_prompt,
            settings.show_prompt_tags,
            settings.show_created_date,
    {
        ViewSettings {
            show_prompt_titles: default_show_prompt_titles(),
            show_full_prompt: default_show_full_prompt(),
            show_prompt_tags: default_show_prompt_tags(),
            show_created_date: default_show_created_date(),
        }
    }
}

impl Default for FrontmatterSettings {
    fn default() -> (settings: Self)
        ensures
            settings.prompt_tags_property@ == "tags"@,
            !settings.add_prompts_tag_to_tags,
    {
        FrontmatterSettings {
            prompt_tags_property: "tags".to_string(),
            add_prompts_tag_to_tags: false,
        }
    }
}

impl Default for AppConfig {
    fn default() -> (config: Self)
        ensures
            config.vault_path is None,
            config.theme@ == Seq::<char>::empty(),
            config.view.show_prompt_titles,
            !config.view.show_full_prompt,
            config.view.show_prompt_tags,
            config.view.show_created_date,
            config.frontmatter.prompt_tags_property@ == "tags"@,
            !config.frontmatter.add_prompts_tag_to_tags,
    {
        AppConfig {
            vault_path: None,
            theme: String::new(),
            view: ViewSettings::default(),
            frontmatter: FrontmatterSettings::default(),
        }
    }
}


/// What an error of the configuration says: the kind in words and, behind a
/// colon, its detail.
pub open spec fn config_error_text(e: ConfigError) -> Seq<char> {
    match e {
        ConfigError::PathError(m) => "Path error: "@ + m@,
        ConfigError::IoError(m) => "IO error: "@ + m@,
        ConfigError::ParseError(m) => "Parse error: "@ + m@,
        ConfigError::SerializeError(m) => "Serialize error: "@ + m@,
    }
}

impl ConfigError {
    /// The error in words.
    pub fn message(&self) -> (text: String)
        ensures
            text@ == config_error_text(*self),
    {
        match self {
            ConfigError::PathError(m) => chain("Path error: ", m),
            ConfigError::IoError(m) => chain("IO error: ", m),
            ConfigError::ParseError(m) => chain("Parse error: ", m),
            ConfigError::SerializeError(m) => chain("Serialize error: ", m),
        }
    }
}

} // verus!
