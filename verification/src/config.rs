//! Site configuration and its defaults.
use vstd::prelude::*;

verus! {

broadcast use vstd::string::group_string_axioms;

/// Build switches.
#[derive(Debug, Clone)]
pub struct BuildConfig {
    pub drafts: bool,
    pub future: bool,
}

impl Default for BuildConfig {
    fn default() -> (r: BuildConfig)
        ensures
            !r.drafts,
            !r.future,
    {
        BuildConfig { drafts: false, future: false }
    }
}

/// The settings of a site.
#[derive(Debug, Clone)]
pub struct SiteConfig {
    pub title: String,
    pub description: String,
    pub base_url: String,
    pub output_dir: String,
    pub content_dir: String,
    pub assets_dir: String,
    pub templates_dir: String,
    pub build: BuildConfig,
}

impl Default for SiteConfig {
    fn default() -> (r: SiteConfig)
        ensures
            r.title@ == "My Site"@,
            r.description@ == "A static site"@,
            r.base_url@ == "http://localhost:8080"@,
            r.output_dir@ == "public"@,
            r.content_dir@ == "content"@,
            r.assets_dir@ == "static"@,
            r.templates_dir@ == "templates"@,
            !r.build.drafts,
            !r.build.future,
    {
        SiteConfig {
            title: "My Site".to_string(),
            description: "A static site".to_string(),
            base_url: "http://localhost:8080".to_string(),
            output_dir: "public".to_string(),
            content_dir: "content".to_string(),
            assets_dir: "static".to_string(),
            templates_dir: "templates".to_string(),
            build: BuildConfig::default(),
        }
    }
}

/// Output directory used when the configuration names none.
pub fn default_output_dir() -> (r: String)
    ensures
        r@ == "public"@,
{
    "public".to_string()
}

/// Content directory used when the configuration names none.
pub fn default_content_dir() -> (r: String)
    ensures
        r@ == "content"@,
{
    "content".to_string()
}

/// Assets directory used when the configuration names none.
pub fn default_assets_dir() -> (r: String)
    ensures
        r@ == "assets"@,
{
    "assets".to_string()
}

/// Templates directory used when the configuration names none.
pub fn default_templates_dir() -> (r: String)
    ensures
        r@ == "templates"@,
{
    "templates".to_string()
}

/// Value of a build switch that the configuration leaves out.
pub fn default_true() -> (r: bool)
    ensures
        r,
{
    true
}

} // verus!
