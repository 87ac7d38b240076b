use vstd::prelude::*;

use crate::errors::AppError;
use crate::jsontext::{config_json, parse_config, parse_config_str, render_config};
use crate::models::{ApiConfig, ConfigModel};

verus! {

/// Keeps the AI credentials as one JSON document, the way a single
/// configuration file under the per-user configuration directory holds
/// them. The host reads and writes the real file; this store carries
/// its exact contents, absent when the file does not exist.
///
/// The document is the canonical rendering `config_json` states, byte
/// for byte what serde_json's serializer writes for the same record
/// (fixed field order, no whitespace, short escapes); loading accepts
/// exactly that rendering, so any other spelling of the file - however
/// it parses as JSON - is reported `ConfigCorrupt`.
pub struct ConfigManager {
    contents: Option<String>,
}

impl ConfigManager {
    /// The configuration file's contents, absent if there is no file.
    pub closed spec fn file(&self) -> Option<Seq<char>> {
        self.contents.deep_view()
    }

    /// A manager over a directory with no configuration file yet.
    pub fn new() -> (r: Self)
        ensures
            r.file() is None,
    {
        ConfigManager { contents: None }
    }

    /// A manager over a file read by the host: `contents` is the file's
    /// text, absent if the file does not exist.
    pub fn with_contents(contents: Option<String>) -> (r: Self)
        ensures
            r.file() == contents.deep_view(),
    {
        ConfigManager { contents }
    }

    /// The text the host must write back to the configuration file,
    /// absent if there is none.
    pub fn export_contents(&self) -> (r: Option<String>)
        ensures
            r.deep_view() == self.file(),
    {
        match &self.contents {
            None => None,
            Some(s) => Some(s.clone()),
        }
    }

    /// Overwrites the stored configuration wholesale with the JSON
    /// document for `config`.
    pub fn save_config(&mut self, config: &ApiConfig) -> (r: Result<(), AppError>)
        ensures
            r is Ok,
            final(self).file() == Some(config_json(config@)),
    {
        let text = render_config(config);
        self.contents = Some(text);
        Ok(())
    }

    /// Reads the stored configuration: absent file means no
    /// configuration, a file that is not the rendering of any
    /// credentials is `ConfigCorrupt`.
    pub fn load_config(&self) -> (r: Result<Option<ApiConfig>, AppError>)
        ensures
            match self.file() {
                None => r == Ok::<Option<ApiConfig>, AppError>(None),
                Some(s) => match parse_config(s) {
                    Some(c) => r is Ok && r->Ok_0 is Some && (r->Ok_0)->0@ == c,
                    None => r == Err::<Option<ApiConfig>, AppError>(AppError::ConfigCorrupt),
                },
            },
    {
        match &self.contents {
            None => Ok(None),
            Some(s) => match parse_config_str(s.as_str()) {
                Some(c) => Ok(Some(c)),
                None => Err(AppError::ConfigCorrupt),
            },
        }
    }

    /// Builds the credentials record and saves it, as the host command
    /// does from its three string arguments.
    pub fn save_api_config(&mut self, api_key: String, api_url: String, model: String) -> (r:
        Result<(), AppError>)
        ensures
            r is Ok,
            final(self).file() == Some(
                config_json(
                    (ConfigModel { api_key: api_key@, api_url: api_url@, model: model@ }),
                ),
            ),
    {
        let config = ApiConfig { api_key, api_url, model };
        self.save_config(&config)
    }

    /// Reads the stored configuration, as the host command does.
    pub fn get_api_config(&self) -> (r: Result<Option<ApiConfig>, AppError>)
        ensures
            match self.file() {
                None => r == Ok::<Option<ApiConfig>, AppError>(None),
                Some(s) => match parse_config(s) {
                    Some(c) => r is Ok && r->Ok_0 is Some && (r->Ok_0)->0@ == c,
                    None => r == Err::<Option<ApiConfig>, AppError>(AppError::ConfigCorrupt),
                },
            },
    {
        self.load_config()
    }
}

} // verus!
