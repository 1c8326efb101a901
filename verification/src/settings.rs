//! The application's persisted settings record. Loading and saving it is
//! plain file I/O around this type; the defaults are fixed here.
use vstd::prelude::*;

verus! {

use vstd::string::StringExecFns;

/// The small fixed settings record: the server path, the configuration
/// file path, and the interface's theme and language.
#[derive(Debug, Clone)]
pub struct AppSettings {
    pub nginx_path: String,
    pub config_path: String,
    pub theme: String,
    pub language: String,
}

impl Default for AppSettings {
    /// Empty paths, dark theme, Chinese interface language.
    fn default() -> (r: Self)
        ensures
            r.nginx_path@ == Seq::<char>::empty(),
            r.config_path@ == Seq::<char>::empty(),
            r.theme@ == "dark"@,
            r.language@ == "zh-CN"@,
    {
        AppSettings {
            nginx_path: String::new(),
            config_path: String::new(),
            theme: String::from_str("dark"),
            language: String::from_str("zh-CN"),
        }
    }
}

} // verus!
