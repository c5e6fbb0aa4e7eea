//! Settings that persist between runs, and the configuration of one run.

use vstd::prelude::*;
use crate::paths::{extension_of, file_name, file_name_of, extension, join, joined, parent, parent_of, text_of};
use crate::scanner::MetadataLocation;
use crate::text::owned;
use crate::time_config::TimeConfig;

verus! {

/// The settings that are kept in `settings.json`.
#[derive(Debug, Clone)]
pub struct AppSettings {
    pub library_paths: Vec<String>,
    pub statistics_db_path: Option<String>,
    pub language: String,
}

impl Default for AppSettings {
    /// No library, no statistics, English.
    fn default() -> (r: Self)
        ensures
            r.library_paths@.len() == 0,
            r.statistics_db_path.is_none(),
            r.language@ == "en"@,
    {
        AppSettings { library_paths: Vec::new(), statistics_db_path: None, language: owned("en") }
    }
}

/// The folder that holds the settings of a statistics store, given the
/// store's path, the final component and the parent of that path, and whether
/// a file exists at it. Beside a file (or a path that looks like one, its
/// final component having an extension) the settings lie in the same folder,
/// which is `.` where the path names none; a directory holds them itself.
pub open spec fn settings_folder_of(
    path: Seq<char>,
    file_name: Option<Seq<char>>,
    parent: Option<Seq<char>>,
    is_file: bool,
) -> Seq<char> {
    let has_extension = match file_name {
        Some(name) => extension_of(name).is_some(),
        None => false,
    };
    if is_file || has_extension {
        match parent {
            Some(dir) => if dir.len() == 0 {
                "."@
            } else {
                dir
            },
            None => "."@,
        }
    } else {
        path
    }
}

/// Where the settings file belongs, given the path of the statistics store
/// and whether a file exists at that path: as `settings.json` in the folder
/// that holds the store's settings; with no path, in the working directory.
pub open spec fn config_path_of(base_path: Option<Seq<char>>, is_file: bool) -> Seq<char> {
    match base_path {
        None => "settings.json"@,
        Some(p) => joined(
            settings_folder_of(p, file_name_of(p), parent_of(p), is_file),
            "settings.json"@,
        ),
    }
}

/// The folder that holds the settings of a statistics store, from the store's
/// path and the final component and the parent of that path.
pub fn settings_folder(
    path: &str,
    file_name: &Option<String>,
    parent: &Option<String>,
    is_file: bool,
) -> (r: String)
    ensures
        r@ == settings_folder_of(path@, text_of(*file_name), text_of(*parent), is_file),
{
    let has_extension = match file_name {
        Some(name) => extension(name.as_str()).is_some(),
        None => false,
    };
    if is_file || has_extension {
        match parent {
            Some(dir) => if dir.as_str().is_empty() {
                owned(".")
            } else {
                dir.clone()
            },
            None => owned("."),
        }
    } else {
        owned(path)
    }
}

impl AppSettings {
    /// Where the settings file belongs. `is_file` says whether a file exists
    /// at `base_path`.
    pub fn get_config_path(base_path: Option<&str>, is_file: bool) -> (r: String)
        ensures
            r@ == config_path_of(
                match base_path {
                    Some(p) => Some(p@),
                    None => None,
                },
                is_file,
            ),
    {
        match base_path {
            None => owned("settings.json"),
            Some(p) => {
                let folder = settings_folder(p, &file_name(p), &parent(p), is_file);
                join(folder.as_str(), "settings.json")
            },
        }
    }

    /// Where these settings are saved: beside the statistics store.
    pub fn save_path(&self, store_is_file: bool) -> (r: String)
        ensures
            r@ == config_path_of(
                match self.statistics_db_path {
                    Some(p) => Some(p@),
                    None => None,
                },
                store_is_file,
            ),
    {
        match &self.statistics_db_path {
            Some(p) => AppSettings::get_config_path(Some(p.as_str()), store_is_file),
            None => AppSettings::get_config_path(None, store_is_file),
        }
    }
}

/// What one run of site generation works from.
#[derive(Debug, Clone)]
pub struct SiteConfig {
    pub output_dir: String,
    pub site_title: String,
    pub include_unread: bool,
    pub library_paths: Vec<String>,
    pub metadata_location: MetadataLocation,
    pub statistics_db_path: Option<String>,
    pub heatmap_scale_max: Option<u32>,
    pub time_config: TimeConfig,
    pub min_pages_per_day: Option<u32>,
    pub min_time_per_day: Option<u32>,
    pub include_all_stats: bool,
    pub is_internal_server: bool,
    pub language: String,
}

} // verus!
