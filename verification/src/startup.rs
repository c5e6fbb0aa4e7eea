//! What a run works from: where the settings lie, which settings hold, where
//! the site goes and how it is delivered.

use vstd::prelude::*;
use crate::cli::Cli;
use crate::config::{AppSettings, SiteConfig};
use crate::paths::{join, joined};
use crate::scanner::MetadataLocation;
use crate::text::owned;
use crate::time_config::TimeConfig;

verus! {

/// How the site is delivered.
#[derive(Debug, Clone, Copy, PartialEq, Eq, Structural)]
pub enum RunMode {
    /// Written out once.
    StaticExport,
    /// Written out, and again whenever the library changes.
    WatchStatic,
    /// Served, from a directory made for the run.
    Serve,
}

/// Where the site goes and how it is delivered.
#[derive(Debug, Clone)]
pub struct OutputPlan {
    pub output_dir: String,
    pub mode: RunMode,
}

/// The site is served, and no directory was made for it.
#[derive(Debug, Clone, Copy, PartialEq, Eq, Structural)]
pub struct NoTemporaryDirectory {}

/// How the site is delivered: written out where an output directory is
/// given, watched where that is asked for too, served otherwise.
pub open spec fn run_mode_of(output_given: bool, watch: bool) -> RunMode {
    if !output_given {
        RunMode::Serve
    } else if watch {
        RunMode::WatchStatic
    } else {
        RunMode::StaticExport
    }
}

/// How the site is delivered.
pub fn run_mode(cli: &Cli) -> (r: RunMode)
    ensures
        r == run_mode_of(cli.output.is_some(), cli.watch),
{
    match &cli.output {
        None => RunMode::Serve,
        Some(_) => if cli.watch {
            RunMode::WatchStatic
        } else {
            RunMode::StaticExport
        },
    }
}

/// Plans the output. `temp_dir` is the directory made for a served site; it
/// is read only where no output directory is given.
pub fn plan_output(cli: &Cli, temp_dir: &Option<String>) -> (r: Result<
    OutputPlan,
    NoTemporaryDirectory,
>)
    ensures
        match (cli.output, *temp_dir) {
            (Some(dir), _) => r.is_ok() && r.unwrap().output_dir == dir && r.unwrap().mode
                == run_mode_of(true, cli.watch),
            (None, Some(tmp)) => r.is_ok() && r.unwrap().output_dir == tmp && r.unwrap().mode
                == RunMode::Serve,
            (None, None) => r.is_err(),
        },
{
    match &cli.output {
        Some(dir) => Ok(OutputPlan { output_dir: dir.clone(), mode: run_mode(cli) }),
        None => match temp_dir {
            Some(tmp) => Ok(OutputPlan { output_dir: tmp.clone(), mode: RunMode::Serve }),
            None => Err(NoTemporaryDirectory {  }),
        },
    }
}

/// Where the reader's metadata lies according to the command line: in a
/// tree of its own where one is named, else by fingerprint where such a root
/// is named, else next to the books.
pub fn metadata_location(cli: &Cli) -> (r: MetadataLocation)
    ensures
        r == match (cli.docsettings_path, cli.hashdocsettings_path) {
            (Some(p), _) => MetadataLocation::DocSettings(p),
            (None, Some(p)) => MetadataLocation::HashDocSettings(p),
            (None, None) => MetadataLocation::InBookFolder,
        },
{
    if let Some(p) = &cli.docsettings_path {
        MetadataLocation::DocSettings(p.clone())
    } else if let Some(p) = &cli.hashdocsettings_path {
        MetadataLocation::HashDocSettings(p.clone())
    } else {
        MetadataLocation::InBookFolder
    }
}

/// A directory in which settings may lie, and whether they do.
#[derive(Debug, Clone)]
pub struct SettingsPlace {
    pub directory: String,
    pub has_settings: bool,
}

/// The path of the settings file: in the working directory where it holds
/// one; else in the system's configuration directory where that holds one;
/// else in the working directory, or in `.` where that is unknown.
pub open spec fn config_path_choice(
    working: Option<SettingsPlace>,
    system: Option<SettingsPlace>,
) -> Seq<char> {
    if working.is_some() && working.unwrap().has_settings {
        joined(working.unwrap().directory@, "settings.json"@)
    } else if system.is_some() && system.unwrap().has_settings {
        joined(system.unwrap().directory@, "settings.json"@)
    } else {
        match working {
            Some(w) => joined(w.directory@, "settings.json"@),
            None => joined("."@, "settings.json"@),
        }
    }
}

/// Chooses the path of the settings file.
pub fn resolve_config_path(working: &Option<SettingsPlace>, system: &Option<SettingsPlace>) -> (r:
    String)
    ensures
        r@ == config_path_choice(*working, *system),
{
    if let Some(w) = working {
        if w.has_settings {
            return join(w.directory.as_str(), "settings.json");
        }
    }
    if let Some(s) = system {
        if s.has_settings {
            return join(s.directory.as_str(), "settings.json");
        }
    }
    match working {
        Some(w) => join(w.directory.as_str(), "settings.json"),
        None => join(".", "settings.json"),
    }
}

/// Where the settings of a run come from.
#[derive(Debug, Clone, Copy, PartialEq, Eq, Structural)]
pub enum SettingsSource {
    /// The command line names a library or a statistics store.
    CommandLine,
    /// The settings saved by an earlier run.
    Saved,
    /// Neither: the run begins with the set-up page.
    Setup,
}

/// Where the settings come from: the command line where it names a library
/// or a statistics store, else the saved settings where there are any.
pub open spec fn settings_source_of(cli: Cli, saved_present: bool) -> SettingsSource {
    if cli.library_path@.len() > 0 || cli.statistics_db.is_some() {
        SettingsSource::CommandLine
    } else if saved_present {
        SettingsSource::Saved
    } else {
        SettingsSource::Setup
    }
}

/// The settings that a run works from.
#[derive(Debug, Clone)]
pub struct RunSettings {
    pub source: SettingsSource,
    pub library_paths: Vec<String>,
    pub statistics_db_path: Option<String>,
    pub language: String,
}

/// A copy of a list of strings.
pub fn copy_strings(v: &Vec<String>) -> (r: Vec<String>)
    ensures
        r@ == v@,
{
    let mut r: Vec<String> = Vec::new();
    let mut i: usize = 0;
    while i < v.len()
        invariant
            i <= v.len(),
            r@ == v@.take(i as int),
        decreases v.len() - i,
    {
        r.push(v[i].clone());
        i += 1;
        assert(r@ =~= v@.take(i as int));
    }
    assert(v@.take(v.len() as int) =~= v@);
    r
}

/// A copy of an optional string.
pub fn copy_optional(o: &Option<String>) -> (r: Option<String>)
    ensures
        r == *o,
{
    match o {
        Some(s) => Some(s.clone()),
        None => None,
    }
}

/// Settles the settings of a run: those of the command line where it names a
/// library or a statistics store; else the saved ones; else none but the
/// command line's language.
pub fn resolve_settings(cli: &Cli, saved: Option<AppSettings>) -> (r: RunSettings)
    ensures
        r.source == settings_source_of(*cli, saved.is_some()),
        match r.source {
            SettingsSource::CommandLine => r.library_paths@ == cli.library_path@
                && r.statistics_db_path == cli.statistics_db && r.language == cli.language,
            SettingsSource::Saved => r.library_paths == saved.unwrap().library_paths
                && r.statistics_db_path == saved.unwrap().statistics_db_path && r.language
                == saved.unwrap().language,
            SettingsSource::Setup => r.library_paths@.len() == 0 && r.statistics_db_path.is_none()
                && r.language == cli.language,
        },
{
    if cli.library_path.len() > 0 || cli.statistics_db.is_some() {
        RunSettings {
            source: SettingsSource::CommandLine,
            library_paths: copy_strings(&cli.library_path),
            statistics_db_path: copy_optional(&cli.statistics_db),
            language: cli.language.clone(),
        }
    } else {
        match saved {
            Some(s) => RunSettings {
                source: SettingsSource::Saved,
                library_paths: s.library_paths,
                statistics_db_path: s.statistics_db_path,
                language: s.language,
            },
            None => RunSettings {
                source: SettingsSource::Setup,
                library_paths: Vec::new(),
                statistics_db_path: None,
                language: cli.language.clone(),
            },
        }
    }
}

impl RunSettings {
    /// Whether there is anything to show: a library or a statistics store.
    pub fn has_any_config(&self) -> (r: bool)
        ensures
            r == (self.library_paths@.len() > 0 || self.statistics_db_path.is_some()),
    {
        self.library_paths.len() > 0 || self.statistics_db_path.is_some()
    }

    /// Whether the run begins with the set-up page: there is nothing to show.
    pub fn is_setup_mode(&self) -> (r: bool)
        ensures
            r == !(self.library_paths@.len() > 0 || self.statistics_db_path.is_some()),
    {
        !self.has_any_config()
    }

    /// The settings to save where they came from the command line.
    pub fn to_save(&self) -> (r: Option<AppSettings>)
        ensures
            match r {
                Some(s) => self.source == SettingsSource::CommandLine && s.library_paths@
                    == self.library_paths@ && s.statistics_db_path == self.statistics_db_path
                    && s.language == self.language,
                None => self.source != SettingsSource::CommandLine,
            },
    {
        match self.source {
            SettingsSource::CommandLine => Some(
                AppSettings {
                    library_paths: copy_strings(&self.library_paths),
                    statistics_db_path: copy_optional(&self.statistics_db_path),
                    language: self.language.clone(),
                },
            ),
            _ => None,
        }
    }

    /// The folder whose files the server offers as they are: the first
    /// library path, or `.` without a library.
    pub fn library_root(&self) -> (r: String)
        ensures
            r@ == if self.library_paths@.len() > 0 {
                self.library_paths@[0]@
            } else {
                "."@
            },
    {
        if self.library_paths.len() > 0 {
            self.library_paths[0].clone()
        } else {
            owned(".")
        }
    }
}

/// The configuration of a run's site generation, from the command line, the
/// output plan, the settled settings and the values read from the command
/// line's texts.
pub fn site_config(
    cli: &Cli,
    plan: &OutputPlan,
    settings: &RunSettings,
    heatmap_scale_max: Option<u32>,
    min_time_per_day: Option<u32>,
    time_config: TimeConfig,
) -> (r: SiteConfig)
    ensures
        r.output_dir == plan.output_dir,
        r.site_title == cli.title,
        r.include_unread == cli.include_unread,
        r.library_paths@ == settings.library_paths@,
        r.metadata_location == match (cli.docsettings_path, cli.hashdocsettings_path) {
            (Some(p), _) => MetadataLocation::DocSettings(p),
            (None, Some(p)) => MetadataLocation::HashDocSettings(p),
            (None, None) => MetadataLocation::InBookFolder,
        },
        r.statistics_db_path == settings.statistics_db_path,
        r.heatmap_scale_max == heatmap_scale_max,
        r.time_config == time_config,
        r.min_pages_per_day == cli.min_pages_per_day,
        r.min_time_per_day == min_time_per_day,
        r.include_all_stats == cli.include_all_stats,
        r.is_internal_server == (plan.mode == RunMode::Serve),
        r.language == settings.language,
{
    SiteConfig {
        output_dir: plan.output_dir.clone(),
        site_title: cli.title.clone(),
        include_unread: cli.include_unread,
        library_paths: copy_strings(&settings.library_paths),
        metadata_location: metadata_location(cli),
        statistics_db_path: copy_optional(&settings.statistics_db_path),
        heatmap_scale_max,
        time_config,
        min_pages_per_day: cli.min_pages_per_day,
        min_time_per_day,
        include_all_stats: cli.include_all_stats,
        is_internal_server: plan.mode == RunMode::Serve,
        language: settings.language.clone(),
    }
}

} // verus!
