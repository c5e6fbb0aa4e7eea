use koshelf::cli::{
    parse_time_to_seconds, seconds_from_tokens, Cli, CliError, CliFacts, PathFact, TimeParseError,
};
use koshelf::config::{settings_folder, AppSettings, SiteConfig};
use koshelf::scanner::MetadataLocation;
use koshelf::startup::{
    copy_optional, copy_strings, metadata_location, plan_output, resolve_config_path,
    resolve_settings, run_mode, site_config, NoTemporaryDirectory, OutputPlan, RunMode,
    RunSettings, SettingsPlace, SettingsSource,
};
use koshelf::time_config::TimeConfig;

fn cli() -> Cli {
    Cli {
        library_path: vec!["/library".to_string()],
        docsettings_path: None,
        hashdocsettings_path: None,
        statistics_db: None,
        output: None,
        port: 3000,
        watch: false,
        title: "KoShelf".to_string(),
        include_unread: false,
        heatmap_scale_max: "auto".to_string(),
        timezone: None,
        day_start_time: None,
        min_pages_per_day: None,
        min_time_per_day: None,
        include_all_stats: false,
        language: "en_US".to_string(),
        list_languages: false,
        github: false,
    }
}

const THERE: PathFact = PathFact { exists: true, is_dir: true };
const A_FILE: PathFact = PathFact { exists: true, is_dir: false };
const MISSING: PathFact = PathFact { exists: false, is_dir: false };

fn facts() -> CliFacts {
    CliFacts {
        library_paths: vec![THERE],
        docsettings: THERE,
        hashdocsettings: THERE,
        statistics_db_exists: true,
    }
}

fn tokens(pairs: &[(&str, &str)]) -> Vec<(String, String)> {
    pairs.iter().map(|(v, u)| (v.to_string(), u.to_string())).collect()
}

#[test]
fn lengths_of_time_add_up_in_seconds() {
    assert_eq!(parse_time_to_seconds("1h"), Ok(Some(3600)));
    assert_eq!(parse_time_to_seconds("1h30m"), Ok(Some(5400)));
    assert_eq!(parse_time_to_seconds("45min"), Ok(Some(2700)));
    assert_eq!(parse_time_to_seconds("30s"), Ok(Some(30)));
    assert_eq!(parse_time_to_seconds("2H 15M 10S"), Ok(Some(8110)));
    assert_eq!(parse_time_to_seconds("about 15m"), Ok(Some(900)));
    assert_eq!(parse_time_to_seconds("1h1h"), Ok(Some(7200)));
    assert_eq!(parse_time_to_seconds("1193046h"), Ok(Some(4_294_965_600)));
}

#[test]
fn auto_stands_for_no_length_of_time() {
    assert_eq!(parse_time_to_seconds("auto"), Ok(None));
    assert_eq!(parse_time_to_seconds("AUTO"), Ok(None));
    assert_eq!(parse_time_to_seconds("Auto"), Ok(None));
    assert_eq!(parse_time_to_seconds("automatic"), Err(TimeParseError::InvalidFormat));
}

#[test]
fn lengths_of_time_fail_for_their_reasons() {
    assert_eq!(parse_time_to_seconds(""), Err(TimeParseError::InvalidFormat));
    assert_eq!(parse_time_to_seconds("soon"), Err(TimeParseError::InvalidFormat));
    assert_eq!(parse_time_to_seconds("15"), Err(TimeParseError::InvalidFormat));
    assert_eq!(parse_time_to_seconds("0h"), Err(TimeParseError::Zero));
    assert_eq!(parse_time_to_seconds("0h0m0s"), Err(TimeParseError::Zero));
    assert_eq!(parse_time_to_seconds("99999999999h"), Err(TimeParseError::InvalidNumber));
    assert_eq!(parse_time_to_seconds("٣h"), Err(TimeParseError::InvalidNumber));
    assert_eq!(parse_time_to_seconds("1193047h"), Err(TimeParseError::TooLarge));
    assert_eq!(parse_time_to_seconds("4294967295s1s"), Err(TimeParseError::TooLarge));
    assert_eq!(parse_time_to_seconds("1x 99999999999h"), Err(TimeParseError::InvalidNumber));
}

#[test]
fn amounts_are_added_from_their_digits_and_units() {
    assert_eq!(seconds_from_tokens(&tokens(&[("1", "h"), ("30", "m")])), Ok(Some(5400)));
    assert_eq!(seconds_from_tokens(&tokens(&[("2", "min"), ("5", "s")])), Ok(Some(125)));
    assert_eq!(seconds_from_tokens(&tokens(&[])), Err(TimeParseError::InvalidFormat));
    assert_eq!(seconds_from_tokens(&tokens(&[("1", "d")])), Err(TimeParseError::UnknownUnit));
    assert_eq!(seconds_from_tokens(&tokens(&[("1", "H")])), Err(TimeParseError::UnknownUnit));
    assert_eq!(seconds_from_tokens(&tokens(&[("", "h")])), Err(TimeParseError::InvalidNumber));
    assert_eq!(seconds_from_tokens(&tokens(&[("1", "d"), ("x", "h")])), Err(TimeParseError::UnknownUnit));
    assert_eq!(seconds_from_tokens(&tokens(&[("0", "s")])), Err(TimeParseError::Zero));
    assert_eq!(
        seconds_from_tokens(&tokens(&[("4294967295", "s"), ("0", "s")])),
        Ok(Some(u32::MAX))
    );
    assert_eq!(
        seconds_from_tokens(&tokens(&[("4294967295", "m")])),
        Err(TimeParseError::TooLarge)
    );
}

#[test]
fn a_plain_command_line_is_valid() {
    assert_eq!(cli().validate(false, &facts()), Ok(()));
    let mut c = cli();
    c.statistics_db = Some("/stats.sqlite3".to_string());
    c.docsettings_path = Some("/docs".to_string());
    c.include_unread = true;
    c.heatmap_scale_max = "2h".to_string();
    c.min_time_per_day = Some("15m".to_string());
    c.port = 8080;
    assert_eq!(c.validate(false, &facts()), Ok(()));
}

#[test]
fn each_rule_of_the_command_line_is_checked_in_order() {
    let check = |change: &dyn Fn(&mut Cli, &mut CliFacts), allow_empty: bool| {
        let mut c = cli();
        let mut f = facts();
        change(&mut c, &mut f);
        c.validate(allow_empty, &f)
    };
    assert_eq!(check(&|c, f| { c.library_path.clear(); f.library_paths.clear(); }, false), Err(CliError::NothingToShow));
    assert_eq!(check(&|c, f| { c.library_path.clear(); f.library_paths.clear(); }, true), Ok(()));
    assert_eq!(
        check(&|c, f| { c.library_path.clear(); f.library_paths.clear(); c.statistics_db = Some("s".into()); }, false),
        Ok(())
    );
    assert_eq!(
        check(&|c, f| { c.library_path.push("/b".into()); f.library_paths = vec![THERE, MISSING]; }, false),
        Err(CliError::LibraryPathMissing(1))
    );
    assert_eq!(
        check(&|c, f| { c.library_path.push("/b".into()); f.library_paths = vec![A_FILE, MISSING]; }, false),
        Err(CliError::LibraryPathNotDirectory(0))
    );
    assert_eq!(
        check(&|c, _| { c.library_path.push("/b".into()); }, false),
        Err(CliError::LibraryPathMissing(1))
    );
    assert_eq!(
        check(&|c, f| { c.library_path.clear(); f.library_paths.clear(); c.include_unread = true; }, true),
        Err(CliError::IncludeUnreadWithoutLibrary)
    );
    assert_eq!(
        check(&|c, _| { c.docsettings_path = Some("d".into()); c.hashdocsettings_path = Some("h".into()); }, false),
        Err(CliError::MetadataLocationsExclude)
    );
    assert_eq!(
        check(&|c, f| { c.library_path.clear(); f.library_paths.clear(); c.docsettings_path = Some("d".into()); }, true),
        Err(CliError::DocsettingsWithoutLibrary)
    );
    assert_eq!(
        check(&|c, f| { c.library_path.clear(); f.library_paths.clear(); c.hashdocsettings_path = Some("h".into()); }, true),
        Err(CliError::HashdocsettingsWithoutLibrary)
    );
    assert_eq!(
        check(&|c, f| { c.docsettings_path = Some("d".into()); f.docsettings = MISSING; }, false),
        Err(CliError::DocsettingsMissing)
    );
    assert_eq!(
        check(&|c, f| { c.docsettings_path = Some("d".into()); f.docsettings = A_FILE; }, false),
        Err(CliError::DocsettingsNotDirectory)
    );
    assert_eq!(
        check(&|c, f| { c.hashdocsettings_path = Some("h".into()); f.hashdocsettings = MISSING; }, false),
        Err(CliError::HashdocsettingsMissing)
    );
    assert_eq!(
        check(&|c, f| { c.hashdocsettings_path = Some("h".into()); f.hashdocsettings = A_FILE; }, false),
        Err(CliError::HashdocsettingsNotDirectory)
    );
    assert_eq!(
        check(&|c, _| { c.output = Some("out".into()); c.port = 8080; }, false),
        Err(CliError::PortWithOutput)
    );
    assert_eq!(check(&|c, _| { c.output = Some("out".into()); }, false), Ok(()));
    assert_eq!(
        check(&|c, f| { c.statistics_db = Some("s".into()); f.statistics_db_exists = false; }, false),
        Err(CliError::StatisticsMissing)
    );
    assert_eq!(check(&|_, f| { f.docsettings = MISSING; f.statistics_db_exists = false; }, false), Ok(()));
    assert_eq!(
        check(&|c, _| { c.heatmap_scale_max = "never".into(); }, false),
        Err(CliError::InvalidHeatmapScale(TimeParseError::InvalidFormat))
    );
    assert_eq!(
        check(&|c, _| { c.min_time_per_day = Some("0m".into()); }, false),
        Err(CliError::InvalidMinTime(TimeParseError::Zero))
    );
    assert_eq!(
        check(&|c, _| { c.heatmap_scale_max = "0s".into(); c.min_time_per_day = Some("x".into()); }, false),
        Err(CliError::InvalidHeatmapScale(TimeParseError::Zero))
    );
    assert_eq!(
        check(&|c, f| { c.output = Some("o".into()); c.port = 1; f.library_paths = vec![MISSING]; }, false),
        Err(CliError::LibraryPathMissing(0))
    );
}

#[test]
fn validation_takes_the_lengths_of_time_as_read() {
    let c = cli();
    assert_eq!(
        c.validate_with(false, &facts(), &Err(TimeParseError::UnknownUnit), &None),
        Err(CliError::InvalidHeatmapScale(TimeParseError::UnknownUnit))
    );
    assert_eq!(
        c.validate_with(false, &facts(), &Ok(None), &Some(Err(TimeParseError::Zero))),
        Ok(())
    );
    let mut with_min = cli();
    with_min.min_time_per_day = Some("x".to_string());
    assert_eq!(
        with_min.validate_with(false, &facts(), &Ok(Some(1)), &Some(Err(TimeParseError::InvalidPattern))),
        Err(CliError::InvalidMinTime(TimeParseError::InvalidPattern))
    );
}

#[test]
fn the_site_is_served_unless_an_output_is_given() {
    let mut c = cli();
    assert_eq!(run_mode(&c), RunMode::Serve);
    c.watch = true;
    assert_eq!(run_mode(&c), RunMode::Serve);
    c.output = Some("/out".to_string());
    assert_eq!(run_mode(&c), RunMode::WatchStatic);
    c.watch = false;
    assert_eq!(run_mode(&c), RunMode::StaticExport);
    let plan = plan_output(&c, &Some("/tmp/x".to_string())).unwrap();
    assert_eq!((plan.output_dir.as_str(), plan.mode), ("/out", RunMode::StaticExport));
    c.output = None;
    let plan = plan_output(&c, &Some("/tmp/x".to_string())).unwrap();
    assert_eq!((plan.output_dir.as_str(), plan.mode), ("/tmp/x", RunMode::Serve));
    assert_eq!(plan_output(&c, &None).unwrap_err(), NoTemporaryDirectory {});
}

#[test]
fn the_metadata_location_follows_the_command_line() {
    let mut c = cli();
    assert!(matches!(metadata_location(&c), MetadataLocation::InBookFolder));
    c.hashdocsettings_path = Some("/h".to_string());
    assert!(matches!(metadata_location(&c), MetadataLocation::HashDocSettings(p) if p == "/h"));
    c.docsettings_path = Some("/d".to_string());
    assert!(matches!(metadata_location(&c), MetadataLocation::DocSettings(p) if p == "/d"));
}

#[test]
fn settings_are_sought_in_the_working_directory_first() {
    let place = |dir: &str, has: bool| Some(SettingsPlace { directory: dir.to_string(), has_settings: has });
    assert_eq!(resolve_config_path(&place("/work", true), &place("/sys", true)), "/work/settings.json");
    assert_eq!(resolve_config_path(&place("/work", false), &place("/sys", true)), "/sys/settings.json");
    assert_eq!(resolve_config_path(&place("/work", false), &place("/sys", false)), "/work/settings.json");
    assert_eq!(resolve_config_path(&place("/work", false), &None), "/work/settings.json");
    assert_eq!(resolve_config_path(&None, &place("/sys", true)), "/sys/settings.json");
    assert_eq!(resolve_config_path(&None, &place("/sys", false)), "./settings.json");
    assert_eq!(resolve_config_path(&None, &None), "./settings.json");
}

#[test]
fn the_command_line_comes_before_saved_settings() {
    let saved = || Some(AppSettings {
        library_paths: vec!["/saved".to_string()],
        statistics_db_path: Some("/saved.sqlite3".to_string()),
        language: "de".to_string(),
    });
    let from_cli = resolve_settings(&cli(), saved());
    assert_eq!(from_cli.source, SettingsSource::CommandLine);
    assert_eq!(from_cli.library_paths, vec!["/library".to_string()]);
    assert_eq!(from_cli.statistics_db_path, None);
    assert_eq!(from_cli.language, "en_US");
    assert!(from_cli.has_any_config() && !from_cli.is_setup_mode());
    assert_eq!(from_cli.library_root(), "/library");
    let to_save = from_cli.to_save().unwrap();
    assert_eq!(to_save.library_paths, vec!["/library".to_string()]);
    assert_eq!(to_save.language, "en_US");

    let mut bare = cli();
    bare.library_path.clear();
    let from_saved = resolve_settings(&bare, saved());
    assert_eq!(from_saved.source, SettingsSource::Saved);
    assert_eq!(from_saved.library_paths, vec!["/saved".to_string()]);
    assert_eq!(from_saved.statistics_db_path, Some("/saved.sqlite3".to_string()));
    assert_eq!(from_saved.language, "de");
    assert!(from_saved.to_save().is_none());

    let setup = resolve_settings(&bare, None);
    assert_eq!(setup.source, SettingsSource::Setup);
    assert!(setup.library_paths.is_empty() && setup.statistics_db_path.is_none());
    assert_eq!(setup.language, "en_US");
    assert!(setup.is_setup_mode() && !setup.has_any_config());
    assert_eq!(setup.library_root(), ".");

    bare.statistics_db = Some("/s".to_string());
    assert_eq!(resolve_settings(&bare, saved()).source, SettingsSource::CommandLine);
}

#[test]
fn the_site_configuration_gathers_the_run() {
    let mut c = cli();
    c.title = "Shelf".to_string();
    c.include_unread = true;
    c.min_pages_per_day = Some(3);
    c.hashdocsettings_path = Some("/h".to_string());
    let plan = OutputPlan { output_dir: "/out".to_string(), mode: RunMode::Serve };
    let settings = RunSettings {
        source: SettingsSource::Saved,
        library_paths: vec!["/a".to_string(), "/b".to_string()],
        statistics_db_path: Some("/s".to_string()),
        language: "pt_BR".to_string(),
    };
    let tc = TimeConfig::new(7200, 240);
    let config: SiteConfig = site_config(&c, &plan, &settings, Some(3600), Some(900), tc.clone());
    assert_eq!(config.output_dir, "/out");
    assert_eq!(config.site_title, "Shelf");
    assert!(config.include_unread);
    assert_eq!(config.library_paths, vec!["/a".to_string(), "/b".to_string()]);
    assert!(matches!(&config.metadata_location, MetadataLocation::HashDocSettings(p) if p == "/h"));
    assert_eq!(config.statistics_db_path, Some("/s".to_string()));
    assert_eq!(config.heatmap_scale_max, Some(3600));
    assert_eq!(config.time_config, tc);
    assert_eq!(config.min_pages_per_day, Some(3));
    assert_eq!(config.min_time_per_day, Some(900));
    assert!(!config.include_all_stats);
    assert!(config.is_internal_server);
    assert_eq!(config.language, "pt_BR");
    let static_plan = OutputPlan { output_dir: "/out".to_string(), mode: RunMode::StaticExport };
    assert!(!site_config(&c, &static_plan, &settings, None, None, tc.clone()).is_internal_server);
    assert_eq!(copy_strings(&settings.library_paths), settings.library_paths);
    assert_eq!(copy_optional(&settings.statistics_db_path), settings.statistics_db_path);
}

#[test]
fn the_settings_folder_follows_the_parts_of_the_path() {
    let some = |t: &str| Some(t.to_string());
    assert_eq!(settings_folder("/data/stats.sqlite3", &some("stats.sqlite3"), &some("/data"), false), "/data");
    assert_eq!(settings_folder("/data/store", &some("store"), &some("/data"), true), "/data");
    assert_eq!(settings_folder("/data/store", &some("store"), &some("/data"), false), "/data/store");
    assert_eq!(settings_folder("/data/.hidden", &some(".hidden"), &some("/data"), false), "/data/.hidden");
    assert_eq!(settings_folder("stats.sqlite3", &some("stats.sqlite3"), &some(""), false), ".");
    assert_eq!(settings_folder("stats.sqlite3", &some("stats.sqlite3"), &None, false), ".");
    assert_eq!(settings_folder("/", &None, &None, true), ".");
    assert_eq!(settings_folder("/", &None, &None, false), "/");
    assert_eq!(settings_folder("x/..", &None, &some("x"), false), "x/..");
}

#[test]
fn settings_lie_beside_the_statistics_store() {
    assert_eq!(AppSettings::get_config_path(None, false), "settings.json");
    assert_eq!(AppSettings::get_config_path(Some("/data/stats.sqlite3"), true), "/data/settings.json");
    assert_eq!(AppSettings::get_config_path(Some("/data/stats.sqlite3"), false), "/data/settings.json");
    assert_eq!(AppSettings::get_config_path(Some("stats.sqlite3"), false), "./settings.json");
    assert_eq!(AppSettings::get_config_path(Some("/data/koreader"), false), "/data/koreader/settings.json");
    assert_eq!(AppSettings::get_config_path(Some("/data/koreader"), true), "/data/settings.json");
    assert_eq!(AppSettings::get_config_path(Some("/"), true), "./settings.json");
    let mut settings = AppSettings::default();
    assert!(settings.library_paths.is_empty());
    assert_eq!(settings.statistics_db_path, None);
    assert_eq!(settings.language, "en");
    assert_eq!(settings.save_path(false), "settings.json");
    settings.statistics_db_path = Some("/d/s.sqlite3".to_string());
    assert_eq!(settings.save_path(true), "/d/settings.json");
}
