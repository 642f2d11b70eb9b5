use phimakor::library::{
    backends_from_settings, cache_enabled, cache_path, cache_usable, chart_display_name,
    chart_order, charts_dir, config_dir, default_charts_dir, delete_target, diff_label, dir_name,
    documents_dir, export_names, export_step, find_recover_hint, folder_candidate, has_info_file,
    import_path, is_chart_dir, legacy_settings_path, listing, multi_difficulty_dirs,
    create_new_chart, new_chart_message, new_chart_names, parse_args, probe_chart_zip, resolve_difficulty_context,
    resolve_open_dir, sanitize_folder_name, settings_migrate, settings_path, settings_source,
    Backend, Backup, ChartsDir, DeleteTarget, DiffDir, InfoFiles, Listing, NewChartError, OpenDir,
    PackStep, PackageFile, SettingsSource, ZipEntry, MAX_CACHE_BYTES,
};

fn some(s: &str) -> Option<String> {
    Some(s.to_string())
}

fn parts(v: &[&str]) -> Vec<String> {
    v.iter().map(|s| s.to_string()).collect()
}

#[test]
fn config_lies_where_the_system_says() {
    assert_eq!(config_dir(&some("C:/A"), &some("/x"), &some("/h")), parts(&["C:/A", "PhiMakor"]));
    assert_eq!(config_dir(&None, &some("/x"), &some("/h")), parts(&["/x", "phimakor"]));
    assert_eq!(config_dir(&None, &None, &some("/h")), parts(&["/h", ".config", "phimakor"]));
    assert_eq!(config_dir(&None, &None, &None), parts(&[".", "phimakor"]));
    assert_eq!(
        settings_path(&None, &some("/x"), &None),
        parts(&["/x", "phimakor", "config.json"])
    );
    assert!(cache_path(&None, &some("/x"), &None).len() >= 3);
    assert!(cache_enabled(&None));
    assert!(!cache_usable(false, 10));
    assert!(!cache_usable(true, MAX_CACHE_BYTES + 1));
    assert!(cache_usable(true, 10));
}

#[test]
fn charts_lie_where_the_user_says() {
    assert!(matches!(charts_dir(&some("/e"), &some("/s")), ChartsDir::Custom(p) if p == "/e"));
    assert!(matches!(charts_dir(&None, &some("/s")), ChartsDir::Custom(p) if p == "/s"));
    assert!(matches!(charts_dir(&None, &None), ChartsDir::Default));
    assert!(matches!(charts_dir(&None, &some("  ")), ChartsDir::Default));
    let docs = documents_dir(&None, &None, &some("/h"));
    let charts = default_charts_dir(docs);
    assert_eq!(charts.last().map(|s| s.as_str()), Some("charts"));
    let docs = documents_dir(&some("/docs"), &None, &None);
    assert_eq!(docs, parts(&["/docs"]));
    assert_eq!(
        legacy_settings_path(docs).last().map(|s| s.as_str()),
        Some("config.json")
    );
}

#[test]
fn settings_are_read_from_the_first_place() {
    assert!(matches!(settings_source(true, true, true), Some(SettingsSource::Config)));
    assert!(matches!(settings_source(false, true, true), Some(SettingsSource::Program)));
    assert!(matches!(settings_source(false, false, true), Some(SettingsSource::Documents)));
    assert!(settings_source(false, false, false).is_none());
    assert!(settings_migrate(true, false));
    assert!(!settings_migrate(true, true));
    assert!(!settings_migrate(false, false));
}

#[test]
fn chart_directories_hold_an_info_file() {
    let none = InfoFiles { json: false, yml: false, txt: false };
    let txt = InfoFiles { json: false, yml: false, txt: true };
    assert!(!has_info_file(none));
    assert!(is_chart_dir(true, txt));
    assert!(!is_chart_dir(false, InfoFiles { json: false, yml: false, txt: true }));
    assert_eq!(dir_name(some("a")), "a");
    assert_eq!(dir_name(None), "");
}

fn entry(file_name: &str, parent: &str, depth: usize) -> ZipEntry {
    ZipEntry { file_name: file_name.to_string(), parent: parent.to_string(), depth }
}

#[test]
fn packages_are_probed_for_an_info_file() {
    let root = vec![entry("info.json", "", 0), entry("chart.json", "", 0), entry("bg.png", "", 0)];
    assert_eq!(probe_chart_zip(&root), some(""));
    let wrapped = vec![
        entry("chart.json", "MyChart", 1),
        entry("info.json", "MyChart", 1),
        entry("bg.png", "MyChart", 1),
    ];
    assert_eq!(probe_chart_zip(&wrapped), some("MyChart"));
    let bad = vec![entry("readme.txt", "", 0)];
    assert_eq!(probe_chart_zip(&bad), None);
    let nested = vec![entry("info.txt", "a/b", 2), entry("info.yml", "c", 1)];
    assert_eq!(probe_chart_zip(&nested), some("c"));
}

#[test]
fn entries_are_unpacked_below_the_chart() {
    assert_eq!(
        import_path(&parts(&["MyChart", "bg.png"]), &parts(&["MyChart"]), false),
        Some(parts(&["bg.png"]))
    );
    assert_eq!(
        import_path(&parts(&["chart.json"]), &parts(&[]), false),
        Some(parts(&["chart.json"]))
    );
    assert_eq!(
        import_path(&parts(&["other", "x"]), &parts(&["MyChart"]), false),
        Some(parts(&["other", "x"]))
    );
    assert_eq!(import_path(&parts(&["MyChart"]), &parts(&["MyChart"]), false), None);
    assert_eq!(import_path(&parts(&["MyChart", "d"]), &parts(&["MyChart"]), true), None);
}

#[test]
fn packages_are_named_after_the_chart() {
    assert_eq!(export_names("往返测试", "MyChart").0, "往返测试.zip");
    assert_eq!(export_names(" a/b? ", "MyChart").0, "a_b_.zip");
    assert_eq!(export_names("  ", "MyChart").0, "MyChart.zip");
    assert!(matches!(export_step(PackageFile::Chart, true), PackStep::Pack));
    assert!(matches!(export_step(PackageFile::Chart, false), PackStep::Abort));
    assert!(matches!(export_step(PackageFile::Illustration, false), PackStep::Skip));
}

#[test]
fn unsaved_charts_are_found() {
    let fine = Backup { has_backup: true, main: Some(20), backup: Some(10) };
    let none = Backup { has_backup: false, main: Some(1), backup: None };
    let broken = Backup { has_backup: true, main: None, backup: Some(10) };
    assert_eq!(find_recover_hint(&vec![fine, none]), None);
    let fine = Backup { has_backup: true, main: Some(20), backup: Some(10) };
    assert_eq!(find_recover_hint(&vec![fine, broken]), Some(1));
}

fn diff(name: &str, difficulty: f32, label: &str) -> DiffDir {
    DiffDir {
        is_chart: true,
        name: some(name),
        difficulty: difficulty.to_bits(),
        label: label.to_string(),
    }
}

#[test]
fn difficulties_of_one_song_are_listed_by_difficulty() {
    let dirs = vec![diff("MySong", 12.0, "IN"), diff("MySong", 4.0, "EZ"), diff("MySong", 8.0, "HD")];
    let order = multi_difficulty_dirs(&dirs).unwrap();
    let labels: Vec<&str> = order.iter().map(|&i| dirs[i].label.as_str()).collect();
    assert_eq!(labels, vec!["EZ", "HD", "IN"]);
}

#[test]
fn directories_of_different_songs_are_no_song() {
    assert!(multi_difficulty_dirs(&vec![diff("Song", 12.0, "IN"), diff("OtherSong", 8.0, "HD")]).is_none());
    assert!(multi_difficulty_dirs(&vec![diff("Solo", 3.0, "EZ")]).is_none());
    assert!(multi_difficulty_dirs(&vec![]).is_none());
}

#[test]
fn difficulties_open_from_the_song() {
    assert!(matches!(resolve_open_dir(true, true), OpenDir::Itself));
    assert!(matches!(resolve_open_dir(false, true), OpenDir::FirstDifficulty));
    assert!(matches!(resolve_open_dir(false, false), OpenDir::Itself));
    assert!(resolve_difficulty_context(true, false, true));
    assert!(!resolve_difficulty_context(true, true, true));
    assert!(!resolve_difficulty_context(true, false, false));
    assert!(!resolve_difficulty_context(false, false, true));
    assert!(matches!(listing(true, true, false), Listing::Chart));
    assert!(matches!(listing(true, false, true), Listing::Song));
    assert!(matches!(listing(true, false, false), Listing::Nothing));
    assert!(matches!(listing(false, true, true), Listing::Nothing));
    assert!(matches!(delete_target(3, true), DeleteTarget::Parent));
    assert!(matches!(delete_target(0, true), DeleteTarget::Itself));
}

#[test]
fn labels_come_from_level_or_number() {
    assert_eq!(diff_label("IN Lv.12", &None, "dir"), "IN");
    assert_eq!(diff_label("in lv.12", &None, "dir"), "IN");
    assert_eq!(chart_display_name("", "dir"), "dir");
    assert_eq!(chart_display_name("name", "dir"), "name");
    assert_eq!(chart_order(&parts(&["b", "a", "c"])), vec![1, 0, 2]);
}

#[test]
fn folder_names_are_made_legal() {
    assert_eq!(sanitize_folder_name("a<b>c:d\"e/f\\g|h?i*j"), "a_b_c_d_e_f_g_h_i_j");
    assert_eq!(sanitize_folder_name("name. . "), "name");
    assert_eq!(sanitize_folder_name("con"), "con_");
    assert_eq!(sanitize_folder_name("LPT1"), "LPT1_");
    assert_eq!(sanitize_folder_name("..."), "");
    assert_eq!(sanitize_folder_name("谱面"), "谱面");
}

#[test]
fn legal_folder_names_stay() {
    for name in ["con", "a<b>", "name. . ", "LPT1", "谱面", "com9.txt", "   ", "..."] {
        let once = sanitize_folder_name(name);
        assert_eq!(sanitize_folder_name(&once), once);
    }
    assert_eq!(sanitize_folder_name("   "), "");
    assert_eq!(sanitize_folder_name("console"), "console");
}

#[test]
fn new_charts_take_the_first_free_folder() {
    let Ok(Some(c)) = create_new_chart(" 新谱 ", &[true, true, false, false]) else {
        panic!("a chart")
    };
    assert_eq!((c.folder.as_str(), c.name.as_str()), ("新谱-3", "新谱"));
    assert_eq!(c.chart, "chart.json");
    assert_eq!(c.bpm_list, vec![(0.0f64.to_bits(), 120.0f64.to_bits())]);
    assert_eq!((c.difficulty, c.offset), (0, 0));
    assert!(c.music.is_empty() && c.illustration.is_empty() && c.level.is_empty());
    assert!(c.charter.is_empty() && c.composer.is_empty() && c.illustrator.is_empty());
    assert_eq!(c.lines.len(), 1);
    assert_eq!((c.lines[0].name.as_str(), c.lines[0].texture.as_str()), ("Main", "line.png"));
    assert_eq!((c.lines[0].layers, c.lines[0].is_cover, c.lines[0].z_order), (1, 0, 0));
    let Ok(Some(first)) = create_new_chart("a", &[false]) else { panic!("a chart") };
    assert_eq!(first.folder, "a");
    assert!(matches!(create_new_chart("a", &[true]), Ok(None)));
    assert!(matches!(create_new_chart(" ", &[false]), Err(NewChartError::Blank)));
    assert!(matches!(create_new_chart("..", &[false]), Err(NewChartError::Illegal)));
}

#[test]
fn new_charts_need_a_name() {
    assert_eq!(new_chart_names(" 新谱 "), Ok(("新谱".to_string(), "新谱".to_string())));
    assert_eq!(new_chart_names("   "), Err(NewChartError::Blank));
    assert_eq!(new_chart_names("..."), Err(NewChartError::Illegal));
    assert_eq!(new_chart_message(NewChartError::Blank), "谱名不能为空");
    assert_eq!(new_chart_message(NewChartError::Illegal), "谱名只包含非法字符,无法用作文件夹名");
    assert_eq!(folder_candidate("name", 1), "name");
    assert_eq!(folder_candidate("name", 2), "name-2");
    assert_eq!(folder_candidate("name", 13), "name-13");
}

#[test]
fn backends_and_arguments() {
    assert!(matches!(backends_from_settings(&some("dx12")), Backend::Dx12));
    assert!(matches!(backends_from_settings(&some("vulkan")), Backend::Vulkan));
    assert!(matches!(backends_from_settings(&some("gl")), Backend::Gl));
    assert!(matches!(backends_from_settings(&some("metal")), Backend::All));
    assert!(matches!(backends_from_settings(&None), Backend::All));
    let a = parse_args(&parts(&["--charts-dir", "/c", "song"]));
    assert_eq!(a.charts_dir, Some(1));
    assert_eq!(a.chart, Some(2));
    let none = parse_args(&parts(&[]));
    assert_eq!((none.chart, none.charts_dir), (None, None));
}
