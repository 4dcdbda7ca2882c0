use mint_core::lint::{
    run_lints, LintId, LintOptions, LintTarget, ModArchive, PakEntry, PakInfo, SplitAssetPair,
    PAK_VERSION_LATEST,
};
use mint_core::model::{ModConfig, ModData, ModOrGroup, ModSpecification};

fn spec(url: &str) -> ModSpecification {
    ModSpecification::new(url.to_string())
}

fn pak_file(path: &str, digest: u64) -> PakEntry {
    PakEntry { path: path.to_string(), digest }
}

fn archive(entries: &[&str], pak: Option<PakInfo>) -> ModArchive {
    ModArchive { entries: entries.iter().map(|e| e.to_string()).collect(), pak }
}

fn no_options() -> LintOptions {
    LintOptions::default()
}

#[test]
fn all_options_off_yields_all_absent() {
    let batch = vec![LintTarget {
        spec: spec("http://a/x.pak"),
        archive: archive(&[], None),
    }];
    let report = run_lints(&batch, &no_options(), None);
    assert!(report.archive_with_multiple_paks_mods.is_none());
    assert!(report.archive_with_only_non_pak_files_mods.is_none());
    assert!(report.asset_register_bin_mods.is_none());
    assert!(report.conflicting_mods.is_none());
    assert!(report.empty_archive_mods.is_none());
    assert!(report.outdated_pak_version_mods.is_none());
    assert!(report.shader_file_mods.is_none());
    assert!(report.non_asset_file_mods.is_none());
    assert!(report.split_asset_pairs_mods.is_none());
    assert!(report.unmodified_game_assets_mods.is_none());
}

#[test]
fn multiple_paks_flags_only_that_category() {
    // Profile "default" is active and holds one enabled entry whose
    // archive contains two pak entries; only the multiple-paks check
    // is enabled.
    let mut data = ModData::new("default".to_string());
    data.profiles[0].1.push_entry(ModOrGroup::Individual(ModConfig::new(
        spec("http://a/x.pak"),
        true,
    )));
    let entries = data.enabled_specs(&"default".to_string()).unwrap();
    assert_eq!(entries.len(), 1);
    let batch = vec![LintTarget {
        spec: entries[0].spec.clone(),
        archive: archive(&["one.pak", "two.pak"], None),
    }];
    let mut options = no_options();
    options.archive_with_multiple_paks = true;
    let report = run_lints(&batch, &options, None);
    let flagged = report.archive_with_multiple_paks_mods.unwrap();
    assert_eq!(flagged.len(), 1);
    assert_eq!(flagged[0].url, "http://a/x.pak");
    assert!(report.archive_with_only_non_pak_files_mods.is_none());
    assert!(report.asset_register_bin_mods.is_none());
    assert!(report.conflicting_mods.is_none());
    assert!(report.empty_archive_mods.is_none());
    assert!(report.outdated_pak_version_mods.is_none());
    assert!(report.shader_file_mods.is_none());
    assert!(report.non_asset_file_mods.is_none());
    assert!(report.split_asset_pairs_mods.is_none());
    assert!(report.unmodified_game_assets_mods.is_none());
}

#[test]
fn single_pak_is_not_flagged() {
    let batch = vec![LintTarget {
        spec: spec("http://a/x.pak"),
        archive: archive(&["one.pak", "readme.txt"], None),
    }];
    let mut options = no_options();
    options.archive_with_multiple_paks = true;
    let report = run_lints(&batch, &options, None);
    assert!(report.archive_with_multiple_paks_mods.is_none());
}

#[test]
fn only_non_pak_files_flagged() {
    let batch = vec![
        LintTarget { spec: spec("http://a/a.zip"), archive: archive(&["readme.txt"], None) },
        LintTarget { spec: spec("http://a/b.zip"), archive: archive(&["fine.pak"], None) },
    ];
    let mut options = no_options();
    options.archive_with_only_non_pak_files = true;
    let report = run_lints(&batch, &options, None);
    let flagged = report.archive_with_only_non_pak_files_mods.unwrap();
    assert_eq!(flagged.len(), 1);
    assert_eq!(flagged[0].url, "http://a/a.zip");
}

#[test]
fn empty_archive_flagged() {
    let batch = vec![LintTarget { spec: spec("http://a/e.zip"), archive: archive(&[], None) }];
    let mut options = no_options();
    options.empty_archive = true;
    let report = run_lints(&batch, &options, None);
    assert_eq!(report.empty_archive_mods.unwrap()[0].url, "http://a/e.zip");
}

#[test]
fn outdated_pak_version_reports_the_version() {
    let batch = vec![
        LintTarget {
            spec: spec("http://a/old.pak"),
            archive: archive(&["old.pak"], Some(PakInfo { version: 10, files: vec![] })),
        },
        LintTarget {
            spec: spec("http://a/new.pak"),
            archive: archive(
                &["new.pak"],
                Some(PakInfo { version: PAK_VERSION_LATEST, files: vec![] }),
            ),
        },
    ];
    let mut options = no_options();
    options.outdated_pak_version = true;
    let report = run_lints(&batch, &options, None);
    let flagged = report.outdated_pak_version_mods.unwrap();
    assert_eq!(flagged.len(), 1);
    assert_eq!(flagged[0].0.url, "http://a/old.pak");
    assert_eq!(flagged[0].1, 10);
}

#[test]
fn asset_registry_bin_lists_the_paths() {
    let batch = vec![LintTarget {
        spec: spec("http://a/x.pak"),
        archive: archive(
            &["x.pak"],
            Some(PakInfo {
                version: PAK_VERSION_LATEST,
                files: vec![pak_file("Game/AssetRegistry.bin", 1), pak_file("Game/a.uasset", 2)],
            }),
        ),
    }];
    let mut options = no_options();
    options.asset_register_bin = true;
    let report = run_lints(&batch, &options, None);
    let flagged = report.asset_register_bin_mods.unwrap();
    assert_eq!(flagged.len(), 1);
    assert_eq!(flagged[0].1, vec!["Game/AssetRegistry.bin".to_string()]);
}

#[test]
fn shader_files_listed() {
    let batch = vec![LintTarget {
        spec: spec("http://a/x.pak"),
        archive: archive(
            &["x.pak"],
            Some(PakInfo {
                version: PAK_VERSION_LATEST,
                files: vec![pak_file("Game/sh.ushaderbytecode", 1), pak_file("Game/a.uasset", 2)],
            }),
        ),
    }];
    let mut options = no_options();
    options.shader_files = true;
    let report = run_lints(&batch, &options, None);
    let flagged = report.shader_file_mods.unwrap();
    assert_eq!(flagged[0].1, vec!["Game/sh.ushaderbytecode".to_string()]);
}

#[test]
fn non_asset_files_listed() {
    let batch = vec![LintTarget {
        spec: spec("http://a/x.pak"),
        archive: archive(
            &["x.pak"],
            Some(PakInfo {
                version: PAK_VERSION_LATEST,
                files: vec![
                    pak_file("Game/a.uasset", 1),
                    pak_file("Game/a.uexp", 2),
                    pak_file("notes.txt", 3),
                ],
            }),
        ),
    }];
    let mut options = no_options();
    options.non_asset_files = true;
    let report = run_lints(&batch, &options, None);
    let flagged = report.non_asset_file_mods.unwrap();
    assert_eq!(flagged[0].1, vec!["notes.txt".to_string()]);
}

#[test]
fn split_asset_pairs_name_the_missing_half() {
    let batch = vec![LintTarget {
        spec: spec("http://a/x.pak"),
        archive: archive(
            &["x.pak"],
            Some(PakInfo {
                version: PAK_VERSION_LATEST,
                files: vec![
                    pak_file("Game/whole.uasset", 1),
                    pak_file("Game/whole.uexp", 2),
                    pak_file("Game/orphan.uexp", 3),
                    pak_file("Game/widow.uasset", 4),
                ],
            }),
        ),
    }];
    let mut options = no_options();
    options.split_asset_pairs = true;
    let report = run_lints(&batch, &options, None);
    let flagged = report.split_asset_pairs_mods.unwrap();
    assert_eq!(flagged.len(), 1);
    assert_eq!(
        flagged[0].1,
        vec![
            ("Game/orphan.uexp".to_string(), SplitAssetPair::MissingUasset),
            ("Game/widow.uasset".to_string(), SplitAssetPair::MissingUexp),
        ]
    );
}

#[test]
fn conflicting_assets_keyed_by_path() {
    let batch = vec![
        LintTarget {
            spec: spec("http://a/1.pak"),
            archive: archive(
                &["1.pak"],
                Some(PakInfo {
                    version: PAK_VERSION_LATEST,
                    files: vec![pak_file("Game/shared.uasset", 1), pak_file("Game/own1.uasset", 2)],
                }),
            ),
        },
        LintTarget {
            spec: spec("http://a/2.pak"),
            archive: archive(
                &["2.pak"],
                Some(PakInfo {
                    version: PAK_VERSION_LATEST,
                    files: vec![pak_file("Game/shared.uasset", 3)],
                }),
            ),
        },
    ];
    let mut options = no_options();
    options.conflicting = true;
    let report = run_lints(&batch, &options, None);
    let flagged = report.conflicting_mods.unwrap();
    assert_eq!(flagged.len(), 1);
    assert_eq!(flagged[0].0, "Game/shared.uasset");
    let urls: Vec<&str> = flagged[0].1.iter().map(|m| m.url.as_str()).collect();
    assert_eq!(urls, vec!["http://a/1.pak", "http://a/2.pak"]);
}

#[test]
fn unmodified_game_assets_need_matching_digest() {
    let reference = vec![pak_file("Game/stock.uasset", 77), pak_file("Game/other.uasset", 5)];
    let batch = vec![LintTarget {
        spec: spec("http://a/x.pak"),
        archive: archive(
            &["x.pak"],
            Some(PakInfo {
                version: PAK_VERSION_LATEST,
                files: vec![
                    pak_file("Game/stock.uasset", 77),
                    pak_file("Game/other.uasset", 6),
                ],
            }),
        ),
    }];
    let mut options = no_options();
    options.unmodified_game_assets = true;
    let report = run_lints(&batch, &options, Some(&reference));
    let flagged = report.unmodified_game_assets_mods.unwrap();
    assert_eq!(flagged[0].1, vec!["Game/stock.uasset".to_string()]);
}

#[test]
fn unmodified_check_needs_a_reference() {
    let batch = vec![LintTarget {
        spec: spec("http://a/x.pak"),
        archive: archive(
            &["x.pak"],
            Some(PakInfo {
                version: PAK_VERSION_LATEST,
                files: vec![pak_file("Game/stock.uasset", 77)],
            }),
        ),
    }];
    let mut options = no_options();
    options.unmodified_game_assets = true;
    let report = run_lints(&batch, &options, None);
    assert!(report.unmodified_game_assets_mods.is_none());
}

#[test]
fn enabled_lints_follow_the_switches() {
    let mut options = LintOptions::default();
    assert!(options.enabled_lints().is_empty());
    options.archive_with_multiple_paks = true;
    options.empty_archive = true;
    options.unmodified_game_assets = true;
    assert_eq!(
        options.enabled_lints(),
        vec![
            LintId::ArchiveWithMultiplePaks,
            LintId::EmptyArchive,
            LintId::UnmodifiedGameAssets,
        ]
    );
}
