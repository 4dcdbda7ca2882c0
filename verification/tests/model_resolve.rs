use mint_core::model::{ModConfig, ModData, ModGroup, ModOrGroup, ModProfile, ModSpecification};
use mint_core::resolve::{duplicate_flags, missing_dependencies, satisfied_by_any};
use mint_core::text::{build_mod_string, parse_mods};

fn spec(url: &str) -> ModSpecification {
    ModSpecification::new(url.to_string())
}

fn individual(url: &str, enabled: bool) -> ModOrGroup {
    ModOrGroup::Individual(ModConfig::new(spec(url), enabled))
}

#[test]
fn satisfies_dependency_is_prefix_compatibility() {
    let a = spec("http://a/x.pak");
    let b = spec("http://a/x.pak?version=2");
    let c = spec("http://b/y.pak");
    assert!(a.satisfies_dependency(&b));
    assert!(b.satisfies_dependency(&a));
    assert!(a.satisfies_dependency(&a));
    assert!(!a.satisfies_dependency(&c));
    assert!(!c.satisfies_dependency(&a));
}

#[test]
fn enabled_set_keeps_load_order_and_positions() {
    let mut data = ModData::new("default".to_string());
    {
        let profile = &mut data.profiles[0].1;
        profile.push_entry(individual("http://a/1.pak", true));
        profile.push_entry(individual("http://a/2.pak", false));
        profile.push_entry(individual("http://a/3.pak", true));
    }
    let entries = data.enabled_specs(&"default".to_string()).unwrap();
    assert_eq!(entries.len(), 2);
    assert_eq!(entries[0].position, Some(0));
    assert_eq!(entries[0].spec.url, "http://a/1.pak");
    assert_eq!(entries[1].position, Some(2));
    assert_eq!(entries[1].spec.url, "http://a/3.pak");
}

#[test]
fn enabled_group_contributes_enabled_children_without_position() {
    let mut data = ModData::new("default".to_string());
    data.set_group(
        "pack".to_string(),
        ModGroup {
            mods: vec![
                ModConfig::new(spec("http://g/1.pak"), true),
                ModConfig::new(spec("http://g/2.pak"), false),
                ModConfig::new(spec("http://g/3.pak"), true),
            ],
        },
    );
    {
        let profile = &mut data.profiles[0].1;
        profile.push_entry(ModOrGroup::Group { group_name: "pack".to_string(), enabled: true });
    }
    let entries = data.enabled_specs(&"default".to_string()).unwrap();
    assert_eq!(entries.len(), 2);
    assert_eq!(entries[0].position, None);
    assert_eq!(entries[0].spec.url, "http://g/1.pak");
    assert_eq!(entries[1].position, None);
    assert_eq!(entries[1].spec.url, "http://g/3.pak");
}

#[test]
fn disabled_group_contributes_nothing() {
    // The group is disabled at the top level while its three children
    // are each individually enabled.
    let mut data = ModData::new("default".to_string());
    data.set_group(
        "Core Pack".to_string(),
        ModGroup {
            mods: vec![
                ModConfig::new(spec("http://g/1.pak"), true),
                ModConfig::new(spec("http://g/2.pak"), true),
                ModConfig::new(spec("http://g/3.pak"), true),
            ],
        },
    );
    {
        let profile = &mut data.profiles[0].1;
        profile.push_entry(ModOrGroup::Group {
            group_name: "Core Pack".to_string(),
            enabled: false,
        });
    }
    let entries = data.enabled_specs(&"default".to_string()).unwrap();
    assert_eq!(entries.len(), 0);
}

#[test]
fn dangling_group_reference_contributes_nothing() {
    let mut data = ModData::new("default".to_string());
    {
        let profile = &mut data.profiles[0].1;
        profile.push_entry(ModOrGroup::Group { group_name: "gone".to_string(), enabled: true });
        profile.push_entry(individual("http://a/1.pak", true));
    }
    let entries = data.enabled_specs(&"default".to_string()).unwrap();
    assert_eq!(entries.len(), 1);
    assert_eq!(entries[0].spec.url, "http://a/1.pak");
}

#[test]
fn missing_profile_resolves_to_none() {
    let data = ModData::new("default".to_string());
    assert!(data.enabled_specs(&"other".to_string()).is_none());
}

#[test]
fn duplicate_pair_flags_exactly_the_later_entry() {
    // B satisfies A's dependency constraint and stands later: exactly
    // one of the pair is flagged, never both, never zero.
    let mut data = ModData::new("default".to_string());
    {
        let profile = &mut data.profiles[0].1;
        profile.push_entry(individual("http://a/x.pak", true));
        profile.push_entry(individual("http://a/x.pak?version=2", true));
    }
    let entries = data.enabled_specs(&"default".to_string()).unwrap();
    let flags = duplicate_flags(&entries);
    assert_eq!(flags, vec![false, true]);
    assert_eq!(flags.iter().filter(|f| **f).count(), 1);
}

#[test]
fn unrelated_entries_are_not_duplicates() {
    let mut data = ModData::new("default".to_string());
    {
        let profile = &mut data.profiles[0].1;
        profile.push_entry(individual("http://a/x.pak", true));
        profile.push_entry(individual("http://b/y.pak", true));
    }
    let entries = data.enabled_specs(&"default".to_string()).unwrap();
    let flags = duplicate_flags(&entries);
    assert_eq!(flags, vec![false, false]);
}

#[test]
fn missing_dependency_reported_once_regardless_of_order() {
    let mut data = ModData::new("default".to_string());
    {
        let profile = &mut data.profiles[0].1;
        profile.push_entry(individual("http://a/m.pak", true));
    }
    let entries = data.enabled_specs(&"default".to_string()).unwrap();
    let dep = spec("http://deps/d.pak");
    assert!(!satisfied_by_any(&entries, &dep));
    // The dependency is declared twice; it is reported once.
    let deps = vec![dep.clone(), spec("http://a/m.pak"), dep.clone()];
    let missing = missing_dependencies(&entries, &deps);
    assert_eq!(missing.len(), 1);
    assert_eq!(missing[0].url, "http://deps/d.pak");
}

#[test]
fn add_missing_dependencies_input_is_exactly_the_missing_specs() {
    // Mod M suggests dependency D; nothing in the enabled set
    // satisfies it. The bulk add action feeds a new resolve whose
    // input list is exactly {D}.
    let mut data = ModData::new("default".to_string());
    {
        let profile = &mut data.profiles[0].1;
        profile.push_entry(individual("http://a/m.pak", true));
    }
    let entries = data.enabled_specs(&"default".to_string()).unwrap();
    let suggested = vec![spec("http://deps/d.pak")];
    let resolve_input = missing_dependencies(&entries, &suggested);
    assert_eq!(resolve_input.len(), 1);
    assert_eq!(resolve_input[0].url, "http://deps/d.pak");
}

#[test]
fn satisfied_dependency_is_not_missing() {
    let mut data = ModData::new("default".to_string());
    {
        let profile = &mut data.profiles[0].1;
        profile.push_entry(individual("http://deps/d.pak?version=3", true));
    }
    let entries = data.enabled_specs(&"default".to_string()).unwrap();
    let deps = vec![spec("http://deps/d.pak")];
    let missing = missing_dependencies(&entries, &deps);
    assert!(missing.is_empty());
}

#[test]
fn set_active_profile_requires_existing_name() {
    let mut data = ModData::new("default".to_string());
    assert!(data.add_profile("alt".to_string()));
    assert!(data.set_active_profile(&"alt".to_string()));
    assert_eq!(data.active_profile, "alt");
    assert!(!data.set_active_profile(&"nope".to_string()));
    assert_eq!(data.active_profile, "alt");
}

#[test]
fn add_profile_rejects_taken_name() {
    let mut data = ModData::new("default".to_string());
    assert!(!data.add_profile("default".to_string()));
    assert_eq!(data.profiles.len(), 1);
}

#[test]
fn set_group_replaces_by_name() {
    let mut data = ModData::new("default".to_string());
    data.set_group("pack".to_string(), ModGroup { mods: vec![] });
    data.set_group(
        "pack".to_string(),
        ModGroup { mods: vec![ModConfig::new(spec("http://g/1.pak"), true)] },
    );
    assert_eq!(data.groups.len(), 1);
    assert_eq!(data.groups[0].1.mods.len(), 1);
}

#[test]
fn wf_detects_duplicate_names_and_bad_active() {
    let mut data = ModData::new("default".to_string());
    assert!(data.is_wf());
    data.profiles.push(("default".to_string(), ModProfile::new()));
    assert!(!data.is_wf());
    data.profiles.pop();
    data.active_profile = "gone".to_string();
    assert!(!data.is_wf());
}

#[test]
fn toggling_and_removing_entries_keeps_order() {
    let mut profile = ModProfile::new();
    profile.push_entry(individual("http://a/1.pak", true));
    profile.push_entry(individual("http://a/2.pak", true));
    profile.push_entry(individual("http://a/3.pak", true));
    profile.set_enabled(1, false);
    match &profile.mods[1] {
        ModOrGroup::Individual(mc) => assert!(!mc.enabled),
        _ => panic!("expected an individual entry"),
    }
    let removed = profile.remove_entry(0);
    match removed {
        ModOrGroup::Individual(mc) => assert_eq!(mc.spec.url, "http://a/1.pak"),
        _ => panic!("expected an individual entry"),
    }
    assert_eq!(profile.mods.len(), 2);
    match &profile.mods[0] {
        ModOrGroup::Individual(mc) => assert_eq!(mc.spec.url, "http://a/2.pak"),
        _ => panic!("expected an individual entry"),
    }
}

#[test]
fn parse_mods_trims_and_drops_blank_lines() {
    let mods = parse_mods("  http://a/1.pak \n\n\thttp://a/2.pak\r\n   \nhttp://a/3.pak");
    let urls: Vec<&str> = mods.iter().map(|m| m.url.as_str()).collect();
    assert_eq!(urls, vec!["http://a/1.pak", "http://a/2.pak", "http://a/3.pak"]);
}

#[test]
fn parse_mods_of_blank_text_is_empty() {
    assert!(parse_mods("").is_empty());
    assert!(parse_mods("   \n\t\n").is_empty());
}

#[test]
fn build_mod_string_lists_enabled_urls() {
    let mods = vec![
        ModConfig::new(spec("http://a/1.pak"), true),
        ModConfig::new(spec("http://a/2.pak"), false),
        ModConfig::new(spec("http://a/3.pak"), true),
    ];
    assert_eq!(build_mod_string(&mods), "http://a/1.pak\nhttp://a/3.pak\n");
}
