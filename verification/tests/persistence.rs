use mint_core::model::{ModConfig, ModData, ModGroup, ModOrGroup, ModSpecification};
use mint_core::request::RequestCounter;
use mint_core::shell::{
    GitHubRelease, ProviderCheckOutcome, WindowAbout, WindowProviderParameters, WindowSettings,
};

fn spec(url: &str) -> ModSpecification {
    ModSpecification::new(url.to_string())
}

fn sample_data() -> ModData {
    let mut data = ModData::new("default".to_string());
    {
        let profile = &mut data.profiles[0].1;
        profile.push_entry(ModOrGroup::Individual(ModConfig::new(spec("http://a/x.pak"), true)));
        profile.push_entry(ModOrGroup::Individual(ModConfig::new(spec("http://a/y.pak"), false)));
        profile.push_entry(ModOrGroup::Group { group_name: "pack".to_string(), enabled: true });
    }
    data.add_profile("alt".to_string());
    data.profiles[1].1.push_entry(ModOrGroup::Individual(ModConfig::new(
        spec("http://b/z.pak"),
        true,
    )));
    data.set_group(
        "pack".to_string(),
        ModGroup {
            mods: vec![
                ModConfig::new(spec("http://g/1.pak"), true),
                ModConfig::new(spec("http://g/2.pak"), false),
            ],
        },
    );
    data
}

#[test]
fn round_trip_preserves_contents_and_order() {
    let data = sample_data();
    let text = data.to_text();
    let reloaded = ModData::from_text(text.as_str()).unwrap();
    assert_eq!(reloaded, data);
}

#[test]
fn round_trip_survives_delimiters_in_names() {
    let mut data = ModData::new("we;ird\\name\nwith i and e".to_string());
    data.profiles[0].1.push_entry(ModOrGroup::Individual(ModConfig::new(
        spec("http://a/x;y\\z.pak"),
        true,
    )));
    let text = data.to_text();
    let reloaded = ModData::from_text(text.as_str()).unwrap();
    assert_eq!(reloaded, data);
}

#[test]
fn switching_profiles_survives_the_round_trip() {
    // Two profiles exist; the active one is switched to "alt", the
    // store saved and reloaded: the reloaded store is active on
    // "alt".
    let mut data = sample_data();
    assert!(data.set_active_profile(&"alt".to_string()));
    let text = data.to_text();
    let reloaded = ModData::from_text(text.as_str()).unwrap();
    assert_eq!(reloaded.active_profile, "alt");
    assert!(reloaded.is_wf());
}

#[test]
fn garbage_does_not_parse() {
    assert!(ModData::from_text("not a store").is_none());
    assert!(ModData::from_text("").is_none());
}

#[test]
fn truncated_text_does_not_parse() {
    let data = sample_data();
    let text = data.to_text();
    let cut: String = text.chars().take(text.chars().count() - 1).collect();
    assert!(ModData::from_text(cut.as_str()).is_none());
}

#[test]
fn trailing_junk_does_not_parse() {
    let data = sample_data();
    let mut text = data.to_text();
    text.push('x');
    assert!(ModData::from_text(text.as_str()).is_none());
}

#[test]
fn settings_window_opens_on_configured_path() {
    let w = WindowSettings::new(Some("C:/game/FSD.pak".to_string()));
    assert_eq!(w.drg_pak_path, "C:/game/FSD.pak");
    assert!(w.drg_pak_path_err.is_none());
    let w2 = WindowSettings::new(None);
    assert_eq!(w2.drg_pak_path, "");
    assert!(w2.drg_pak_path_err.is_none());
}

#[test]
fn provider_check_success_saves_and_closes() {
    let mut counter = RequestCounter::new();
    let mut dialog = WindowProviderParameters::new("modio".to_string(), vec![]);
    dialog.set_parameter("oauth-token".to_string(), "first value".to_string());
    dialog.set_parameter("oauth-token".to_string(), "second value".to_string());
    assert_eq!(dialog.parameters.len(), 1);
    assert_eq!(dialog.parameters[0].1, "second value");
    let rid = dialog.begin_check(&mut counter);
    let outcome = dialog.handle_check_result(rid, Ok(()));
    assert_eq!(outcome, ProviderCheckOutcome::Saved);
    assert!(dialog.check_rid.is_none());
}

#[test]
fn provider_check_failure_keeps_dialog_open() {
    let mut counter = RequestCounter::new();
    let mut dialog = WindowProviderParameters::new("modio".to_string(), vec![]);
    let rid = dialog.begin_check(&mut counter);
    let outcome = dialog.handle_check_result(rid, Err("bad credentials".to_string()));
    assert_eq!(outcome, ProviderCheckOutcome::ShowError);
    assert_eq!(dialog.check_error, Some("bad credentials".to_string()));
    // Ready for correction: a new check can start at once.
    let rid2 = dialog.begin_check(&mut counter);
    assert!(dialog.check_error.is_none());
    // A stale result from the abandoned first check is ignored.
    let stale = dialog.handle_check_result(rid, Ok(()));
    assert_eq!(stale, ProviderCheckOutcome::Stale);
    assert_eq!(dialog.check_rid.unwrap().value, rid2.value);
}

#[test]
fn about_window_and_release_metadata() {
    let _about = WindowAbout::new();
    let release = GitHubRelease::new(
        "https://example.test/releases/1".to_string(),
        "v1.2.3".to_string(),
        "notes".to_string(),
    );
    assert_eq!(release.html_url, "https://example.test/releases/1");
    assert_eq!(release.tag_name, "v1.2.3");
    assert_eq!(release.body, "notes");
}
