use simtrace::binary32::Binary32;
use simtrace::plugins::{
    activation_needed, create_plugin, f1_game_config, is_f1_plugin, kind_of_lower_case, only_available,
    plugin_display_name, plugin_entries, provider_config, steering_half_lock, CollectorSettings, GameConfig,
    PluginKind, ProviderConfig,
};

fn settings(plugin: &str, address: &str) -> CollectorSettings {
    CollectorSettings { plugin: plugin.to_owned(), f1_bind_address: address.to_owned(), f1_udp_port: 20778 }
}

#[test]
fn addresses_lose_surrounding_whitespace() {
    let config = provider_config(&settings("f1", " \t127.0.0.1\u{a0}\n"));
    assert_eq!(config.f1_bind_address, "127.0.0.1");
    assert_eq!(config.f1_udp_port, 20778);
    assert_eq!(provider_config(&settings("f1", "a b")).f1_bind_address, "a b");
}

#[test]
fn default_configuration_listens_everywhere() {
    let config = ProviderConfig::default();
    assert_eq!(config.f1_bind_address, "0.0.0.0");
    assert_eq!(config.f1_udp_port, 20777);
    assert!(config.is_same(&ProviderConfig::default()));
}

#[test]
fn activation_follows_the_settings() {
    let active = provider_config(&settings("f1", "127.0.0.1"));
    assert!(!activation_needed(&settings("f1", " 127.0.0.1 "), "f1", &active));
    assert!(activation_needed(&settings("f1", "127.0.0.2"), "f1", &active));
    assert!(activation_needed(&settings("mock", "127.0.0.1"), "f1", &active));
    let other_port = ProviderConfig { f1_udp_port: 1, ..active.clone() };
    assert!(activation_needed(&settings("f1", "127.0.0.1"), "f1", &other_port));
}

#[test]
fn names_select_providers_whatever_their_case() {
    assert_eq!(create_plugin("F1", false), Some(PluginKind::F1));
    assert_eq!(create_plugin("F1_25", false), Some(PluginKind::F1));
    assert_eq!(create_plugin("AMS2", true), Some(PluginKind::Ams2));
    assert_eq!(create_plugin("unknown", true), None);
    assert_eq!(kind_of_lower_case("F1"), None);
}

#[test]
fn some_providers_need_windows() {
    assert_eq!(only_available(Some(PluginKind::AssettoCompetizione), false), None);
    assert_eq!(
        only_available(Some(PluginKind::AssettoCompetizione), true),
        Some(PluginKind::AssettoCompetizione)
    );
    assert_eq!(only_available(Some(PluginKind::F1), false), Some(PluginKind::F1));
}

#[test]
fn listed_providers_exist() {
    for on_windows in [false, true] {
        for (id, name) in plugin_entries(on_windows) {
            assert!(create_plugin(id, on_windows).is_some());
            assert_eq!(plugin_display_name(id), name);
        }
        assert_eq!(plugin_entries(on_windows).last(), Some(&("mock", "Mock (Simulated Data)")));
    }
    assert_eq!(plugin_entries(true).len(), 5);
    assert_eq!(plugin_entries(true)[0].0, "assetto_competizione");
    assert_eq!(plugin_entries(false).len(), 4);
    assert_eq!(plugin_entries(false)[0].0, "ams2");
    assert_eq!(plugin_display_name("assetto_competizione"), "Assetto Corsa Competizione");
    assert_eq!(plugin_display_name("elsewhere"), "elsewhere");
}

#[test]
fn f1_settings_apply_to_its_names() {
    assert!(is_f1_plugin("f1"));
    assert!(is_f1_plugin("f1_25"));
    assert!(!is_f1_plugin("F1"));
    assert!(!is_f1_plugin("mock"));
}

#[test]
fn half_lock_comes_from_the_provider() {
    assert_eq!(steering_half_lock(Some(f1_game_config())), Binary32 { bits: 180.0_f32.to_bits() });
    assert_eq!(steering_half_lock(None), Binary32 { bits: 450.0_f32.to_bits() });
    assert_eq!(GameConfig::default().max_steering_angle, Binary32 { bits: 0 });
}

#[test]
fn all_whitespace_is_trimmed() {
    for code in 0..0x3100_u32 {
        if let Some(c) = char::from_u32(code) {
            let address = format!("{}x{}", c, c);
            let trimmed = provider_config(&settings("f1", &address)).f1_bind_address;
            assert_eq!(trimmed, address.trim());
            assert_eq!(trimmed == "x", c.is_whitespace());
        }
    }
    assert_eq!(provider_config(&settings("f1", " \u{2003}\t ")).f1_bind_address, "");
}
