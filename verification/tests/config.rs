use ip_geo::config::pick;
use ip_geo::{get_config, BuildOptions, Config, Family, Settings};

fn some(text: &str) -> Option<String> {
    Some(text.to_string())
}

#[test]
fn defaults_apply_when_nothing_is_given() {
    let config = get_config(Settings::empty(), None, "/home/u/.config/ip_geo.toml".to_string());
    assert_eq!(
        config,
        Config {
            config_path: "/home/u/.config/ip_geo.toml".to_string(),
            ipv4_addr: None,
            ipv4_path: "/usr/share/tor/geoip".to_string(),
            ipv4_len: 200_000,
            ipv4_comment: '#',
            ipv6_addr: None,
            ipv6_path: "/usr/share/tor/geoip6".to_string(),
            ipv6_len: 60_000,
            ipv6_comment: '#',
            server: false,
            port: 26_000,
        }
    );
    let same = get_config(Settings::empty(), Some(Settings::empty()), "/home/u/.config/ip_geo.toml".to_string());
    assert_eq!(same, config);
}

fn file() -> Settings {
    Settings {
        config_path: some("/etc/from_file.toml"),
        ipv4_addr: Some(1),
        ipv4_path: some("/file/geoip"),
        ipv4_len: Some(11),
        ipv4_comment: Some(';'),
        ipv6_addr: Some(2),
        ipv6_path: some("/file/geoip6"),
        ipv6_len: Some(12),
        ipv6_comment: Some('%'),
        server: Some(true),
        port: Some(1234),
    }
}

fn command_line() -> Settings {
    Settings {
        config_path: some("/cli.toml"),
        ipv4_addr: Some(101),
        ipv4_path: some("/cli/geoip"),
        ipv4_len: Some(111),
        ipv4_comment: Some('!'),
        ipv6_addr: Some(102),
        ipv6_path: some("/cli/geoip6"),
        ipv6_len: Some(112),
        ipv6_comment: Some('@'),
        server: Some(false),
        port: Some(4321),
    }
}

#[test]
fn file_overrides_defaults() {
    let config = get_config(Settings::empty(), Some(file()), "/default.toml".to_string());
    assert_eq!(
        config,
        Config {
            config_path: "/etc/from_file.toml".to_string(),
            ipv4_addr: None,
            ipv4_path: "/file/geoip".to_string(),
            ipv4_len: 11,
            ipv4_comment: ';',
            ipv6_addr: None,
            ipv6_path: "/file/geoip6".to_string(),
            ipv6_len: 12,
            ipv6_comment: '%',
            server: true,
            port: 1234,
        }
    );
}

#[test]
fn command_line_overrides_file() {
    let config = get_config(command_line(), Some(file()), "/default.toml".to_string());
    assert_eq!(
        config,
        Config {
            config_path: "/cli.toml".to_string(),
            ipv4_addr: Some(101),
            ipv4_path: "/cli/geoip".to_string(),
            ipv4_len: 111,
            ipv4_comment: '!',
            ipv6_addr: Some(102),
            ipv6_path: "/cli/geoip6".to_string(),
            ipv6_len: 112,
            ipv6_comment: '@',
            server: false,
            port: 4321,
        }
    );
    let without_file = get_config(command_line(), None, "/default.toml".to_string());
    assert_eq!(without_file, config);
}

#[test]
fn each_option_is_settled_on_its_own() {
    let arguments = Settings { ipv4_len: Some(5), port: Some(80), ..Settings::empty() };
    let from_file =
        Settings { ipv4_len: Some(6), ipv6_len: Some(7), server: Some(true), ..Settings::empty() };
    let config = get_config(arguments, Some(from_file), "/d.toml".to_string());
    assert_eq!(config.ipv4_len, 5);
    assert_eq!(config.ipv6_len, 7);
    assert_eq!(config.port, 80);
    assert!(config.server);
    assert_eq!(config.ipv4_comment, '#');
    assert_eq!(config.ipv4_path, "/usr/share/tor/geoip");
    assert_eq!(config.config_path, "/d.toml");
    assert_eq!(config.ipv4_addr, None);
}

#[test]
fn pick_takes_the_first_that_is_given() {
    assert_eq!(pick(Some(1), Some(2), 3), 1);
    assert_eq!(pick(None, Some(2), 3), 2);
    assert_eq!(pick(None, None, 3), 3);
    assert_eq!(pick(Some(1), None, 3), 1);
}

#[test]
fn build_options_come_from_the_family_settings() {
    let config = get_config(command_line(), None, "/d.toml".to_string());
    assert_eq!(
        config.build_options(Family::V4, 8),
        BuildOptions {
            family: Family::V4,
            comment: '!',
            strict: false,
            capacity_hint: 111,
            sample_limit: 8,
        }
    );
    assert_eq!(
        config.build_options(Family::V6, 0),
        BuildOptions {
            family: Family::V6,
            comment: '@',
            strict: false,
            capacity_hint: 112,
            sample_limit: 0,
        }
    );
}

#[test]
fn addresses_come_from_the_command_line_alone() {
    for a in [0u32, 1, 167_772_161, u32::MAX] {
        for b in [0u128, 1, 0x2001_0db8_0000_0000_0000_0000_0000_0001, u128::MAX] {
            let arguments =
                Settings { ipv4_addr: Some(a), ipv6_addr: Some(b), ..Settings::empty() };
            for from_file in [None, Some(Settings::empty()), Some(file())] {
                let config = get_config(arguments.clone(), from_file, "/d.toml".to_string());
                assert_eq!(config.ipv4_addr, Some(a));
                assert_eq!(config.ipv6_addr, Some(b));
            }
        }
    }
}

#[test]
fn no_address_is_looked_up_when_none_is_asked_for() {
    for from_file in [None, Some(Settings::empty()), Some(file())] {
        let config = get_config(Settings::empty(), from_file, "/d.toml".to_string());
        assert_eq!(config.ipv4_addr, None);
        assert_eq!(config.ipv6_addr, None);
    }
    let only_v6 = Settings { ipv6_addr: Some(9), ..Settings::empty() };
    let config = get_config(only_v6, Some(file()), "/d.toml".to_string());
    assert_eq!(config.ipv4_addr, None);
    assert_eq!(config.ipv6_addr, Some(9));
}

#[test]
fn merging_again_changes_nothing() {
    let firsts = [
        get_config(Settings::empty(), None, "/d.toml".to_string()),
        get_config(Settings::empty(), Some(file()), "/d.toml".to_string()),
        get_config(command_line(), Some(file()), "/d.toml".to_string()),
        get_config(
            Settings { ipv4_addr: Some(7), port: Some(1), ..Settings::empty() },
            None,
            "/d.toml".to_string(),
        ),
    ];
    for first in firsts {
        for from_file in [None, Some(Settings::empty()), Some(file()), Some(command_line())] {
            let again = get_config(first.to_settings(), from_file, "/other.toml".to_string());
            assert_eq!(again, first);
        }
    }
}

#[test]
fn settled_configuration_gives_every_option() {
    let config = get_config(Settings::empty(), None, "/d.toml".to_string());
    assert_eq!(
        config.to_settings(),
        Settings {
            config_path: some("/d.toml"),
            ipv4_addr: None,
            ipv4_path: some("/usr/share/tor/geoip"),
            ipv4_len: Some(200_000),
            ipv4_comment: Some('#'),
            ipv6_addr: None,
            ipv6_path: some("/usr/share/tor/geoip6"),
            ipv6_len: Some(60_000),
            ipv6_comment: Some('#'),
            server: Some(false),
            port: Some(26_000),
        }
    );
}
