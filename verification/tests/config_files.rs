use pusu::producer::config::{get_file_format, ConfigError, FileFormat, DEFAULT_NB_WORKERS, DEFAULT_PORT};

fn unsupported(name: &str) -> String {
    match get_file_format(name) {
        Err(ConfigError::UnsupportedFormat(extension)) => extension,
        Ok(format) => panic!("{} was taken as {:?}", name, format),
    }
}

#[test]
fn format_follows_the_extension() {
    assert_eq!(get_file_format("Config.json").unwrap(), FileFormat::Json);
    assert_eq!(get_file_format("Config.toml").unwrap(), FileFormat::Toml);
    assert_eq!(get_file_format("examples/Config.yaml").unwrap(), FileFormat::Yaml);
    assert_eq!(get_file_format("examples/Config.yml").unwrap(), FileFormat::Yaml);
}

#[test]
fn only_the_last_extension_counts() {
    assert_eq!(get_file_format("backup.toml.json").unwrap(), FileFormat::Json);
    assert_eq!(unsupported("Config.json.bak"), "bak");
    assert_eq!(get_file_format("caf\u{e9}.d/conf.yml").unwrap(), FileFormat::Yaml);
}

#[test]
fn name_without_dot_is_its_own_extension() {
    assert_eq!(get_file_format("json").unwrap(), FileFormat::Json);
    assert_eq!(unsupported("Config"), "Config");
    assert_eq!(unsupported(""), "");
}

#[test]
fn unknown_extension_is_handed_back() {
    assert_eq!(unsupported("Config.ini"), "ini");
    assert_eq!(unsupported("Config.JSON"), "JSON");
    assert_eq!(unsupported("Config."), "");
    assert_eq!(unsupported("Config.yamll"), "yamll");
    assert_eq!(unsupported("Config.\u{fc}ml"), "\u{fc}ml");
}

#[test]
fn defaults() {
    assert_eq!(DEFAULT_NB_WORKERS, 2);
    assert_eq!(DEFAULT_PORT, 8080);
}
