use tide::config::{Config, Exclude, Os, SelectionError};
use tide::process_manager::Platform;

fn strings(items: &[&str]) -> Vec<String> {
    items.iter().map(|s| s.to_string()).collect()
}

fn config() -> Config {
    Config {
        root_dir: ".".to_string(),
        os: Os {
            unix: vec![
                ("dev".to_string(), strings(&["cargo run", "npm run watch"])),
                ("test".to_string(), vec![]),
            ],
            windows: vec![("dev".to_string(), strings(&["cargo run"]))],
        },
        exclude: Exclude { dir: vec![], file: vec![], ext: vec![] },
    }
}

#[test]
fn selects_named_set_in_order() {
    let c = config();
    assert_eq!(
        c.commands_for(Platform::Unix, &"dev".to_string()),
        Ok(strings(&["cargo run", "npm run watch"]))
    );
    assert_eq!(c.commands_for(Platform::Windows, &"dev".to_string()), Ok(strings(&["cargo run"])));
}

#[test]
fn empty_or_unknown_set_is_refused() {
    let c = config();
    assert_eq!(
        c.commands_for(Platform::Unix, &"test".to_string()),
        Err(SelectionError { name: "test".to_string() })
    );
    assert_eq!(
        c.commands_for(Platform::Unix, &"prod".to_string()),
        Err(SelectionError { name: "prod".to_string() })
    );
    assert_eq!(
        c.commands_for(Platform::Windows, &"test".to_string()),
        Err(SelectionError { name: "test".to_string() })
    );
}

#[test]
fn default_config_values() {
    let c = Config::default_config();
    assert_eq!(c.root_dir, ".");
    assert_eq!(c.os.unix.len(), 1);
    assert_eq!(c.os.unix[0].0, "dev");
    assert!(c.os.unix[0].1.is_empty());
    assert_eq!(c.os.windows[0].0, "dev");
    assert_eq!(c.exclude.dir, strings(&[".git"]));
    assert!(c.exclude.file.is_empty());
    assert_eq!(c.exclude.ext, strings(&["toml"]));
    // a fresh configuration has nothing to run yet
    assert!(c.commands_for(Platform::Unix, &"dev".to_string()).is_err());
}
