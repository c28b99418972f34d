use river_swww::config::{Config, TagEntry};

fn sample_config() -> Config {
    Config {
        swww_args: String::new(),
        default: String::from("/walls/default.png"),
        tags: vec![
            TagEntry { tag: 1, path: String::from("/walls/one.png") },
            TagEntry { tag: 2, path: String::from("/walls/two.png") },
        ],
    }
}

#[test]
fn resolve_mapped_tag() {
    let c = sample_config();
    assert_eq!(c.resolve(1).as_str(), "/walls/one.png");
    assert_eq!(c.resolve(2).as_str(), "/walls/two.png");
}

#[test]
fn resolve_unmapped_tag_falls_back_to_default() {
    let c = sample_config();
    assert_eq!(c.resolve(3).as_str(), "/walls/default.png");
    assert_eq!(c.resolve(64).as_str(), "/walls/default.png");
}

#[test]
fn resolve_with_empty_mapping_always_falls_back() {
    let c = Config {
        swww_args: String::new(),
        default: String::from("/walls/default.png"),
        tags: Vec::new(),
    };
    assert_eq!(c.resolve(1).as_str(), "/walls/default.png");
}
