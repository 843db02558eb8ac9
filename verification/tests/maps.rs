use poke_escape_server::error::ErrorKind;
use poke_escape_server::map::{GameMap, MapInfo, MapPlaces, RawAuthor, RawConfig, RawField,
    RawFeatures, RawMapEntry, RawMapFile, RawMapsTable};
use poke_escape_server::text::u64_to_string;
use poke_escape_server::version::{client_supported, Version};

fn field_of(e: &poke_escape_server::error::Error) -> String {
    match e.kind() {
        ErrorKind::FieldNotExists(f) => f.clone(),
        _ => panic!("expected a missing-field error"),
    }
}

fn simple_raw(rows: Vec<Option<Vec<Option<i64>>>>) -> RawMapFile {
    RawMapFile {
        name: RawField::Text("forest".to_string()),
        features: RawFeatures::Missing,
        rows: Some(rows),
    }
}

#[test]
fn map_requires_a_name() {
    let raw = RawMapFile {
        name: RawField::Missing,
        features: RawFeatures::Missing,
        rows: Some(vec![]),
    };
    assert_eq!(field_of(&GameMap::from_raw(raw).unwrap_err()), "name");
}

#[test]
fn map_rejects_non_text_features() {
    let raw = RawMapFile {
        name: RawField::Text("forest".to_string()),
        features: RawFeatures::Many(vec![Some("water".to_string()), None]),
        rows: Some(vec![]),
    };
    assert_eq!(field_of(&GameMap::from_raw(raw).unwrap_err()), "features is not string");
}

#[test]
fn map_requires_a_grid() {
    let raw = RawMapFile {
        name: RawField::Text("forest".to_string()),
        features: RawFeatures::Missing,
        rows: None,
    };
    assert_eq!(field_of(&GameMap::from_raw(raw).unwrap_err()), "map");
    let raw2 = RawMapFile {
        name: RawField::Text("forest".to_string()),
        features: RawFeatures::Missing,
        rows: Some(vec![Some(vec![]), None]),
    };
    assert_eq!(field_of(&GameMap::from_raw(raw2).unwrap_err()), "map");
}

#[test]
fn map_rows_are_filled_and_cropped() {
    // a short row is filled with solid blocks; a long row is cropped
    let long: Vec<Option<i64>> = (0..30).map(|i| Some(i)).collect();
    let map = GameMap::from_raw(simple_raw(vec![
        Some(vec![Some(5), None, Some(300), Some(-1)]),
        Some(long),
    ]))
    .unwrap();
    assert_eq!(map.size(), "28x2");
    let json = map.to_json();
    let value: serde_json::Value = serde_json::from_str(&json).unwrap();
    let rows = value["map"].as_array().unwrap();
    assert_eq!(rows.len(), 2);
    let first = rows[0].as_array().unwrap();
    assert_eq!(first.len(), 28);
    assert_eq!(first[0], serde_json::Value::from(5));
    // a non-integer cell becomes a solid block
    assert_eq!(first[1], serde_json::Value::from(1));
    // integer cells are truncated to a byte, as an `as u8` cast would
    assert_eq!(first[2], serde_json::Value::from(44));
    assert_eq!(first[3], serde_json::Value::from(255));
    // padding on the right is solid
    assert_eq!(first[27], serde_json::Value::from(1));
    let second = rows[1].as_array().unwrap();
    assert_eq!(second.len(), 28);
    assert_eq!(second[27], serde_json::Value::from(27));
}

#[test]
fn map_features_are_kept_and_listed() {
    let raw = RawMapFile {
        name: RawField::Text("forest".to_string()),
        features: RawFeatures::Many(vec![Some("water".to_string()), Some("traps".to_string())]),
        rows: Some(vec![]),
    };
    let map = GameMap::from_raw(raw).unwrap();
    assert_eq!(map.name(), "forest");
    assert!(map.feature(&"water".to_string()));
    assert!(!map.feature(&"lava".to_string()));
    assert_eq!(map.feature_list(), "water, traps");
    let value: serde_json::Value = serde_json::from_str(&map.to_json()).unwrap();
    assert_eq!(value["features"][1], serde_json::Value::String("traps".to_string()));
}

#[test]
fn map_feature_none_means_no_features() {
    let raw = RawMapFile {
        name: RawField::Text("forest".to_string()),
        features: RawFeatures::Single("none".to_string()),
        rows: Some(vec![]),
    };
    let map = GameMap::from_raw(raw).unwrap();
    assert!(!map.feature(&"none".to_string()));
    assert_eq!(map.feature_list(), "");
}

#[test]
fn map_json_escapes_quotes_and_backslashes() {
    let raw = RawMapFile {
        name: RawField::Text("fo\"re\\st".to_string()),
        features: RawFeatures::Missing,
        rows: Some(vec![]),
    };
    let map = GameMap::from_raw(raw).unwrap();
    let value: serde_json::Value = serde_json::from_str(&map.to_json()).unwrap();
    assert_eq!(value["name"], serde_json::Value::String("fo\"re\\st".to_string()));
}

fn entry(path: &str, version: &str, format: &str) -> RawMapEntry {
    RawMapEntry {
        path: RawField::Text(path.to_string()),
        version: RawField::Text(version.to_string()),
        format: RawField::Text(format.to_string()),
        author: RawAuthor::Missing,
    }
}

#[test]
fn catalog_requires_the_maps_table() {
    let cfg = RawConfig { maps: None, tables: vec![] };
    assert_eq!(field_of(&MapPlaces::new(&cfg, false).unwrap_err()), "Maps");
}

#[test]
fn catalog_requires_a_text_version() {
    let cfg = RawConfig {
        maps: Some(RawMapsTable { version: RawField::Missing, maps: Some(vec![]) }),
        tables: vec![],
    };
    assert_eq!(field_of(&MapPlaces::new(&cfg, false).unwrap_err()), "Maps.version");
    let cfg2 = RawConfig {
        maps: Some(RawMapsTable {
            version: RawField::Text("not-a-version".to_string()),
            maps: Some(vec![]),
        }),
        tables: vec![],
    };
    assert!(matches!(
        MapPlaces::new(&cfg2, false).unwrap_err().kind(),
        ErrorKind::VersionNotParsed
    ));
}

#[test]
fn catalog_requires_the_declared_names() {
    let cfg = RawConfig {
        maps: Some(RawMapsTable { version: RawField::Text("1.0.0".to_string()), maps: None }),
        tables: vec![],
    };
    assert_eq!(field_of(&MapPlaces::new(&cfg, false).unwrap_err()), "Maps.maps");
}

#[test]
fn catalog_too_new_stays_empty() {
    let cfg = RawConfig {
        maps: Some(RawMapsTable {
            version: RawField::Text("100.0.0".to_string()),
            maps: Some(vec![Some("forest".to_string())]),
        }),
        tables: vec![("forest".to_string(), entry("f.json", "0.1.0", "JSON"))],
    };
    let places = MapPlaces::new(&cfg, false).unwrap();
    assert!(places.available_maps().is_empty());
    assert_eq!(places.version(), &Version::new(100, 0, 0));
}

#[test]
fn catalog_skips_unusable_entries() {
    let cfg = RawConfig {
        maps: Some(RawMapsTable {
            version: RawField::Text("1.0.0".to_string()),
            maps: Some(vec![
                Some("forest".to_string()),
                None,
                Some("ghost".to_string()),
                Some("yamlmap".to_string()),
                Some("nopath".to_string()),
            ]),
        }),
        tables: vec![
            ("forest".to_string(), entry("f.json", "0.1.0", "json")),
            ("yamlmap".to_string(), entry("y.yaml", "0.1.0", "YAML")),
            (
                "nopath".to_string(),
                RawMapEntry {
                    path: RawField::Missing,
                    version: RawField::Text("0.1.0".to_string()),
                    format: RawField::Missing,
                    author: RawAuthor::Missing,
                },
            ),
        ],
    };
    let places = MapPlaces::new(&cfg, false).unwrap();
    assert_eq!(places.available_maps(), vec!["forest".to_string()]);
}

#[test]
fn catalog_author_is_concatenated() {
    let cfg = RawConfig {
        maps: Some(RawMapsTable {
            version: RawField::Text("1.0.0".to_string()),
            maps: Some(vec![Some("forest".to_string())]),
        }),
        tables: vec![(
            "forest".to_string(),
            RawMapEntry {
                path: RawField::Text("f.json".to_string()),
                version: RawField::Text("0.1.0".to_string()),
                format: RawField::Missing,
                author: RawAuthor::Many(vec![Some("ash".to_string()), Some("misty".to_string())]),
            },
        )],
    };
    let places = MapPlaces::new(&cfg, false).unwrap();
    assert_eq!(places.get_author("forest"), Some("ashmisty".to_string()));
    assert_eq!(places.get_author("swamp"), None);
}

#[test]
fn catalog_author_with_non_text_entry_is_dropped() {
    let cfg = RawConfig {
        maps: Some(RawMapsTable {
            version: RawField::Text("1.0.0".to_string()),
            maps: Some(vec![Some("forest".to_string())]),
        }),
        tables: vec![(
            "forest".to_string(),
            RawMapEntry {
                path: RawField::Text("f.json".to_string()),
                version: RawField::Text("0.1.0".to_string()),
                format: RawField::Missing,
                author: RawAuthor::Many(vec![Some("ash".to_string()), None]),
            },
        )],
    };
    let places = MapPlaces::new(&cfg, false).unwrap();
    assert_eq!(places.get_author("forest"), None);
}

#[test]
fn catalog_get_before_loading_names_the_file() {
    let cfg = RawConfig {
        maps: Some(RawMapsTable {
            version: RawField::Text("1.0.0".to_string()),
            maps: Some(vec![Some("forest".to_string())]),
        }),
        tables: vec![("forest".to_string(), entry("maps/forest.json", "0.1.0", "JSON"))],
    };
    let places = MapPlaces::new(&cfg, false).unwrap();
    assert_eq!(field_of(&places.get("forest").unwrap_err()), "maps/forest.json");
    assert_eq!(field_of(&places.get("swamp").unwrap_err()), "swamp");
}

#[test]
fn catalog_get_returns_the_loaded_map() {
    let cfg = RawConfig {
        maps: Some(RawMapsTable {
            version: RawField::Text("1.0.0".to_string()),
            maps: Some(vec![Some("forest".to_string())]),
        }),
        tables: vec![("forest".to_string(), entry("maps/forest.json", "0.1.0", "JSON"))],
    };
    let mut places = MapPlaces::new(&cfg, false).unwrap();
    let map = GameMap::from_raw(simple_raw(vec![Some(vec![Some(7)])])).unwrap();
    assert!(places.set_loaded("forest", map));
    assert!(!places.set_loaded("swamp", GameMap::from_raw(simple_raw(vec![])).unwrap()));
    let got = places.get("forest").unwrap();
    assert_eq!(got.name(), "forest");
    assert_eq!(got.size(), "28x1");
    assert_eq!(places.get_map("forest".to_string()).unwrap().name(), "forest");
}

#[test]
fn entry_from_conf_reports_each_failure() {
    let no_path = RawMapEntry {
        path: RawField::Missing,
        version: RawField::Text("0.1.0".to_string()),
        format: RawField::Missing,
        author: RawAuthor::Missing,
    };
    assert_eq!(
        field_of(&MapInfo::from_conf_one(&no_path, "forest".to_string(), false).unwrap_err()),
        "forest.path"
    );
    let no_version = RawMapEntry {
        path: RawField::Text("f.json".to_string()),
        version: RawField::Other,
        format: RawField::Missing,
        author: RawAuthor::Missing,
    };
    assert_eq!(
        field_of(&MapInfo::from_conf_one(&no_version, "forest".to_string(), false).unwrap_err()),
        "forest.version"
    );
    let bad_version = entry("f.json", "zero", "JSON");
    assert!(matches!(
        MapInfo::from_conf_one(&bad_version, "forest".to_string(), false).unwrap_err().kind(),
        ErrorKind::VersionNotParsed
    ));
    let bad_format = entry("f.json", "0.1.0", "YAML");
    assert!(matches!(
        MapInfo::from_conf_one(&bad_format, "forest".to_string(), false).unwrap_err().kind(),
        ErrorKind::FormatNotSupported
    ));
    let good = MapInfo::from_conf_one(&entry("f.json", "1.2.3", "Json"), "forest".to_string(), true)
        .unwrap();
    assert_eq!(good.name(), "forest");
    assert_eq!(good.version(), &Version::new(1, 2, 3));
    assert!(good.is_verbose());
}

#[test]
fn entry_always_fails_get_map() {
    let info = MapInfo::new(
        "forest".to_string(),
        "f.json".to_string(),
        Version::new(0, 1, 0),
        poke_escape_server::map::MapFormat::JSON,
        None,
        false,
    );
    assert_eq!(field_of(&info.get_map().unwrap_err()), "code");
    assert_eq!(field_of(&info.load_map().unwrap_err()), "f.json");
}

#[test]
fn versions_parse_and_compare() {
    let v = Version::parse("1.2.3").unwrap();
    assert_eq!(v, Version::new(1, 2, 3));
    assert!(!v.pre);
    assert!(Version::parse("1.2.3-alpha.1").unwrap().pre);
    assert!(Version::parse("not a version").is_none());
    assert!(Version::new(0, 9, 9).precedes(&Version::new(1, 0, 0)));
    assert!(!Version::new(1, 0, 0).precedes(&Version::new(1, 0, 0)));
    let pre = Version { major: 1, minor: 0, patch: 0, pre: true };
    assert!(pre.precedes(&Version::new(1, 0, 0)));
    assert_eq!(Version::new(1, 2, 3).render(), "1.2.3");
}

#[test]
fn client_version_rule() {
    assert!(client_supported(&Version::new(0, 1, 0)));
    assert!(client_supported(&Version::new(0, 0, 9)));
    assert!(!client_supported(&Version::new(0, 1, 1)));
    assert!(!client_supported(&Version::new(0, 2, 0)));
    assert!(!client_supported(&Version::new(1, 0, 0)));
    assert!(!client_supported(&Version { major: 0, minor: 1, patch: 0, pre: true }));
}

#[test]
fn client_rule_matches_the_semver_crate() {
    // the verified rule and the semver crate's own evaluation agree
    let req = semver::VersionReq::parse("<= 0.1.0").unwrap();
    for text in ["0.0.1", "0.1.0", "0.1.1", "0.2.0", "1.0.0", "0.1.0-alpha", "0.0.2-rc.1"] {
        let theirs = req.matches(&semver::Version::parse(text).unwrap());
        let ours = client_supported(&Version::parse(text).unwrap());
        assert_eq!(theirs, ours, "rule disagrees on {}", text);
    }
}

#[test]
fn decimal_rendering() {
    assert_eq!(u64_to_string(0), "0");
    assert_eq!(u64_to_string(10), "10");
    assert_eq!(u64_to_string(1234567890), "1234567890");
    assert_eq!(u64_to_string(u64::MAX), "18446744073709551615");
}
