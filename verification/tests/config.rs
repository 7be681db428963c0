use jpnorm_core::{Config, ConfigError, ConfigValue, EmojiAction, Preset};

#[test]
fn set_get_roundtrip_all_keys() {
    let base = Config::for_compare();
    let mut rebuilt = Config::none();
    for (k, v) in base.entries() {
        rebuilt.set(k, v).unwrap();
    }
    assert_eq!(rebuilt, base);
    assert_eq!(base.entries().len(), Config::KEYS.len());
}

#[test]
fn set_errors() {
    let mut c = Config::none();
    assert!(matches!(c.set("bogus", true.into()), Err(ConfigError::UnknownKey(_))));
    assert!(matches!(c.set("nfkc", "yes".into()), Err(ConfigError::WrongType { .. })));
    assert!(matches!(c.set("kana", "x".into()), Err(ConfigError::InvalidValue { .. })));
    assert!(matches!(c.set("repeat_limit", 0usize.into()), Err(ConfigError::InvalidValue { .. })));
    c.set("url_wrap", ConfigValue::Pair("<".into(), ">".into())).unwrap();
    assert!(c.protect.urls);
    c.set("emoji_placeholder", "_".into()).unwrap();
    assert_eq!(c.emoji_action, EmojiAction::replace("_"));
    c.set("kansuji_to_arabic", true.into()).unwrap();
    c.set("arabic_to_kansuji", true.into()).unwrap();
    assert!(c.validate().is_err());
}

#[test]
fn preset_roundtrip_via_str() {
    for p in Preset::ALL {
        assert_eq!(p.as_str().parse::<Preset>().unwrap(), p);
    }
    assert!("bogus".parse::<Preset>().is_err());
}

#[test]
fn get_reads_what_set_wrote() {
    let mut c = Config::none();
    c.set("repeat_limit", ConfigValue::Int(3)).unwrap();
    assert_eq!(c.get("repeat_limit"), Some(ConfigValue::Int(3)));
    c.set("kana", "hira_to_kata".into()).unwrap();
    assert_eq!(c.get("kana"), Some(ConfigValue::Str("hira_to_kata".to_string())));
    assert_eq!(c.get("no_such_key"), None);
}

#[test]
fn error_messages() {
    let e = "bogus".parse::<Preset>().unwrap_err();
    assert!(e.to_string().starts_with("unknown preset: \"bogus\""));
    let mut c = Config::none();
    let e = c.set("bogus", true.into()).unwrap_err();
    assert_eq!(e.to_string(), "unknown option \"bogus\"");
}

#[test]
fn entries_agree_with_get_by_name() {
    let c = Config::for_search();
    let e = c.entries();
    assert_eq!(e.len(), Config::KEYS.len());
    for (i, (k, v)) in e.iter().enumerate() {
        assert_eq!(*k, Config::KEYS[i]);
        assert_eq!(c.get(k), Some(v.clone()));
    }
}
