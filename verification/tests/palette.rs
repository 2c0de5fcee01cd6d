use commander::palette::{
    merge_commands, palette_names, palette_of_payload, Palette, PalettePayload, PaletteRegistry,
    UpdatePlan,
};

fn payload(name: &str, commands: &str) -> PalettePayload {
    PalettePayload { name: name.to_string(), commands: commands.to_string() }
}

#[test]
fn upsert_then_get_returns_the_record() {
    let mut reg = PaletteRegistry::new();
    reg.upsert(Palette { name: "warm".to_string(), commands: "{}".to_string() });
    let got = reg.get(&"warm".to_string()).expect("record should be cached");
    assert_eq!(got.name, "warm");
    assert_eq!(got.commands, "{}");
    assert!(reg.get(&"cold".to_string()).is_none());
}

#[test]
fn upsert_replaces_record_of_same_name() {
    let mut reg = PaletteRegistry::new();
    reg.upsert(Palette { name: "warm".to_string(), commands: "{\"v\":1}".to_string() });
    reg.upsert(Palette { name: "warm".to_string(), commands: "{\"v\":2}".to_string() });
    let got = reg.get(&"warm".to_string()).expect("record should be cached");
    assert_eq!(got.commands, "{\"v\":2}");
    assert_eq!(reg.items.len(), 1);
}

#[test]
fn remove_takes_the_record_out() {
    let mut reg = PaletteRegistry::new();
    reg.upsert(Palette { name: "warm".to_string(), commands: "{}".to_string() });
    assert!(reg.remove(&"warm".to_string()));
    assert!(reg.get(&"warm".to_string()).is_none());
    assert!(!reg.remove(&"warm".to_string()));
}

#[test]
fn payload_becomes_palette() {
    let p = palette_of_payload(&payload("warm", "{\"x\":1}"));
    assert_eq!(p.name, "warm");
    assert_eq!(p.commands, "{\"x\":1}");
}

#[test]
fn merge_keeps_name_takes_commands() {
    let loaded = Palette { name: "warm".to_string(), commands: "{\"old\":1}".to_string() };
    let merged = merge_commands(loaded, &payload("warm", "{\"new\":2}"));
    assert_eq!(merged.name, "warm");
    assert_eq!(merged.commands, "{\"new\":2}");
}

#[test]
fn update_plan_rejects_renaming() {
    let mut reg = PaletteRegistry::new();
    reg.upsert(Palette { name: "warm".to_string(), commands: "{}".to_string() });
    let plan = reg.plan_update(&"warm".to_string(), &payload("cool", "{}"));
    assert!(matches!(plan, UpdatePlan::Reject));
    assert_eq!(reg.get(&"warm".to_string()).unwrap().commands, "{}");
}

#[test]
fn update_plan_applies_to_cached_record() {
    let mut reg = PaletteRegistry::new();
    reg.upsert(Palette { name: "warm".to_string(), commands: "{\"v\":1}".to_string() });
    let plan = reg.plan_update(&"warm".to_string(), &payload("warm", "{\"v\":2}"));
    match plan {
        UpdatePlan::SaveUpdated(u) => {
            assert_eq!(u.name, "warm");
            assert_eq!(u.commands, "{\"v\":2}");
        },
        _ => panic!("expected the updated record to await its save"),
    }
    assert_eq!(reg.get(&"warm".to_string()).unwrap().commands, "{\"v\":2}");
}

#[test]
fn update_plan_asks_disk_when_not_cached() {
    let mut reg = PaletteRegistry::new();
    let plan = reg.plan_update(&"warm".to_string(), &payload("warm", "{}"));
    assert!(matches!(plan, UpdatePlan::LoadFromDisk));
    assert!(reg.get(&"warm".to_string()).is_none());
}

#[test]
fn failed_save_reverts_to_reloaded_record() {
    let mut reg = PaletteRegistry::new();
    reg.upsert(Palette { name: "warm".to_string(), commands: "{\"v\":2}".to_string() });
    let reloaded = Palette { name: "warm".to_string(), commands: "{\"v\":1}".to_string() };
    reg.revert_after_failed_save(&"warm".to_string(), Some(reloaded));
    assert_eq!(reg.get(&"warm".to_string()).unwrap().commands, "{\"v\":1}");
}

#[test]
fn failed_save_and_failed_reload_drop_the_record() {
    let mut reg = PaletteRegistry::new();
    reg.upsert(Palette { name: "warm".to_string(), commands: "{\"v\":2}".to_string() });
    reg.revert_after_failed_save(&"warm".to_string(), None);
    assert!(reg.get(&"warm".to_string()).is_none());
}

#[test]
fn palette_names_keeps_json_stems_only() {
    let files: Vec<Vec<u8>> = vec![
        b"alpha.json".to_vec(),
        b"readme.txt".to_vec(),
        b"b.json".to_vec(),
        b"nested.tar.json".to_vec(),
        b".json".to_vec(),
        b"json".to_vec(),
    ];
    let stems = palette_names(&files);
    assert_eq!(stems, vec![b"alpha".to_vec(), b"b".to_vec(), b"nested.tar".to_vec()]);
}
