use bbcode::font::update_font_registry;
use bbcode::font::FontAssetEvent;
use bbcode::font::FontRegistry;

#[test]
fn empty_registry_answers_nothing() {
    let registry = FontRegistry::new();
    assert_eq!(registry.query("base", "fallback", 400, false), None);
    assert_eq!(registry.asset_for_face(fontdb::ID::dummy()), None);
}

#[test]
fn garbage_font_data_registers_no_faces() {
    let mut registry = FontRegistry::new();
    registry.add(7, vec![0, 1, 2, 3]);
    assert_eq!(registry.query("base", "fallback", 700, true), None);
    registry.remove(7);
    assert_eq!(registry.query("base", "fallback", 400, false), None);
}

#[test]
fn update_replaces_an_asset() {
    let mut registry = FontRegistry::default();
    registry.add(1, Vec::new());
    registry.update(1, vec![9, 9, 9]);
    registry.remove(1);
    registry.remove(2);
    assert_eq!(registry.query("any", "any", 400, false), None);
}

#[test]
fn font_events_drive_the_registry() {
    let mut registry = FontRegistry::new();
    update_font_registry(&mut registry, FontAssetEvent::Added { asset_id: 3, data: vec![1, 2] });
    update_font_registry(
        &mut registry,
        FontAssetEvent::Modified { asset_id: 3, data: vec![3, 4] },
    );
    update_font_registry(&mut registry, FontAssetEvent::Removed { asset_id: 3 });
    assert_eq!(registry.query("any", "any", 400, false), None);
}
