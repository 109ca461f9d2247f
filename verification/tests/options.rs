use automancy::options::{AAType, GraphicsOptions, GuiOptions, MiscOptions, UiScale};
use automancy::render::data::RawFace;

#[test]
fn graphics_defaults() {
    let g = GraphicsOptions::default();
    assert_eq!(g.fps_limit, 0);
    assert!(!g.fullscreen);
    assert_eq!(g.ui_scale, UiScale::Normal);
    assert_eq!(g.anti_aliasing, AAType::FXAA);
}

#[test]
fn misc_defaults() {
    let m = MiscOptions::default();
    assert_eq!(m.language, "en_US");
    assert!(!m.synced);
}

#[test]
fn font_choice_must_be_loaded() {
    let fonts = vec!["Iosevka".to_string(), "Noto".to_string()];
    let mut g = GuiOptions::new();
    assert_eq!(g.get_font(&fonts), Some("Iosevka".to_string()));
    g.set_font(&fonts, Some("Noto".to_string()));
    assert_eq!(g.get_font(&fonts), Some("Noto".to_string()));
    g.set_font(&fonts, Some("Comic".to_string()));
    assert_eq!(g.get_font(&fonts), Some("Iosevka".to_string()));
    g.set_font(&fonts, Some("Noto".to_string()));
    g.set_font(&fonts, None);
    assert_eq!(g.get_font(&fonts), Some("Iosevka".to_string()));
    assert_eq!(g.get_font(&Vec::new()), None);
}

#[test]
fn face_index_offset_shifts_every_index() {
    let f = RawFace { indices: vec![0, 1, 2, 7] };
    let g = f.index_offset(10);
    assert_eq!(g.indices, vec![10, 11, 12, 17]);
    let h = RawFace { indices: vec![] }.index_offset(3);
    assert!(h.indices.is_empty());
}
