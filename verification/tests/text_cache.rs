use phimakor::fonts::{legible, load_font, reads_as_utf16, FontName};
use phimakor::renderer::Renderer;
use phimakor::text::{
    blit_glyphs, choose_font, is_digits, lru_evict_oldest, lru_touch, upload_gray_line, FontChoice,
    Glyph, HAlign, Lookup, TextAnchor, TextState, TEXT_CACHE_CAP,
};

#[test]
fn text_cache_lru_evicts_oldest_only() {
    let mut access: Vec<(String, u8)> = (0..4).map(|i| (format!("t{i}"), 0u8)).collect();
    let evicted = lru_evict_oldest(&mut access, 4);
    assert_eq!(evicted, Some(("t0".to_string(), 0)));
    assert_eq!(access.len(), 3);
    access.push(("new".to_string(), 0));
    assert_eq!(
        access,
        vec![
            ("t1".to_string(), 0),
            ("t2".to_string(), 0),
            ("t3".to_string(), 0),
            ("new".to_string(), 0),
        ]
    );
    lru_touch(&mut access, &("new".to_string(), 0));
    assert_eq!(access.last(), Some(&("new".to_string(), 0)));
    let evicted = lru_evict_oldest(&mut access, 4);
    assert_eq!(evicted, Some(("t1".to_string(), 0)));
    access.push(("new2".to_string(), 0));
    assert_eq!(access.len(), 4);
    assert_eq!(access.first(), Some(&("t2".to_string(), 0)));
}

#[test]
fn text_cache_cap_holds_1024() {
    let mut access: Vec<(String, u8)> = Vec::new();
    for i in 0..=(TEXT_CACHE_CAP + 7) {
        if let Some(_evicted) = lru_evict_oldest(&mut access, TEXT_CACHE_CAP) {}
        access.push((format!("k{i}"), 0));
    }
    assert_eq!(access.len(), TEXT_CACHE_CAP);
    assert_eq!(access[0], ("k8".to_string(), 0));
    assert!(access.contains(&("k1024".to_string(), 0)));
    assert_eq!(access.last(), Some(&("k1031".to_string(), 0)));
}

#[test]
fn touch_moves_to_the_end_and_keeps_the_rest() {
    let mut access: Vec<(String, u8)> = (0..4).map(|i| (format!("t{i}"), 1u8)).collect();
    lru_touch(&mut access, &("t1".to_string(), 1));
    let names: Vec<&str> = access.iter().map(|p| p.0.as_str()).collect();
    assert_eq!(names, vec!["t0", "t2", "t3", "t1"]);
    lru_touch(&mut access, &("absent".to_string(), 1));
    assert_eq!(access.len(), 4);
}

#[test]
fn cached_text_is_found_until_it_is_the_oldest() {
    let mut state = TextState::new();
    assert_eq!(state.len(), 0);
    assert!(matches!(state.lookup("12345", TextAnchor::TopLeft), Lookup::Digits));
    assert!(matches!(state.lookup("combo", TextAnchor::TopLeft), Lookup::Missing));
    assert_eq!(state.insert("combo", TextAnchor::TopLeft, 7), None);
    assert!(matches!(state.lookup("combo", TextAnchor::TopLeft), Lookup::Cached(7)));
    assert!(matches!(state.lookup("combo", TextAnchor::TopRight), Lookup::Missing));
    for i in 0..TEXT_CACHE_CAP - 1 {
        assert_eq!(state.insert(&format!("w{i}"), TextAnchor::World, 100 + i as u64), None);
    }
    assert_eq!(state.len(), TEXT_CACHE_CAP);
    assert!(matches!(state.lookup("combo", TextAnchor::TopLeft), Lookup::Cached(7)));
    assert_eq!(state.insert("last", TextAnchor::World, 1), Some(100));
    assert_eq!(state.len(), TEXT_CACHE_CAP);
    assert!(matches!(state.lookup("combo", TextAnchor::TopLeft), Lookup::Cached(7)));
    state.clear();
    assert_eq!(state.len(), 0);
}

#[test]
fn digits_are_told_from_other_text() {
    assert!(is_digits("0123456789"));
    assert!(!is_digits(""));
    assert!(!is_digits("12a"));
}

#[test]
fn anchors_have_numbers_and_sides() {
    let all = [
        TextAnchor::TopLeft,
        TextAnchor::TopCenter,
        TextAnchor::BottomLeft,
        TextAnchor::BottomRight,
        TextAnchor::TopRight,
        TextAnchor::TopRightEdge,
        TextAnchor::BottomLeftEdge,
        TextAnchor::BottomRightEdge,
        TextAnchor::ComboLabel,
        TextAnchor::World,
    ];
    for i in 0..all.len() {
        for j in 0..i {
            assert_ne!(all[i].code(), all[j].code());
        }
    }
    assert!(TextAnchor::TopRightEdge.is_viewport_edge());
    assert!(!TextAnchor::TopRight.is_viewport_edge());
    assert!(matches!(TextAnchor::TopLeft.layout().1, HAlign::Left));
    assert!(matches!(TextAnchor::TopCenter.layout().1, HAlign::Center));
    assert!(matches!(TextAnchor::TopRight.layout().1, HAlign::Right));
}

#[test]
fn fallback_font_only_where_it_helps() {
    assert!(matches!(choose_font(true, true), FontChoice::Main));
    assert!(matches!(choose_font(false, true), FontChoice::Fallback));
    assert!(matches!(choose_font(false, false), FontChoice::Main));
}

#[test]
fn glyphs_are_laid_over_a_line() {
    let a = Glyph { x: 0, y: 0, width: 2, height: 1, bitmap: vec![10, 20] };
    let b = Glyph { x: 1, y: 0, width: 2, height: 1, bitmap: vec![15, 30] };
    let out_of_line = Glyph { x: 5, y: 5, width: 1, height: 1, bitmap: vec![99] };
    let gray = blit_glyphs(&vec![a, b, out_of_line], 3, 1);
    assert_eq!(gray, vec![10, 20, 30]);
    let rgba = upload_gray_line(&gray, 3, 1);
    assert_eq!(rgba.len(), 12);
    assert_eq!(rgba[3], 10);
    assert_eq!(rgba[7], 20);
    assert_eq!(rgba[11], 30);
}

/// The smallest font: the three tables that every font has, one glyph without an outline, and a full
/// name where one is given.
fn small_font(full_name: Option<&[u8]>) -> Vec<u8> {
    let mut head = vec![0u8; 54];
    head[18] = 4;
    let hhea = vec![0u8; 36];
    let maxp = vec![0, 0, 0x50, 0, 0, 1];
    let mut tables: Vec<(&[u8; 4], Vec<u8>)> = vec![(b"head", head), (b"hhea", hhea), (b"maxp", maxp)];
    if let Some(name) = full_name {
        let mut table = vec![0, 0, 0, 1, 0, 18, 0, 3, 0, 1, 0, 0, 0, 4, 0, name.len() as u8, 0, 0];
        table.extend_from_slice(name);
        tables.push((b"name", table));
    }
    let mut out = vec![0, 1, 0, 0, 0, tables.len() as u8, 0, 0, 0, 0, 0, 0];
    let mut at = 12 + 16 * tables.len() as u32;
    for (tag, data) in &tables {
        out.extend_from_slice(*tag);
        out.extend_from_slice(&[0; 4]);
        out.extend_from_slice(&at.to_be_bytes());
        out.extend_from_slice(&(data.len() as u32).to_be_bytes());
        at += data.len() as u32;
    }
    for (_, data) in &tables {
        out.extend_from_slice(data);
    }
    out
}

#[test]
fn another_font_forgets_the_lines() {
    let mut r = Renderer::new(4, 4, false, false, false);
    assert!(r.fonts.main.is_none());
    assert_eq!(r.text.insert("line", TextAnchor::TopCenter, 7), None);
    assert!(!r.set_font(b"no font".to_vec()));
    assert!(r.fonts.main.is_none());
    assert_eq!(r.text.len(), 1);
    assert!(r.set_font(small_font(None)));
    assert!(matches!(r.fonts.main, Some(Some(_))));
    assert!(r.fonts.fallback.is_none());
    assert_eq!(r.text.len(), 0);
    assert!(matches!(r.text.lookup("line", TextAnchor::TopCenter), Lookup::Missing));
    let named = load_font(small_font(Some(&[0, b'E', 0, b'x', 0, b'o']))).unwrap();
    assert_eq!(named.font().name(), Some("Exo"));
}

#[test]
fn fonts_with_illegible_names_are_not_used() {
    let mut r = Renderer::new(4, 4, false, false, false);
    assert_eq!(r.text.insert("line", TextAnchor::TopCenter, 7), None);
    assert!(!r.set_font(small_font(Some(&[0, b'E', 0]))));
    assert!(!r.set_font(small_font(Some(&[0xD8, 0]))));
    assert_eq!(r.text.len(), 1);
    assert!(reads_as_utf16(&[]));
    assert!(reads_as_utf16(&[0xD8, 0x3D, 0xDE, 0]));
    assert!(!reads_as_utf16(&[0xD8, 0x3D, 0, b'a']));
    assert!(!reads_as_utf16(&[0xDC, 0]));
    let name = |id: u16, unicode: bool, text: &[u8]| FontName { id, unicode, text: text.to_vec() };
    assert!(legible(&vec![name(1, true, &[0]), name(4, false, &[0]), name(4, true, &[0, 65])]));
    assert!(legible(&vec![name(4, true, &[0, 65]), name(4, true, &[0])]));
    assert!(!legible(&vec![name(4, false, &[0, 65]), name(4, true, &[0])]));
}
