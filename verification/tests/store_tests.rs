use palette_favorites::FavoritesError;
use palette_favorites::identity::Identity;
use palette_favorites::store::FavoritesStore;

fn ident(b: u8) -> Identity {
    Identity::new(vec![b])
}

fn strings(v: &[&str]) -> Vec<String> {
    v.iter().map(|s| s.to_string()).collect()
}

#[test]
fn add_palette_then_get_palettes_normalizes() {
    let mut s = FavoritesStore::new();
    let id = ident(1);
    let r = s.add_palette(&id, "Sunset".to_string(), strings(&["ff0000", "00ff00"]));
    assert!(r.is_ok());
    let got = s.get_palettes(&id);
    assert_eq!(got.len(), 1);
    assert_eq!(got[0].title, "Sunset");
    assert_eq!(got[0].colors, strings(&["FF0000", "00FF00"]));
}

#[test]
fn add_palette_exactly_one_match() {
    let mut s = FavoritesStore::new();
    let id = ident(1);
    s.add_palette(&id, "A".to_string(), strings(&["111111"])).unwrap();
    s.add_palette(&id, "B".to_string(), strings(&["aabbcc", "ddeeff"])).unwrap();
    s.add_palette(&id, "C".to_string(), strings(&["222222"])).unwrap();
    let got = s.get_palettes(&id);
    let matching = got
        .iter()
        .filter(|p| p.colors == strings(&["AABBCC", "DDEEFF"]))
        .count();
    assert_eq!(matching, 1);
}

#[test]
fn duplicate_palette_rejected_and_store_unchanged() {
    let mut s = FavoritesStore::new();
    let id = ident(1);
    s.add_palette(&id, "One".to_string(), strings(&["ff0000", "00ff00"])).unwrap();
    let before: Vec<_> = s.get_palettes(&id).iter().map(|p| p.title.clone()).collect();
    let r = s.add_palette(&id, "Two".to_string(), strings(&["FF0000", "00FF00"]));
    assert_eq!(r, Err(FavoritesError::DuplicateEntry));
    let after: Vec<_> = s.get_palettes(&id).iter().map(|p| p.title.clone()).collect();
    assert_eq!(before, after);
    assert_eq!(s.get_palettes(&id).len(), 1);
}

#[test]
fn sixteenth_palette_hits_quota() {
    let mut s = FavoritesStore::new();
    let id = ident(1);
    for i in 0..15u32 {
        let code = format!("{:06X}", i);
        s.add_palette(&id, format!("p{}", i), vec![code]).unwrap();
    }
    assert_eq!(s.get_palettes(&id).len(), 15);
    let r = s.add_palette(&id, "extra".to_string(), strings(&["FFFFFF"]));
    assert_eq!(r, Err(FavoritesError::QuotaExceeded));
    assert_eq!(s.get_palettes(&id).len(), 15);
}

#[test]
fn delete_palette_miss_and_hit() {
    let mut s = FavoritesStore::new();
    let id = ident(1);
    s.add_palette(&id, "Keep".to_string(), strings(&["111111"])).unwrap();
    s.add_palette(&id, "Drop".to_string(), strings(&["222222"])).unwrap();
    assert!(!s.delete_palette(&id, strings(&["333333"])));
    assert_eq!(s.get_palettes(&id).len(), 2);
    assert!(s.delete_palette(&id, strings(&["222222"])));
    let got = s.get_palettes(&id);
    assert_eq!(got.len(), 1);
    assert_eq!(got[0].title, "Keep");
}

#[test]
fn delete_palette_is_case_insensitive() {
    let mut s = FavoritesStore::new();
    let id = ident(1);
    s.add_palette(&id, "Mix".to_string(), strings(&["aAbBcC"])).unwrap();
    assert!(s.delete_palette(&id, strings(&["AabbCc"])));
    assert!(s.get_palettes(&id).is_empty());
}

#[test]
fn delete_palette_on_empty_identity_is_false() {
    let mut s = FavoritesStore::new();
    let id = ident(9);
    assert!(!s.delete_palette(&id, strings(&["112233"])));
}

#[test]
fn update_palette_title_idempotent_and_targeted() {
    let mut s = FavoritesStore::new();
    let id = ident(1);
    s.add_palette(&id, "First".to_string(), strings(&["111111"])).unwrap();
    s.add_palette(&id, "Second".to_string(), strings(&["222222"])).unwrap();
    assert!(s.update_palette_title(&id, strings(&["222222"]), "Renamed".to_string()));
    let once = s.get_palettes(&id);
    assert!(s.update_palette_title(&id, strings(&["222222"]), "Renamed".to_string()));
    let twice = s.get_palettes(&id);
    assert_eq!(once.len(), twice.len());
    for (a, b) in once.iter().zip(twice.iter()) {
        assert_eq!(a.title, b.title);
        assert_eq!(a.colors, b.colors);
    }
    assert_eq!(twice[0].title, "First");
    assert_eq!(twice[1].title, "Renamed");
    assert_eq!(twice[1].colors, strings(&["222222"]));
}

#[test]
fn update_palette_title_miss_returns_false() {
    let mut s = FavoritesStore::new();
    let id = ident(1);
    s.add_palette(&id, "Only".to_string(), strings(&["111111"])).unwrap();
    assert!(!s.update_palette_title(&id, strings(&["999999"]), "New".to_string()));
    assert_eq!(s.get_palettes(&id)[0].title, "Only");
}

#[test]
fn identities_are_independent() {
    let mut s = FavoritesStore::new();
    let a = ident(1);
    let b = ident(2);
    s.add_palette(&a, "Mine".to_string(), strings(&["111111"])).unwrap();
    assert!(s.get_palettes(&b).is_empty());
    s.add_palette(&b, "Yours".to_string(), strings(&["111111"])).unwrap();
    assert!(s.delete_palette(&a, strings(&["111111"])));
    assert_eq!(s.get_palettes(&b).len(), 1);
    assert!(s.get_palettes(&a).is_empty());
}

#[test]
fn add_color_duplicate_case_insensitive() {
    let mut s = FavoritesStore::new();
    let id = ident(1);
    assert!(s.add_color(&id, "aabbcc".to_string()).is_ok());
    let r = s.add_color(&id, "AABBCC".to_string());
    assert_eq!(r, Err(FavoritesError::DuplicateEntry));
    assert_eq!(s.get_colors(&id).len(), 1);
}

#[test]
fn add_color_defaults_title_and_uppercases() {
    let mut s = FavoritesStore::new();
    let id = ident(1);
    s.add_color(&id, "a1b2c3".to_string()).unwrap();
    let got = s.get_colors(&id);
    assert_eq!(got.len(), 1);
    assert_eq!(got[0].hex_code, "A1B2C3");
    assert_eq!(got[0].title, "Untitled");
}

#[test]
fn fifty_first_color_hits_quota() {
    let mut s = FavoritesStore::new();
    let id = ident(1);
    for i in 0..50u32 {
        let code = format!("{:06X}", i);
        s.add_color(&id, code).unwrap();
    }
    assert_eq!(s.get_colors(&id).len(), 50);
    let r = s.add_color(&id, "FFFFFF".to_string());
    assert_eq!(r, Err(FavoritesError::QuotaExceeded));
    assert_eq!(s.get_colors(&id).len(), 50);
}

#[test]
fn delete_color_on_empty_identity_is_false() {
    let mut s = FavoritesStore::new();
    let id = ident(3);
    assert!(!s.delete_color(&id, "112233".to_string()));
}

#[test]
fn delete_color_hit_removes_exactly_that_color() {
    let mut s = FavoritesStore::new();
    let id = ident(1);
    s.add_color(&id, "111111".to_string()).unwrap();
    s.add_color(&id, "222222".to_string()).unwrap();
    s.add_color(&id, "333333".to_string()).unwrap();
    assert!(s.delete_color(&id, "222222".to_string()));
    let got = s.get_colors(&id);
    assert_eq!(got.len(), 2);
    assert_eq!(got[0].hex_code, "111111");
    assert_eq!(got[1].hex_code, "333333");
}

#[test]
fn update_color_title_idempotent_and_keeps_code() {
    let mut s = FavoritesStore::new();
    let id = ident(1);
    s.add_color(&id, "abcdef".to_string()).unwrap();
    assert!(s.update_color_title(&id, "ABCDEF".to_string(), "Sky".to_string()));
    let once = s.get_colors(&id);
    assert!(s.update_color_title(&id, "ABCDEF".to_string(), "Sky".to_string()));
    let twice = s.get_colors(&id);
    assert_eq!(once.len(), twice.len());
    for (a, b) in once.iter().zip(twice.iter()) {
        assert_eq!(a.title, b.title);
        assert_eq!(a.hex_code, b.hex_code);
    }
    assert_eq!(twice[0].hex_code, "ABCDEF");
    assert_eq!(twice[0].title, "Sky");
}

#[test]
fn update_color_title_miss_returns_false() {
    let mut s = FavoritesStore::new();
    let id = ident(1);
    assert!(!s.update_color_title(&id, "123456".to_string(), "Name".to_string()));
}
