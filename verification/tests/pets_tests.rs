use std::path::PathBuf;
use cursor_pet::pets::{
    builtin_pet_src, builtin_pets, check_sheet, chosen_pet_id, custom_pet_file, is_builtin,
    list_pets, manifest_file_name, manifest_is_valid, normalize_pet, pet_after_delete,
    pet_files_to_delete, pet_id_base, pet_id_candidate, pet_manifest, pet_manifest_file,
    png_data_url, png_stem, sanitize_pet_id, sheet_file_name, unique_pet_id,
};

fn sheet(w: u32, h: u32) -> Vec<u8> {
    let mut b = vec![0x89, b'P', b'N', b'G', 0x0d, 0x0a, 0x1a, 0x0a, 0, 0, 0, 13, b'I', b'H', b'D', b'R'];
    b.extend_from_slice(&w.to_be_bytes());
    b.extend_from_slice(&h.to_be_bytes());
    b.extend_from_slice(&[8, 6, 0, 0, 0]);
    b
}

fn nowhere() -> PathBuf {
    PathBuf::from("/no/such/cursor-pet/dir/for/tests")
}

#[test]
fn builtin_pets_are_the_bundled_five() {
    assert_eq!(builtin_pets(), vec!["classic", "dog", "maia", "tora", "vaporwave"]);
    assert!(is_builtin("classic") && is_builtin("vaporwave"));
    assert!(!is_builtin("Classic") && !is_builtin("") && !is_builtin("classic-2"));
}

#[test]
fn custom_ids_cannot_leave_the_folder() {
    assert_eq!(custom_pet_file("my-cat").as_deref(), Some("my-cat.png"));
    assert_eq!(custom_pet_file("a.b").as_deref(), Some("a.b.png"));
    assert_eq!(custom_pet_file(""), None);
    assert_eq!(custom_pet_file("../evil"), None);
    assert_eq!(custom_pet_file("a..b"), None);
    assert_eq!(custom_pet_file("a/b"), None);
    assert_eq!(custom_pet_file("a\\b"), None);
    assert_eq!(custom_pet_file("C:x"), None);
    assert_eq!(custom_pet_file("c:"), None);
}

#[test]
fn manifests() {
    assert_eq!(pet_manifest_file("mine").as_deref(), Some("mine.json"));
    assert_eq!(pet_manifest_file("classic"), None);
    assert_eq!(pet_manifest_file("x/../y"), None);
    assert_eq!(pet_manifest_file("D:evil"), None);
    assert_eq!(pet_manifest_file("").as_deref(), Some(".json"));
    assert_eq!(sheet_file_name("a"), "a.png");
    assert_eq!(manifest_file_name("a"), "a.json");
}

#[test]
fn builtin_sources() {
    assert_eq!(builtin_pet_src("dog").as_deref(), Some("sprites/oneko-dog.png"));
    assert_eq!(builtin_pet_src("mine"), None);
}

#[test]
fn sheet_checks() {
    assert_eq!(check_sheet(&sheet(256, 128)), Ok((256, 128)));
    assert_eq!(check_sheet(&sheet(4096, 4096)), Ok((4096, 4096)));
    assert_eq!(check_sheet(b"GIF89a not a png at all"), Err("That file isn't a valid PNG.".to_string()));
    assert_eq!(
        check_sheet(&sheet(255, 128)),
        Err("Sprite sheet must be an 8x4 grid of 32px tiles (≥256x128, sizes multiple of 32). Got 255x128.".to_string())
    );
    assert_eq!(
        check_sheet(&sheet(224, 128)),
        Err("Sprite sheet must be an 8x4 grid of 32px tiles (≥256x128, sizes multiple of 32). Got 224x128.".to_string())
    );
    assert_eq!(
        check_sheet(&sheet(256, 96)),
        Err("Sprite sheet must be an 8x4 grid of 32px tiles (≥256x128, sizes multiple of 32). Got 256x96.".to_string())
    );
    assert_eq!(
        check_sheet(&sheet(4128, 128)),
        Err("Sprite sheet is too large (4128x128); max 4096x4096.".to_string())
    );
    assert_eq!(
        check_sheet(&sheet(256, 8192)),
        Err("Sprite sheet is too large (256x8192); max 4096x4096.".to_string())
    );
}

#[test]
fn id_bases_from_file_names() {
    assert_eq!(pet_id_base(Some("My Cat!")), "my-cat");
    assert_eq!(pet_id_base(Some("ABC")), "abc");
    assert_eq!(pet_id_base(Some("--x--")), "x");
    assert_eq!(pet_id_base(Some("!!!")), "pet");
    assert_eq!(pet_id_base(Some("")), "pet");
    assert_eq!(pet_id_base(None), "pet");
    assert_eq!(pet_id_base(Some("Ünïcode")), "n-code");
    assert_eq!(pet_id_base(Some("\u{212A}itty")), "kitty");
    assert_eq!(sanitize_pet_id("a b.c"), "a-b-c");
    assert_eq!(sanitize_pet_id("ABC"), "ABC");
}

#[test]
fn id_candidates() {
    assert_eq!(pet_id_candidate("cat", 0), "cat");
    assert_eq!(pet_id_candidate("cat", 1), "cat");
    assert_eq!(pet_id_candidate("cat", 2), "cat-2");
    assert_eq!(pet_id_candidate("cat", 17), "cat-17");
}

#[test]
fn unique_ids_avoid_bundled_pets() {
    assert_eq!(unique_pet_id(&nowhere(), Some("Fluffy")), "fluffy");
    assert_eq!(unique_pet_id(&nowhere(), Some("Classic")), "classic-2");
    assert_eq!(unique_pet_id(&nowhere(), Some("dog")), "dog-2");
    assert_eq!(unique_pet_id(&nowhere(), None), "pet");
}

#[test]
fn imported_ids_can_be_deleted() {
    for stem in ["Classic", "My Cat", "../..", "x"] {
        let id = unique_pet_id(&nowhere(), Some(stem));
        assert!(pet_files_to_delete(&id).is_ok(), "{}", id);
        assert!(custom_pet_file(&id).is_some());
        assert_eq!(pet_manifest_file(&id), Some(manifest_file_name(&id)));
    }
}

#[test]
fn data_urls() {
    assert_eq!(png_data_url(&[0x89, b'P', b'N', b'G']), "data:image/png;base64,iVBORw==");
    assert_eq!(png_data_url(&[]), "data:image/png;base64,");
    assert_eq!(png_data_url(b"abc"), "data:image/png;base64,YWJj");
    assert_eq!(png_data_url(b"hello world~"), "data:image/png;base64,aGVsbG8gd29ybGR+");
    assert_eq!(png_data_url(&[0xfb, 0xff]), "data:image/png;base64,+/8=");
    assert_eq!(png_data_url(&[0, 16, 131]), "data:image/png;base64,ABCD");
}

#[test]
fn manifest_json() {
    assert!(manifest_is_valid(br#"{"tile": 32, "states": {"idle": [[3, 3]]}}"#));
    assert!(manifest_is_valid(b"[]"));
    assert!(!manifest_is_valid(b"{"));
    assert!(!manifest_is_valid(b""));
}

#[test]
fn pet_list() {
    let custom = vec!["zeta".to_string(), "alpha".to_string(), "Beta".to_string()];
    let list = list_pets(custom);
    let ids: Vec<&str> = list.iter().map(|p| p.id.as_str()).collect();
    assert_eq!(ids, vec!["classic", "dog", "maia", "tora", "vaporwave", "Beta", "alpha", "zeta"]);
    let flags: Vec<bool> = list.iter().map(|p| p.builtin).collect();
    assert_eq!(flags, vec![true, true, true, true, true, false, false, false]);
    assert_eq!(list_pets(Vec::new()).len(), 5);
}

#[test]
fn deleting() {
    assert_eq!(
        pet_files_to_delete("classic").err().as_deref(),
        Some("Built-in pets can't be deleted.")
    );
    assert_eq!(pet_files_to_delete("../x").err().as_deref(), Some("invalid pet id"));
    assert_eq!(pet_files_to_delete("").err().as_deref(), Some("invalid pet id"));
    let (sheet, manifest) = pet_files_to_delete("mine").unwrap();
    assert_eq!(sheet, "mine.png");
    assert_eq!(manifest, "mine.json");
}

#[test]
fn selection_after_delete() {
    assert_eq!(pet_after_delete("mine", "mine").as_deref(), Some("classic"));
    assert_eq!(pet_after_delete("dog", "mine"), None);
}

#[test]
fn pet_names_are_normalized() {
    assert_eq!(normalize_pet(""), "classic");
    assert_eq!(normalize_pet(" \t\n"), "classic");
    assert_eq!(normalize_pet(" x "), " x ");
    assert_eq!(normalize_pet("dog"), "dog");
    assert_eq!(normalize_pet(&normalize_pet("\u{3000}")), "classic");
}

#[test]
fn unique_ids_from_file_stems() {
    assert_eq!(unique_pet_id(&nowhere(), Some("My Cat!")), "my-cat");
    assert_eq!(unique_pet_id(&nowhere(), Some("__")), "pet");
    assert_eq!(unique_pet_id(&nowhere(), Some("vaporwave")), "vaporwave-2");
}

#[test]
fn chosen_id_is_the_first_free_candidate() {
    assert_eq!(chosen_pet_id("cat", &vec![]), "cat");
    assert_eq!(chosen_pet_id("cat", &vec![false]), "cat");
    assert_eq!(chosen_pet_id("cat", &vec![true]), "cat-2");
    assert_eq!(chosen_pet_id("cat", &vec![true, true, false]), "cat-3");
    assert_eq!(chosen_pet_id("cat", &vec![true, false, true]), "cat-2");
    assert_eq!(chosen_pet_id("cat", &vec![true, true, true]), "cat-4");
    assert_eq!(chosen_pet_id("classic", &vec![]), "classic-2");
    assert_eq!(chosen_pet_id("classic", &vec![false, true]), "classic-3");
    assert_eq!(chosen_pet_id("dog", &vec![true]), "dog-2");
}

#[test]
fn manifests_parse_only_for_custom_pets() {
    let text = r#"{"tile": 32, "states": {"idle": [[3, 3]]}}"#;
    let expected: serde_json::Value = serde_json::from_str(text).unwrap();
    assert_eq!(pet_manifest("mine", Some(text)), Some(expected));
    assert_eq!(pet_manifest("mine", Some("{")), None);
    assert_eq!(pet_manifest("mine", None), None);
    assert_eq!(pet_manifest("classic", Some(text)), None);
    assert_eq!(pet_manifest("../x", Some(text)), None);
}

#[test]
fn png_stems() {
    assert_eq!(png_stem("cat.png").as_deref(), Some("cat"));
    assert_eq!(png_stem("a.b.png").as_deref(), Some("a.b"));
    assert_eq!(png_stem("cat.PNG"), None);
    assert_eq!(png_stem("cat.json"), None);
    assert_eq!(png_stem(".png"), None);
    assert_eq!(png_stem("png"), None);
    assert_eq!(png_stem(".."), None);
    assert_eq!(png_stem("..png").as_deref(), Some("."));
    assert_eq!(png_stem("x.").as_deref(), None);
    for name in ["cat.png", "a.b.png", ".png", "x.", "..png", "a..png", ".x.png", "plain"] {
        let p = std::path::Path::new(name);
        let expected = if p.extension().and_then(|e| e.to_str()) == Some("png") {
            p.file_stem().and_then(|s| s.to_str()).map(String::from)
        } else {
            None
        };
        assert_eq!(png_stem(name), expected, "{}", name);
    }
}
