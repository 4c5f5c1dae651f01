use rive2d::cipher::decrypt_lcg_xor;
use rive2d::hash::{derive_key, java_hash_code};
use rive2d::manifest::ExternalConfig;
use rive2d::names::{
    hex_encode, is_hashed_entry, is_model_descriptor, manifest_hash, md5_hex, sanitize_filename,
};
use rive2d::sniff::{classify, detect_extension, AssetKind};
use rive2d::text::{bytes_contain, bytes_occur_at, replace_bytes};

#[test]
fn test_java_hash_code() {
    assert_eq!(java_hash_code(""), 0);
    assert_eq!(java_hash_code("hello"), 99162322);
    assert_eq!(java_hash_code("Hello"), 69609650);
}

#[test]
fn test_decrypt_roundtrip() {
    let original = b"Hello, Live2D!";
    let key = java_hash_code("test_key");
    let encrypted = decrypt_lcg_xor(original, key);
    let decrypted = decrypt_lcg_xor(&encrypted, key);
    assert_eq!(decrypted, original);
}

#[test]
fn test_md5_manifest_name() {
    let hash = format!("{:x}", md5::compute("config.mlve".as_bytes()));
    assert_eq!(hash, "1d862f7d02e6008f4550188a31ca654f");
    assert_eq!(manifest_hash(), "1d862f7d02e6008f4550188a31ca654f");
}

#[test]
fn test_is_hashed_entry() {
    assert!(is_hashed_entry("38ce3c662ee7afaaecb6be49ee76d171.bin3"));
    assert!(is_hashed_entry("c6f00db7036d812b27ba3b7f291412c5.bin"));
    assert!(!is_hashed_entry("4a301072dec6b6a49050e5b294cd7983")); // no extension
    assert!(!is_hashed_entry("config.mlve"));
    assert!(!is_hashed_entry("model.model3.json"));
}

#[test]
fn test_detect_extension() {
    assert_eq!(detect_extension(&[0x89, 0x50, 0x4E, 0x47, 0x00]), "png");
    assert_eq!(detect_extension(&[0x4D, 0x4F, 0x43, 0x33, 0x00]), "moc3");
    assert_eq!(detect_extension(b"{\"Version\":3}"), "json");
    assert_eq!(detect_extension(&[0x00, 0x01, 0x02, 0x03]), "bin");
}

#[test]
fn hash_counts_utf16_code_units() {
    // U+1F600 is the surrogate pair D83D DE00: 0xD83D * 31 + 0xDE00.
    assert_eq!(java_hash_code("\u{1F600}"), 55357 * 31 + 56832);
    // One unit below the surrogate range, one above it.
    assert_eq!(java_hash_code("\u{D7FF}"), 0xD7FF);
    assert_eq!(java_hash_code("\u{FFFF}"), 0xFFFF);
    assert_eq!(java_hash_code("ab"), 97 * 31 + 98);
}

#[test]
fn hash_wraps_and_sign_extends() {
    assert_eq!(java_hash_code("polygenelubricants"), -2147483648);
    let mut expected: i32 = 0;
    for unit in "The quick brown fox jumps over the lazy dog".encode_utf16() {
        expected = expected.wrapping_mul(31).wrapping_add(unit as i32);
    }
    assert_eq!(
        java_hash_code("The quick brown fox jumps over the lazy dog"),
        expected as i64
    );
}

#[test]
fn hash_differs_by_case() {
    assert_ne!(java_hash_code("hello"), java_hash_code("Hello"));
}

#[test]
fn derive_key_composes_its_material() {
    let sidecar = ExternalConfig { file_id: "F1".to_string(), meta_data: "M2".to_string() };
    assert_eq!(derive_key("id", &sidecar, "entry.bin", true), java_hash_code("idF1entry.binM2"));
    assert_eq!(derive_key("id", &sidecar, "entry.bin", false), java_hash_code("identry.bin"));
    let empty = ExternalConfig::empty();
    assert_eq!(derive_key("", &empty, "", true), 0);
    assert_eq!(derive_key("id", &empty, "e", true), java_hash_code("ide"));
}

fn reference_cipher(data: &[u8], key: i64, reset: bool) -> Vec<u8> {
    let mut out = Vec::new();
    let mut state = key;
    for (i, byte) in data.iter().enumerate() {
        if reset && i % 1024 == 0 {
            state = key;
        }
        state = (65535 & (2531011i64.wrapping_add(214013i64.wrapping_mul(state)) >> 16)) & 0xFFFFFFFF;
        out.push((state as u8) ^ byte);
    }
    out
}

#[test]
fn cipher_first_masks_are_exact() {
    // From key 0 the states are 38 and 162.
    assert_eq!(decrypt_lcg_xor(&[0, 0], 0), vec![38, 162]);
    assert_eq!(decrypt_lcg_xor(&[0xFF, 0x0F], 0), vec![0xFF ^ 38, 0x0F ^ 162]);
    // From key -1 the first state is 35.
    assert_eq!(decrypt_lcg_xor(&[0], -1), vec![35]);
    assert_eq!(decrypt_lcg_xor(&[], 7), Vec::<u8>::new());
}

#[test]
fn cipher_agrees_with_the_formula() {
    let data: Vec<u8> = (0..3000u32).map(|i| (i * 7 + 3) as u8).collect();
    for key in [0i64, 1, -1, 99162322, -2147483648, 2147483647, i64::MAX, i64::MIN, 1 << 40] {
        assert_eq!(decrypt_lcg_xor(&data, key), reference_cipher(&data, key, true));
    }
}

#[test]
fn cipher_restarts_at_every_chunk() {
    let key = java_hash_code("test_key");
    let data = vec![0u8; 2048];
    let out = decrypt_lcg_xor(&data, key);
    assert_eq!(out.len(), 2048);
    assert_eq!(&out[..1024], &out[1024..]);
    assert_ne!(out, reference_cipher(&data, key, false));
    assert_eq!(out[..1024], reference_cipher(&data, key, false)[..1024]);
}

#[test]
fn cipher_round_trip_over_chunks() {
    let data: Vec<u8> = (0..5000u32).map(|i| (i % 251) as u8).collect();
    for key in [0i64, -5, 123456789, i64::MIN] {
        let once = decrypt_lcg_xor(&data, key);
        assert_ne!(once, data);
        assert_eq!(decrypt_lcg_xor(&once, key), data);
    }
}

#[test]
fn cipher_transforms_chunks_apart() {
    let key = 4242;
    let head: Vec<u8> = (0..1024u32).map(|i| i as u8).collect();
    let tail: Vec<u8> = (0..100u32).map(|i| (i * 3) as u8).collect();
    let mut whole = head.clone();
    whole.extend_from_slice(&tail);
    let mut parts = decrypt_lcg_xor(&head, key);
    parts.extend(decrypt_lcg_xor(&tail, key));
    assert_eq!(decrypt_lcg_xor(&whole, key), parts);
}

#[test]
fn hashed_entry_shape() {
    assert!(is_hashed_entry("0123456789abcdef0123456789abcdef.bin3"));
    assert!(is_hashed_entry("ffffffffffffffffffffffffffffffff.bin"));
    // Capital digits are not taken.
    assert!(!is_hashed_entry("38CE3C662EE7AFAAECB6BE49EE76D171.bin3"));
    assert!(!is_hashed_entry("38ce3c662ee7AFAAecb6be49ee76d171.bin"));
    assert!(!is_hashed_entry("38ce3c662ee7afaaecb6be49ee76d171.BIN3"));
    assert!(!is_hashed_entry("38ce3c662ee7afaaecb6be49ee76d17.bin3")); // 31 digits
    assert!(!is_hashed_entry("38ce3c662ee7afaaecb6be49ee76d1711.bin3")); // 33 digits
    assert!(!is_hashed_entry("38ce3c662ee7afaaecb6be49ee76d17g.bin3")); // not a digit
    assert!(!is_hashed_entry("38ce3c662ee7afaaecb6be49ee76d171.bin4"));
    assert!(!is_hashed_entry("38ce3c662ee7afaaecb6be49ee76d171.png"));
    assert!(!is_hashed_entry("dir/38ce3c662ee7afaaecb6be49ee76d171.bin3"));
    assert!(!is_hashed_entry("38ce3c662ee7afaaecb6be49ee76d17\u{e9}.bin"));
    assert!(!is_hashed_entry(".bin3"));
    assert!(!is_hashed_entry(".bin"));
    assert!(!is_hashed_entry(""));
    assert!(!is_hashed_entry("x.model.json"));
    // The hashed manifest name with `.bin` has the shape of a hashed entry.
    assert!(is_hashed_entry(&format!("{}.bin", manifest_hash())));
}

#[test]
fn descriptor_names() {
    assert!(is_model_descriptor("x.model3.json"));
    assert!(is_model_descriptor("dir/sub/x.model.json"));
    assert!(is_model_descriptor(".model.json"));
    assert!(!is_model_descriptor("model.json"));
    assert!(!is_model_descriptor("x.model3.json/"));
    assert!(!is_model_descriptor("x.motion3.json"));
    assert!(!is_model_descriptor(""));
}

#[test]
fn extension_by_signature() {
    assert_eq!(detect_extension(&[0x89, 0x50, 0x4E, 0x47]), "png");
    assert_eq!(detect_extension(b"MOC3"), "moc3");
    assert_eq!(detect_extension(b"moc\x00\x01"), "moc");
    assert_eq!(detect_extension(b"RIFF\x24\x00"), "wav");
    assert_eq!(detect_extension(b"OggS\x00"), "ogg");
    assert_eq!(detect_extension(&[0xFF, 0xFB, 0x90, 0x00]), "mp3");
    assert_eq!(detect_extension(&[0xFF, 0xE0, 0x00, 0x00]), "mp3");
    assert_eq!(detect_extension(b"ID3\x04"), "mp3");
    assert_eq!(detect_extension(&[0xFF, 0xD8, 0xFF, 0xE0]), "jpg");
    assert_eq!(detect_extension(&[0xFF, 0xD8, 0x00, 0x00]), "bin");
    assert_eq!(classify(&[0x89, 0x50, 0x4E, 0x47]), AssetKind::Png);
    assert_eq!(AssetKind::Mtn.extension(), "mtn");
}

#[test]
fn extension_of_short_payloads() {
    assert_eq!(detect_extension(b"moc"), "moc");
    assert_eq!(detect_extension(b"ID3"), "mp3");
    assert_eq!(detect_extension(&[0xFF, 0xFB]), "mp3");
    assert_eq!(detect_extension(&[0xFF, 0xD8, 0xFF]), "jpg");
    assert_eq!(detect_extension(&[0x89, 0x50, 0x4E]), "bin");
    assert_eq!(detect_extension(&[0xFF]), "bin");
    assert_eq!(detect_extension(&[]), "bin");
}

#[test]
fn extension_of_text() {
    assert_eq!(detect_extension(b"{}"), "json");
    assert_eq!(detect_extension(b"[1, 2]"), "json");
    assert_eq!(detect_extension(b"  \r\n\t{\"a\": 1}"), "json");
    assert_eq!(detect_extension("\u{3000}\u{a0}\u{2003}[".as_bytes()), "json");
    assert_eq!(detect_extension(b"# Live2D Animator Motion Data"), "mtn");
    assert_eq!(detect_extension(b"\n# Live2D"), "mtn");
    assert_eq!(detect_extension(b"# Live2"), "bin");
    assert_eq!(detect_extension(b"hello"), "bin");
    assert_eq!(detect_extension(b"   "), "bin");
    assert_eq!(detect_extension(b"x{"), "bin");
    // A brace first, but no text: the payload is not valid UTF-8.
    assert_eq!(detect_extension(&[b'{', 0xC3, 0x28, b'}']), "bin");
    assert_eq!(detect_extension(&[b'{', 0xFF]), "bin");
    // U+200B is no white space.
    assert_eq!(detect_extension("\u{200B}{".as_bytes()), "bin");
}

#[test]
fn signatures_come_before_text() {
    // Valid UTF-8 all of them, and still classified by their first bytes.
    assert_eq!(detect_extension(b"moc{}"), "moc");
    assert_eq!(detect_extension(b"RIFF{}"), "wav");
    assert_eq!(detect_extension(b"MOC3 {"), "moc3");
}

#[test]
fn sanitize_keeps_safe_characters() {
    assert_eq!(sanitize_filename("model"), "model");
    assert_eq!(sanitize_filename("My Model!"), "My_Model_");
    assert_eq!(sanitize_filename("a-b_c.d"), "a-b_c.d");
    assert_eq!(sanitize_filename("a/b\\c:d"), "a_b_c_d");
    assert_eq!(sanitize_filename("\u{732b}\u{0663} x"), "\u{732b}\u{0663}_x");
    assert_eq!(sanitize_filename("\u{1F600}"), "_");
    assert_eq!(sanitize_filename(""), "");
}

#[test]
fn hex_is_lower_case_two_digits_a_byte() {
    assert_eq!(hex_encode(&[]), "");
    assert_eq!(hex_encode(&[0x00, 0x0f, 0xa0, 0xff, 0x1d]), "000fa0ff1d");
}

#[test]
fn md5_in_hexadecimal() {
    assert_eq!(md5_hex(b""), "d41d8cd98f00b204e9800998ecf8427e");
    assert_eq!(md5_hex(b"abcdefghijklmnopqrstuvwxyz"), "c3fcd3d76192e4007dfb496cca67e13b");
    assert_eq!(md5_hex(b"config.mlve"), manifest_hash());
}

#[test]
fn manifest_hash_is_not_its_input() {
    let hash = manifest_hash();
    assert_ne!(hash, "config.mlve");
    assert_eq!(hash.len(), 32);
    assert!(hash.chars().all(|c| c.is_ascii_digit() || ('a'..='f').contains(&c)));
}

#[test]
fn search_and_replace_bytes() {
    assert!(bytes_occur_at(b"abcabc", b"abc", 3));
    assert!(!bytes_occur_at(b"abcabc", b"abc", 4));
    assert!(!bytes_occur_at(b"abcabc", b"abc", 7));
    assert!(bytes_occur_at(b"abc", b"", 3));
    assert!(bytes_contain(b"xx\"Version\"yy", b"\"Version\""));
    assert!(!bytes_contain(b"Version", b"\"Version\""));
    assert!(bytes_contain(b"", b""));
    assert!(!bytes_contain(b"", b"a"));
    assert_eq!(replace_bytes(b"a.bin b.bin", b".bin", b".png"), b"a.png b.png");
    assert_eq!(replace_bytes(b"aaaa", b"aa", b"b"), b"bb");
    assert_eq!(replace_bytes(b"aaa", b"aa", b"b"), b"ba");
    assert_eq!(replace_bytes(b"abc", b"", b"x"), b"abc");
    assert_eq!(replace_bytes(b"abc", b"abcd", b"x"), b"abc");
    assert_eq!(replace_bytes(b"abc", b"abc", b""), b"");
    assert_eq!(replace_bytes(b"", b"a", b"b"), b"");
}
