use rive2d::cipher::decrypt_lcg_xor;
use rive2d::container::{manifest_candidates, Container};
use rive2d::extract::{
    extract_encrypted_lpk, extract_lpk, extract_regular_lpk, find_model_json, renamed_entry,
    rewrite_references, ExtractError, Extraction, Package,
};
use rive2d::hash::{derive_key, java_hash_code};
use rive2d::manifest::{
    load_external_config, read_manifest, ExternalConfig, MlveCharacter, MlveCostume, MlveManifest,
};
use rive2d::names::manifest_hash;
use rive2d::table::Table;
use rive2d::window::PetWindowState;

const DESCRIPTOR_ENTRY: &str = "0123456789abcdef0123456789abcdef.bin3";
const TEXTURE_ENTRY: &str = "aaaaaaaaaaaaaaaaaaaaaaaaaaaaaaaa.bin";
const MOTION_ENTRY: &str = "bbbbbbbbbbbbbbbbbbbbbbbbbbbbbbbb.bin3";

fn manifest(format: &str, encrypt: &str, paths: &[&str]) -> MlveManifest {
    MlveManifest {
        format_type: Some(format.to_string()),
        encrypt: Some(encrypt.to_string()),
        id: Some("model-1".to_string()),
        name: Some("My Model!".to_string()),
        list: vec![MlveCharacter {
            avatar: String::new(),
            costume: paths
                .iter()
                .map(|p| MlveCostume { name: String::new(), path: p.to_string() })
                .collect(),
        }],
    }
}

fn container(entries: &[(&str, &[u8])]) -> Container {
    let mut container = Container::new();
    for (name, data) in entries {
        container.push(name.to_string(), Ok(data.to_vec()));
    }
    container
}

fn files_of(extraction: &Extraction) -> Vec<(String, Vec<u8>)> {
    extraction.files.rows.clone()
}

fn file<'a>(extraction: &'a Extraction, path: &str) -> Option<&'a Vec<u8>> {
    extraction.files.get(&path.to_string())
}

fn descriptor_text() -> Vec<u8> {
    format!(
        "{{\"FileReferences\":{{\"Textures\":[\"{}\"],\"Motions\":[\"{}\"]}}}}",
        TEXTURE_ENTRY, MOTION_ENTRY
    )
    .into_bytes()
}

#[test]
fn plain_package_is_copied() {
    let content = b"{\"Version\":3,\"FileReferences\":{}}";
    let package = container(&[("x.model3.json", content)]);
    let extraction = extract_lpk(&package, &Package::Plain).unwrap();
    assert!(extraction.descriptor.ends_with("x.model3.json"));
    assert_eq!(extraction.descriptor, "x.model3.json");
    assert_eq!(file(&extraction, &extraction.descriptor).unwrap().as_slice(), content);
    assert_eq!(files_of(&extraction), vec![("x.model3.json".to_string(), content.to_vec())]);
}

#[test]
fn plain_package_takes_the_first_descriptor() {
    let package = container(&[
        ("textures/a.png", &[0x89, 0x50, 0x4E, 0x47]),
        ("sub/legacy.model.json", b"{}"),
        ("other.model3.json", b"{}"),
    ]);
    let extraction = extract_regular_lpk(&package).unwrap();
    assert_eq!(extraction.descriptor, "sub/legacy.model.json");
    assert_eq!(extraction.files.len(), 3);
    assert_eq!(extraction.files.rows[0].0, "textures/a.png");
    assert_eq!(extraction.files.rows[0].1, vec![0x89, 0x50, 0x4E, 0x47]);
}

#[test]
fn plain_package_keeps_hashed_names_and_bytes() {
    let package = container(&[
        (TEXTURE_ENTRY, &[1, 2, 3]),
        ("config.mlve", b"not a manifest"),
        ("m.model.json", b"{}"),
    ]);
    let extraction = extract_lpk(&package, &Package::Plain).unwrap();
    assert_eq!(file(&extraction, TEXTURE_ENTRY).unwrap(), &vec![1, 2, 3]);
    assert_eq!(file(&extraction, "config.mlve").unwrap(), &b"not a manifest".to_vec());
}

#[test]
fn plain_package_without_descriptor_fails() {
    let package = container(&[("a.png", &[1]), ("model.json", b"{}")]);
    let error = extract_regular_lpk(&package).unwrap_err();
    assert!(matches!(error, ExtractError::NoDescriptor));
    assert_eq!(error.message(), "No .model3.json or .model.json found in archive");
    let empty = Container::new();
    assert!(matches!(extract_lpk(&empty, &Package::Plain), Err(ExtractError::NoDescriptor)));
}

#[test]
fn unreadable_entry_fails_the_extraction() {
    let mut package = container(&[("a.model3.json", b"{}")]);
    package.push("broken.png".to_string(), Err("Failed to read broken.png: bad".to_string()));
    package.push("later.png".to_string(), Err("later".to_string()));
    match extract_regular_lpk(&package) {
        Err(ExtractError::Io(message)) => assert_eq!(message, "Failed to read broken.png: bad"),
        other => panic!("unexpected result: {:?}", other),
    }
    let m = manifest("STD_2_0", "true", &[DESCRIPTOR_ENTRY]);
    match extract_encrypted_lpk(&package, &m, &ExternalConfig::empty()) {
        Err(error) => assert_eq!(error.message(), "Failed to read broken.png: bad"),
        other => panic!("unexpected result: {:?}", other),
    }
}

#[test]
fn duplicate_names_keep_the_last_bytes_in_the_first_place() {
    let package = container(&[("a.txt", b"one"), ("b.model.json", b"{}"), ("a.txt", b"two")]);
    let extraction = extract_regular_lpk(&package).unwrap();
    assert_eq!(
        files_of(&extraction),
        vec![
            ("a.txt".to_string(), b"two".to_vec()),
            ("b.model.json".to_string(), b"{}".to_vec())
        ]
    );
}

fn encrypted_package(m: &MlveManifest, sidecar: &ExternalConfig) -> Container {
    let stm = m.is_stm();
    let id = m.model_id();
    let png: Vec<u8> = vec![0x89, 0x50, 0x4E, 0x47, 0x0D, 0x0A, 0x1A, 0x0A, 7, 7];
    let motion = b"{\"Version\":3,\"Meta\":{}}".to_vec();
    let mut package = Container::new();
    package.push("config.mlve".to_string(), Ok(b"{\"type\":\"STD_2_0\"}".to_vec()));
    package.push(
        TEXTURE_ENTRY.to_string(),
        Ok(decrypt_lcg_xor(&png, derive_key(&id, sidecar, TEXTURE_ENTRY, stm))),
    );
    package.push(
        DESCRIPTOR_ENTRY.to_string(),
        Ok(decrypt_lcg_xor(&descriptor_text(), derive_key(&id, sidecar, DESCRIPTOR_ENTRY, stm))),
    );
    package.push(
        MOTION_ENTRY.to_string(),
        Ok(decrypt_lcg_xor(&motion, derive_key(&id, sidecar, MOTION_ENTRY, stm))),
    );
    package.push("readme.txt".to_string(), Ok(b"plain".to_vec()));
    package.push(format!("{}.bin", manifest_hash()), Ok(b"alias".to_vec()));
    package.push(manifest_hash(), Ok(b"alias".to_vec()));
    package
}

#[test]
fn encrypted_package_is_decrypted_and_resolved() {
    let m = manifest("STD_2_0", "true", &[DESCRIPTOR_ENTRY]);
    let sidecar = ExternalConfig::empty();
    let package = encrypted_package(&m, &sidecar);
    let extraction = extract_lpk(
        &package,
        &Package::Managed { manifest: m.clone(), sidecar: sidecar.clone() },
    )
    .unwrap();
    assert_eq!(extraction.descriptor, "My_Model_.model3.json");
    let expected_text = "{\"FileReferences\":{\"Textures\":[\"aaaaaaaaaaaaaaaaaaaaaaaaaaaaaaaa.png\"],\"Motions\":[\"bbbbbbbbbbbbbbbbbbbbbbbbbbbbbbbb.json\"]}}";
    assert_eq!(
        files_of(&extraction),
        vec![
            (
                "aaaaaaaaaaaaaaaaaaaaaaaaaaaaaaaa.png".to_string(),
                vec![0x89, 0x50, 0x4E, 0x47, 0x0D, 0x0A, 0x1A, 0x0A, 7, 7]
            ),
            (
                "bbbbbbbbbbbbbbbbbbbbbbbbbbbbbbbb.json".to_string(),
                b"{\"Version\":3,\"Meta\":{}}".to_vec()
            ),
            ("readme.txt".to_string(), b"plain".to_vec()),
            ("My_Model_.model3.json".to_string(), expected_text.as_bytes().to_vec()),
        ]
    );
    assert!(file(&extraction, "config.mlve").is_none());
    assert!(file(&extraction, "0123456789abcdef0123456789abcdef.json").is_none());
}

#[test]
fn minimal_encrypted_package() {
    let m = manifest("STD_1_0", "true", &[DESCRIPTOR_ENTRY]);
    let sidecar = ExternalConfig::empty();
    let text = b"{\"FileReferences\":{}}";
    let key = java_hash_code(&format!("model-1{}", DESCRIPTOR_ENTRY));
    let package = container(&[(DESCRIPTOR_ENTRY, &decrypt_lcg_xor(text, key))]);
    let extraction = extract_encrypted_lpk(&package, &m, &sidecar).unwrap();
    assert_eq!(extraction.descriptor, "My_Model_.model3.json");
    assert_eq!(files_of(&extraction), vec![("My_Model_.model3.json".to_string(), text.to_vec())]);
}

#[test]
fn sidecar_enters_the_key_of_the_stm_variant() {
    let m = manifest("STM_1_0", "true", &[DESCRIPTOR_ENTRY]);
    let sidecar = ExternalConfig { file_id: "file-9".to_string(), meta_data: "meta".to_string() };
    let package = encrypted_package(&m, &sidecar);
    let good = extract_encrypted_lpk(&package, &m, &sidecar).unwrap();
    assert_eq!(good.descriptor, "My_Model_.model3.json");
    assert!(file(&good, "aaaaaaaaaaaaaaaaaaaaaaaaaaaaaaaa.png").is_some());
    // Without the sidecar the keys are wrong and nothing is recognised.
    let degraded = extract_encrypted_lpk(&package, &m, &ExternalConfig::empty());
    match degraded {
        Ok(extraction) => assert!(file(&extraction, "aaaaaaaaaaaaaaaaaaaaaaaaaaaaaaaa.png").is_none()),
        Err(error) => assert!(matches!(error, ExtractError::Io(_))),
    }
    // A variant that is not STM ignores the sidecar.
    let std = manifest("STD_2_0", "true", &[DESCRIPTOR_ENTRY]);
    let std_package = encrypted_package(&std, &ExternalConfig::empty());
    let ignored = extract_encrypted_lpk(&std_package, &std, &sidecar).unwrap();
    assert_eq!(ignored.descriptor, "My_Model_.model3.json");
}

#[test]
fn unencrypted_manifest_package_is_renamed_only() {
    let m = manifest("STD_2_0", "false", &[DESCRIPTOR_ENTRY]);
    let text = format!("{{\"model\":\"x.moc\",\"textures\":[\"{}\"]}}", TEXTURE_ENTRY);
    let package = container(&[
        (DESCRIPTOR_ENTRY, text.as_bytes()),
        (TEXTURE_ENTRY, &[0xFF, 0xD8, 0xFF, 0xE0]),
    ]);
    let extraction = extract_encrypted_lpk(&package, &m, &ExternalConfig::empty()).unwrap();
    assert_eq!(extraction.descriptor, "My_Model_.model.json");
    assert_eq!(
        file(&extraction, "My_Model_.model.json").unwrap().as_slice(),
        b"{\"model\":\"x.moc\",\"textures\":[\"aaaaaaaaaaaaaaaaaaaaaaaaaaaaaaaa.jpg\"]}"
    );
    assert_eq!(
        file(&extraction, "aaaaaaaaaaaaaaaaaaaaaaaaaaaaaaaa.jpg").unwrap(),
        &vec![0xFF, 0xD8, 0xFF, 0xE0]
    );
}

#[test]
fn missing_model_name_defaults() {
    let mut m = manifest("STD_2_0", "false", &[DESCRIPTOR_ENTRY]);
    m.name = None;
    m.id = None;
    m.encrypt = None;
    m.format_type = None;
    assert!(!m.is_encrypted());
    assert!(!m.is_stm());
    assert_eq!(m.model_id(), "");
    let package = container(&[(DESCRIPTOR_ENTRY, b"{\"Version\": 3}")]);
    let extraction = extract_encrypted_lpk(&package, &m, &ExternalConfig::empty()).unwrap();
    assert_eq!(extraction.descriptor, "model.model3.json");
}

#[test]
fn descriptor_name_leads_into_no_directory() {
    let mut m = manifest("STD_2_0", "false", &[DESCRIPTOR_ENTRY]);
    m.name = Some("../up/My Model:1".to_string());
    let package = container(&[(DESCRIPTOR_ENTRY, b"{\"FileReferences\":{}}")]);
    let extraction = extract_encrypted_lpk(&package, &m, &ExternalConfig::empty()).unwrap();
    assert_eq!(extraction.descriptor, ".._up_My_Model_1.model3.json");
    assert!(!extraction.descriptor.contains('/'));
}

#[test]
fn first_resolving_costume_is_taken() {
    let m = MlveManifest {
        format_type: None,
        encrypt: None,
        id: None,
        name: Some("n".to_string()),
        list: vec![
            MlveCharacter { avatar: String::new(), costume: vec![] },
            MlveCharacter {
                avatar: String::new(),
                costume: vec![
                    MlveCostume { name: String::new(), path: "missing.bin3".to_string() },
                    MlveCostume { name: String::new(), path: MOTION_ENTRY.to_string() },
                ],
            },
            MlveCharacter {
                avatar: String::new(),
                costume: vec![MlveCostume {
                    name: String::new(),
                    path: DESCRIPTOR_ENTRY.to_string(),
                }],
            },
        ],
    };
    assert_eq!(m.costume_paths(), vec!["missing.bin3", MOTION_ENTRY, DESCRIPTOR_ENTRY]);
    let package = container(&[
        (DESCRIPTOR_ENTRY, b"{\"FileReferences\":{}}"),
        (MOTION_ENTRY, b"{\"model\":1}"),
    ]);
    let extraction = extract_encrypted_lpk(&package, &m, &ExternalConfig::empty()).unwrap();
    assert_eq!(extraction.descriptor, "n.model.json");
    assert_eq!(
        files_of(&extraction),
        vec![
            ("0123456789abcdef0123456789abcdef.json".to_string(), b"{\"FileReferences\":{}}".to_vec()),
            ("n.model.json".to_string(), b"{\"model\":1}".to_vec()),
        ]
    );
}

#[test]
fn no_resolving_costume_fails() {
    let m = manifest("STD_2_0", "false", &["readme.txt", "nothing.bin3"]);
    let package = container(&[("readme.txt", b"{}"), (TEXTURE_ENTRY, b"{}")]);
    let error = extract_encrypted_lpk(&package, &m, &ExternalConfig::empty()).unwrap_err();
    assert!(matches!(error, ExtractError::NoManagedDescriptor));
    assert_eq!(error.message(), "No model descriptor found in encrypted LPK");
}

#[test]
fn descriptor_that_is_no_text_fails() {
    let m = manifest("STD_2_0", "false", &[DESCRIPTOR_ENTRY]);
    let package = container(&[(DESCRIPTOR_ENTRY, &[0x00, 0xFF, 0xFE])]);
    match extract_encrypted_lpk(&package, &m, &ExternalConfig::empty()) {
        Err(ExtractError::Io(message)) => {
            assert_eq!(message, "stream did not contain valid UTF-8")
        }
        other => panic!("unexpected result: {:?}", other),
    }
}

#[test]
fn extraction_is_repeatable() {
    let m = manifest("STD_2_0", "true", &[DESCRIPTOR_ENTRY]);
    let sidecar = ExternalConfig::empty();
    let package = encrypted_package(&m, &sidecar);
    let first = extract_encrypted_lpk(&package, &m, &sidecar).unwrap();
    let second = extract_encrypted_lpk(&package, &m, &sidecar).unwrap();
    assert_eq!(first.descriptor, second.descriptor);
    assert_eq!(files_of(&first), files_of(&second));
    let plain = container(&[("x.model3.json", b"{}"), ("t.png", &[1, 2])]);
    let one = extract_regular_lpk(&plain).unwrap();
    let two = extract_regular_lpk(&plain).unwrap();
    assert_eq!(one.descriptor, two.descriptor);
    assert_eq!(files_of(&one), files_of(&two));
}

#[test]
fn renamed_entry_replaces_the_suffix() {
    assert_eq!(renamed_entry(DESCRIPTOR_ENTRY, "json"), "0123456789abcdef0123456789abcdef.json");
    assert_eq!(renamed_entry(TEXTURE_ENTRY, "png"), "aaaaaaaaaaaaaaaaaaaaaaaaaaaaaaaa.png");
    assert_eq!(renamed_entry("x.bin3", "bin"), "x.bin");
    assert_eq!(renamed_entry("plain", "bin"), "plain.bin");
}

#[test]
fn references_are_rewritten_in_order() {
    let mut renames: Table<String> = Table::new();
    renames.put("a.bin".to_string(), "a.png".to_string());
    renames.put("b.bin3".to_string(), "b.json".to_string());
    renames.put("a.png".to_string(), "c".to_string());
    assert_eq!(rewrite_references(b"a.bin b.bin3 a.bin", &renames), b"c b.json c");
    let none: Table<String> = Table::new();
    assert_eq!(rewrite_references(b"a.bin", &none), b"a.bin");
}

#[test]
fn find_model_json_takes_the_first_in_order() {
    let mut files: Table<Vec<u8>> = Table::new();
    assert_eq!(find_model_json(&files), None);
    files.put("a.json".to_string(), vec![]);
    assert_eq!(find_model_json(&files), None);
    files.put("d/b.model.json".to_string(), vec![]);
    files.put("a.model3.json".to_string(), vec![]);
    assert_eq!(find_model_json(&files), Some("d/b.model.json".to_string()));
}

#[test]
fn manifest_candidates_in_order() {
    let hash = manifest_hash();
    let mut package = Container::new();
    package.push(format!("{}.bin", hash), Ok(b"third".to_vec()));
    package.push("other".to_string(), Ok(b"x".to_vec()));
    package.push(hash.clone(), Ok(b"second".to_vec()));
    package.push("config.mlve".to_string(), Ok(b"first".to_vec()));
    assert_eq!(
        manifest_candidates(&package),
        vec![b"first".to_vec(), b"second".to_vec(), b"third".to_vec()]
    );
    let mut partial = Container::new();
    partial.push("config.mlve".to_string(), Err("unreadable".to_string()));
    partial.push(format!("{}.bin", hash), Ok(b"third".to_vec()));
    assert_eq!(manifest_candidates(&partial), vec![b"third".to_vec()]);
    assert_eq!(manifest_candidates(&Container::new()), Vec::<Vec<u8>>::new());
    assert_eq!(package.entry_names()[3], "config.mlve");
    assert_eq!(package.read_entry(&"other".to_string()), Some(&b"x".to_vec()));
    assert_eq!(package.read_entry(&"none".to_string()), None);
}

#[test]
fn first_parsed_manifest_is_read() {
    let a = manifest("A", "true", &[]);
    let b = manifest("B", "true", &[]);
    let found = read_manifest(vec![None, Some(a), Some(b)]).unwrap();
    assert_eq!(found.format_type.as_deref(), Some("A"));
    assert!(read_manifest(vec![None, None, None]).is_none());
    assert!(read_manifest(vec![]).is_none());
}

#[test]
fn sidecar_defaults_to_empty() {
    let loaded = ExternalConfig { file_id: "f".to_string(), meta_data: "m".to_string() };
    let kept = load_external_config(Some(loaded));
    assert_eq!((kept.file_id.as_str(), kept.meta_data.as_str()), ("f", "m"));
    let empty = load_external_config(None);
    assert_eq!((empty.file_id.as_str(), empty.meta_data.as_str()), ("", ""));
}

#[test]
fn package_is_selected_once() {
    let loaded = ExternalConfig { file_id: "f".to_string(), meta_data: "m".to_string() };
    assert!(matches!(Package::select(None, Some(loaded.clone())), Package::Plain));
    match Package::select(Some(manifest("STM_1_0", "true", &[])), Some(loaded.clone())) {
        Package::Managed { sidecar, .. } => assert_eq!(sidecar.file_id, "f"),
        Package::Plain => panic!("a manifest was given"),
    }
    match Package::select(Some(manifest("STM_1_0", "true", &[])), None) {
        Package::Managed { sidecar, .. } => assert_eq!(sidecar.file_id, ""),
        Package::Plain => panic!("a manifest was given"),
    }
    match Package::select(Some(manifest("STD_1_0", "true", &[])), Some(loaded)) {
        Package::Managed { sidecar, manifest } => {
            assert_eq!(sidecar.meta_data, "");
            assert!(manifest.is_encrypted());
            assert!(!manifest.is_stm());
        }
        Package::Plain => panic!("a manifest was given"),
    }
}

#[test]
fn table_keeps_the_place_of_a_name() {
    let mut table: Table<Vec<u8>> = Table::new();
    table.put("a".to_string(), vec![1]);
    table.put("b".to_string(), vec![2]);
    table.put("a".to_string(), vec![3]);
    assert_eq!(table.len(), 2);
    assert_eq!(table.key_at(0), "a");
    assert_eq!(table.value_at(0), &vec![3]);
    assert_eq!(table.position(&"b".to_string()), Some(1));
    assert_eq!(table.get(&"c".to_string()), None);
    table.remove(&"a".to_string());
    table.remove(&"zzz".to_string());
    assert_eq!(table.rows, vec![("b".to_string(), vec![2])]);
}

#[test]
fn window_is_set_up_once() {
    let mut state = PetWindowState::new();
    assert!(!state.initialized);
    assert!(state.begin_setup());
    assert!(state.initialized);
    assert!(!state.begin_setup());
    assert!(state.initialized);
}
