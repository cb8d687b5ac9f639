use pxo::error::PxoError;
use pxo::json::parse_json;
use pxo::meta::parse_meta;

const DOC: &str = "{\"size_x\": 3, \"size_y\": 5, \"fps\": 12.5, \
    \"frames\": [{\"duration\": 0.25, \"cels\": [{\"opacity\": 0.75}, {\"opacity\": 1}]}, \
    {\"duration\": 0.5, \"cels\": [{\"opacity\": 1.0}, {\"opacity\": 0.0}]}], \
    \"layers\": [{\"name\": \"bg\", \"visible\": true}, {\"name\": \"fg\", \"visible\": false}], \
    \"tags\": [{\"name\": \"loop\", \"from\": 0, \"to\": 1}]}";

#[test]
fn parse_meta_maps_all_fields() {
    let tree = parse_json(DOC).unwrap();
    let meta = parse_meta(&tree).unwrap();
    assert_eq!(meta.width, 3);
    assert_eq!(meta.height, 5);
    assert_eq!(meta.fps, 12.5f64.to_bits());
    assert_eq!(meta.frames.len(), 2);
    assert_eq!(meta.frames[0].duration, 0.25f64.to_bits());
    assert_eq!(meta.frames[0].cels[0].opacity, 0.75f64.to_bits());
    assert_eq!(meta.frames[0].cels[1].opacity, 1.0f64.to_bits());
    // Image indices count cels frame-major, in cel order.
    assert_eq!(meta.frames[0].cels[0].image_index, 0);
    assert_eq!(meta.frames[0].cels[1].image_index, 1);
    assert_eq!(meta.frames[1].cels[0].image_index, 2);
    assert_eq!(meta.frames[1].cels[1].image_index, 3);
    assert_eq!(meta.layers.len(), 2);
    assert_eq!(meta.layers[0].name, "bg");
    assert!(meta.layers[0].visible);
    assert_eq!(meta.layers[1].name, "fg");
    assert!(!meta.layers[1].visible);
    assert_eq!(meta.tags.len(), 1);
    assert_eq!(meta.tags[0].name, "loop");
    assert_eq!(meta.tags[0].from, 0);
    assert_eq!(meta.tags[0].to, 1);
}

#[test]
fn missing_key_fails_whole_parse() {
    for key in ["size_x", "size_y", "fps", "frames", "layers", "tags"] {
        let needle = format!("\"{}\"", key);
        let broken = DOC.replacen(&needle, &format!("\"{}_gone\"", key), 1);
        let tree = parse_json(&broken).unwrap();
        assert!(
            matches!(parse_meta(&tree), Err(PxoError::UnexpectedJson)),
            "parse should fail without {}",
            key
        );
    }
}

#[test]
fn wrong_type_fails_whole_parse() {
    let broken = DOC.replacen("{\"name\": \"bg\", \"visible\": true}", "{\"name\": 3, \"visible\": true}", 1);
    let tree = parse_json(&broken).unwrap();
    assert!(matches!(parse_meta(&tree), Err(PxoError::UnexpectedJson)));
}

#[test]
fn non_object_document_fails() {
    let tree = parse_json("[1, 2, 3]").unwrap();
    assert!(matches!(parse_meta(&tree), Err(PxoError::UnexpectedJson)));
}

#[test]
fn malformed_text_fails_parse_json() {
    assert!(matches!(parse_json("{\"a\": "), Err(PxoError::ReadJson)));
}

#[test]
fn size_fields_are_narrowed() {
    let doc = "{\"size_x\": 4294967298, \"size_y\": 1, \"fps\": 1, \
        \"frames\": [], \"layers\": [], \"tags\": []}";
    let tree = parse_json(doc).unwrap();
    let meta = parse_meta(&tree).unwrap();
    // 2^32 + 2 narrows to its low 32 bits.
    assert_eq!(meta.width, 2);
}
