use ollama_file_find::models::{LayerInfo, ListedModel, ManifestData, ModelId};
use ollama_file_find::{
    build_blob_infos, build_blob_path_info, build_listed_model, compute_total_size,
    digest_to_blob_path, gather_blob_info, manifest_to_layers,
};

#[test]
pub fn test_digest_to_blob_path() {
    let p = digest_to_blob_path("/tmp/blobs", "sha256:1234abcd");
    assert_eq!(p, "/tmp/blobs/sha256-1234abcd");
}

#[test]
pub fn lib_test_digest_to_blob_path() {
    let p = digest_to_blob_path("/tmp/blobs", "sha256:1234abcd");
    assert_eq!(p, "/tmp/blobs/sha256-1234abcd");
}

#[test]
fn unrecognized_scheme_falls_back_to_colon_replacement() {
    assert_eq!(digest_to_blob_path("/r", "crc32:abcd"), "/r/crc32-abcd");
    assert_eq!(digest_to_blob_path("/r", "a:b:c"), "/r/a-b-c");
    assert_eq!(digest_to_blob_path("/r", "plain"), "/r/plain");
}

fn layer(digest: &str, size: Option<u64>) -> LayerInfo {
    LayerInfo {
        digest: digest.to_string(),
        media_type: "application/vnd.ollama.image.model".to_string(),
        size,
    }
}

#[test]
fn primary_is_largest_declared_size() {
    let layers = vec![
        layer("sha256:a", Some(10)),
        layer("sha256:b", Some(50)),
        layer("sha256:c", Some(30)),
    ];
    let actual = vec![None, None, None];
    let (primary, infos) = build_blob_infos(&layers, None, "/r", &actual);
    assert_eq!(primary.as_deref(), Some("sha256:b"));
    assert_eq!(infos.len(), 3);
    assert!(infos.iter().all(|b| !b.primary));
}

#[test]
fn primary_falls_back_to_config_without_declared_sizes() {
    let layers = vec![layer("sha256:a", None), layer("sha256:b", None)];
    let config = layer("sha256:cfg", None);
    let actual = vec![None, None, None];
    let (primary, infos) = build_blob_infos(&layers, Some(&config), "/r", &actual);
    assert_eq!(primary.as_deref(), Some("sha256:cfg"));
    assert_eq!(infos.len(), 3);
    assert_eq!(infos[2].digest, "sha256:cfg");
}

#[test]
fn no_primary_without_sizes_or_config() {
    let layers = vec![layer("sha256:a", None)];
    let actual = vec![None];
    let (primary, _) = build_blob_infos(&layers, None, "/r", &actual);
    assert!(primary.is_none());
}

#[test]
fn primary_ties_keep_the_earliest() {
    let layers = vec![
        layer("sha256:a", Some(50)),
        layer("sha256:b", Some(50)),
        layer("sha256:c", Some(10)),
    ];
    let actual = vec![None, None, None];
    let (primary, _) = build_blob_infos(&layers, None, "/r", &actual);
    assert_eq!(primary.as_deref(), Some("sha256:a"));
}

#[test]
fn size_ok_is_none_when_either_size_is_unknown() {
    let missing = build_blob_path_info(&layer("sha256:a", Some(10)), "/r", None);
    assert!(!missing.exists);
    assert_eq!(missing.actual_size, None);
    assert_eq!(missing.size_ok, None);

    let undeclared = build_blob_path_info(&layer("sha256:a", None), "/r", Some(10));
    assert!(undeclared.exists);
    assert_eq!(undeclared.actual_size, Some(10));
    assert_eq!(undeclared.size_ok, None);
}

#[test]
fn size_ok_reports_disagreement_even_when_the_file_exists() {
    let b = build_blob_path_info(&layer("sha256:a", Some(10)), "/r", Some(11));
    assert!(b.exists);
    assert_eq!(b.size_ok, Some(false));
    let ok = build_blob_path_info(&layer("sha256:a", Some(10)), "/r", Some(10));
    assert_eq!(ok.size_ok, Some(true));
    assert_eq!(ok.path, "/r/sha256-a");
}

#[test]
fn total_size_sums_layers_and_config() {
    let layers = vec![
        layer("sha256:a", Some(10)),
        layer("sha256:b", None),
        layer("sha256:c", Some(30)),
    ];
    let config = layer("sha256:cfg", Some(5));
    assert_eq!(compute_total_size(&layers, Some(&config)), Some(45));
    assert_eq!(compute_total_size(&layers, None), Some(40));
}

#[test]
fn total_size_is_none_without_declared_sizes() {
    let layers = vec![layer("sha256:a", None)];
    let config = layer("sha256:cfg", None);
    assert_eq!(compute_total_size(&layers, Some(&config)), None);
    assert_eq!(compute_total_size(&vec![], None), None);
}

#[test]
fn marking_is_keyed_by_digest_not_by_index() {
    // Two records share the primary digest: both are marked.
    let layers = vec![
        layer("sha256:dup", Some(50)),
        layer("sha256:other", Some(10)),
        layer("sha256:dup", Some(1)),
    ];
    let actual = vec![None, None, None];
    let (primary_path, infos) = gather_blob_info(&layers, None, "/r", &actual);
    assert_eq!(primary_path.as_deref(), Some("/r/sha256-dup"));
    assert!(infos[0].primary);
    assert!(!infos[1].primary);
    assert!(infos[2].primary);
}

#[test]
fn manifest_to_layers_copies_records() {
    let manifest = ManifestData {
        layers: vec![layer("sha256:a", Some(10)), layer("sha256:b", None)],
        config: Some(layer("sha256:cfg", Some(3))),
    };
    let (layers, config) = manifest_to_layers(&manifest);
    assert_eq!(layers.len(), 2);
    assert_eq!(layers[0].digest, "sha256:a");
    assert_eq!(layers[1].size, None);
    assert_eq!(config.unwrap().digest, "sha256:cfg");
}

#[test]
fn verbose_listing_marks_the_primary_record() {
    let id = ModelId {
        host: None,
        namespace: Some("library".to_string()),
        model: "phi4".to_string(),
        tag: "latest".to_string(),
    };
    let manifest = ManifestData {
        layers: vec![layer("sha256:a", Some(10)), layer("sha256:b", Some(50))],
        config: Some(layer("sha256:cfg", Some(1))),
    };
    let actual = vec![Some(10), Some(49), None];
    let m = ListedModel::new(id, "/m/phi4/latest".to_string()).into_verbose(
        manifest,
        "/blobs",
        Some(1700000000),
        &actual,
    );
    assert_eq!(m.name, "phi4:latest");
    assert_eq!(m.total_size, Some(61));
    assert_eq!(m.mtime, Some(1700000000));
    assert_eq!(m.primary_blob_path.as_deref(), Some("/blobs/sha256-b"));
    let infos = m.blob_paths.unwrap();
    assert_eq!(infos.len(), 3);
    assert!(!infos[0].primary);
    assert!(infos[1].primary);
    assert!(!infos[2].primary);
    assert_eq!(infos[1].size_ok, Some(false));
    assert_eq!(infos[2].exists, false);
}

#[test]
fn build_listed_model_without_flags_has_no_detail() {
    let layers = vec![layer("sha256:a", Some(10))];
    let actual: Vec<Option<u64>> = vec![];
    let m = build_listed_model(
        None,
        Some("library".to_string()),
        "phi4".to_string(),
        "latest".to_string(),
        "/m/p",
        layers,
        None,
        false,
        "/blobs",
        false,
        None,
        &actual,
    );
    assert_eq!(m.name, "phi4:latest");
    assert!(m.layers.is_none());
    assert!(m.total_size.is_none());
    assert!(m.mtime.is_none());
    assert!(m.primary_blob_path.is_none());
    assert!(m.blob_paths.is_none());
}

#[test]
fn build_listed_model_verbose_fills_detail() {
    let layers = vec![layer("sha256:a", Some(10))];
    let actual = vec![Some(10)];
    let m = build_listed_model(
        Some("myhost".to_string()),
        Some("myns".to_string()),
        "lips".to_string(),
        "code".to_string(),
        "/m/p",
        layers,
        None,
        true,
        "/blobs",
        false,
        Some(42),
        &actual,
    );
    assert_eq!(m.name, "myhost/myns/lips:code");
    assert_eq!(m.layers.as_ref().map(|l| l.len()), Some(1));
    assert_eq!(m.total_size, Some(10));
    assert_eq!(m.mtime, Some(42));
    assert_eq!(m.primary_blob_path.as_deref(), Some("/blobs/sha256-a"));
    let infos = m.blob_paths.unwrap();
    assert!(infos[0].primary);
    assert_eq!(infos[0].size_ok, Some(true));
}
