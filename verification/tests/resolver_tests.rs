use ollama_file_find::models::{ListedModel, ModelId};
use ollama_file_find::scan_args::ScanArgs;
use ollama_file_find::{normalize_name, parse_components, sort_models_by_name};

#[test]
pub fn lib_test_normalize() {
    assert_eq!(
        normalize_name(Some("registry.ollama.ai"), Some("library"), "mistral", "7b"),
        "mistral:7b"
    );
    assert_eq!(
        normalize_name(
            Some("registry.ollama.ai"),
            Some("apple"),
            "OpenELM",
            "latest"
        ),
        "apple/OpenELM:latest"
    );
    assert_eq!(
        normalize_name(Some("myhost"), Some("myns"), "lips", "code"),
        "myhost/myns/lips:code"
    );
    assert_eq!(
        normalize_name(None, Some("library"), "phi4", "latest"),
        "phi4:latest"
    );
}

fn id(host: Option<&str>, namespace: Option<&str>, model: &str, tag: &str) -> ModelId {
    ModelId {
        host: host.map(str::to_string),
        namespace: namespace.map(str::to_string),
        model: model.to_string(),
        tag: tag.to_string(),
    }
}

#[test]
pub fn models_test_normalize() {
    assert_eq!(id(None, None, "mistral", "7b").normalize(), "mistral:7b");
    assert_eq!(
        id(
            Some("registry.ollama.ai"),
            Some("apple"),
            "OpenELM",
            "latest"
        )
        .normalize(),
        "apple/OpenELM:latest"
    );
    assert_eq!(
        id(None, Some("apple"), "OpenELM", "latest").normalize(),
        "apple/OpenELM:latest"
    );
    assert_eq!(
        id(Some("myhost"), Some("myns"), "lips", "code").normalize(),
        "myhost/myns/lips:code"
    );
    assert_eq!(
        id(None, Some("library"), "phi4", "latest").normalize(),
        "phi4:latest"
    );
}

fn segs(parts: &[&str]) -> Vec<String> {
    parts.iter().map(|s| s.to_string()).collect()
}

#[test]
fn three_segments_resolve_without_host() {
    let id = parse_components(segs(&["library", "phi4", "latest"]), false).unwrap();
    assert_eq!(id.host, None);
    assert_eq!(id.namespace.as_deref(), Some("library"));
    assert_eq!(id.model, "phi4");
    assert_eq!(id.tag, "latest");
}

#[test]
fn four_segments_resolve_with_host() {
    let id = parse_components(
        segs(&["registry.ollama.ai", "library", "phi4", "latest"]),
        false,
    )
    .unwrap();
    assert_eq!(id.host.as_deref(), Some("registry.ollama.ai"));
    assert_eq!(id.namespace.as_deref(), Some("library"));
    assert_eq!(id.model, "phi4");
    assert_eq!(id.tag, "latest");
}

#[test]
fn wrong_segment_count_is_rejected() {
    assert!(parse_components(segs(&["phi4", "latest"]), false).is_none());
    assert!(parse_components(segs(&["a", "b", "c", "d", "e"]), false).is_none());
    assert!(parse_components(segs(&[]), true).is_none());
}

#[test]
fn hidden_tag_rejected_unless_included() {
    let parts = ["library", "phi4", ".hidden"];
    assert!(parse_components(segs(&parts), false).is_none());
    let id = parse_components(segs(&parts), true).unwrap();
    assert_eq!(id.namespace.as_deref(), Some("library"));
    assert_eq!(id.model, "phi4");
    assert_eq!(id.tag, ".hidden");
}

#[test]
fn hidden_namespace_also_rejected() {
    assert!(parse_components(segs(&[".ns", "phi4", "latest"]), false).is_none());
    assert!(parse_components(segs(&["h", ".ns", "phi4", "latest"]), false).is_none());
    assert!(parse_components(segs(&[".ns", "phi4", "latest"]), true).is_some());
}

#[test]
fn sort_orders_by_canonical_name() {
    let names = ["zeta:1", "alpha:2", "mid:3", "alpha:1"];
    let models: Vec<ListedModel> = names
        .iter()
        .map(|n| {
            let parts: Vec<&str> = n.split(':').collect();
            ListedModel::new(
                id(None, Some("library"), parts[0], parts[1]),
                format!("/m/{n}"),
            )
        })
        .collect();
    let sorted = sort_models_by_name(models);
    let got: Vec<&str> = sorted.iter().map(|m| m.name.as_str()).collect();
    assert_eq!(got, vec!["alpha:1", "alpha:2", "mid:3", "zeta:1"]);
}

#[test]
fn sort_is_stable_for_equal_names() {
    // Equal canonical names, told apart by their manifest paths: their input
    // order is kept while the differing name moves to its place.
    let mut models = Vec::new();
    for (name, path) in [
        ("same", "/m/1"),
        ("aaa", "/m/2"),
        ("same", "/m/3"),
        ("same", "/m/4"),
    ] {
        models.push(ListedModel::new(
            id(None, Some("library"), name, "t"),
            path.to_string(),
        ));
    }
    let sorted = sort_models_by_name(models);
    let got: Vec<(&str, &str)> = sorted
        .iter()
        .map(|m| (m.name.as_str(), m.manifest_path.as_str()))
        .collect();
    assert_eq!(
        got,
        vec![
            ("aaa:t", "/m/2"),
            ("same:t", "/m/1"),
            ("same:t", "/m/3"),
            ("same:t", "/m/4"),
        ]
    );
}

#[test]
fn scan_args_builders_set_flags() {
    let args = ScanArgs::new("/m/manifests".to_string(), "/m/blobs".to_string())
        .with_include_hidden(true)
        .with_verbose(true);
    assert_eq!(args.root, "/m/manifests");
    assert_eq!(args.blobs_root, "/m/blobs");
    assert!(args.include_hidden);
    assert!(args.verbose);
    assert!(!args.blob_paths);
}

#[test]
fn listed_model_new_has_no_verbose_detail() {
    let m = ListedModel::new(id(None, Some("library"), "phi4", "latest"), "/p".to_string());
    assert_eq!(m.name, "phi4:latest");
    assert_eq!(m.manifest_path, "/p");
    assert!(m.layers.is_none());
    assert!(m.config.is_none());
    assert!(m.total_size.is_none());
    assert!(m.mtime.is_none());
    assert!(m.primary_blob_path.is_none());
    assert!(m.blob_paths.is_none());
}
