//! The data model: model identities and canonical names, manifest layer
//! records, and the enriched records a scan produces.

use vstd::prelude::*;

verus! {

/// The identity parts of a model read from a manifest path: host and
/// namespace may be absent; model and tag are always present.
#[derive(Debug, Clone)]
pub struct ModelId {
    pub host: Option<String>,
    pub namespace: Option<String>,
    pub model: String,
    pub tag: String,
}

/// The mathematical shape of a `ModelId`.
pub struct ModelIdView {
    pub host: Option<Seq<char>>,
    pub namespace: Option<Seq<char>>,
    pub model: Seq<char>,
    pub tag: Seq<char>,
}

impl View for ModelId {
    type V = ModelIdView;

    open spec fn view(&self) -> ModelIdView {
        ModelIdView {
            host: match self.host {
                Some(h) => Some(h@),
                None => None,
            },
            namespace: match self.namespace {
                Some(n) => Some(n@),
                None => None,
            },
            model: self.model@,
            tag: self.tag@,
        }
    }
}

/// The canonical display name of an identity, by the naming table: the
/// default host and the default namespace are omitted; an absent namespace
/// leaves only `model:tag`.
pub open spec fn normalize_spec(id: ModelIdView) -> Seq<char> {
    let mt = id.model + ":"@ + id.tag;
    match (id.host, id.namespace) {
        (Some(h), Some(ns)) => if h == "registry.ollama.ai"@ && ns == "library"@ {
            mt
        } else if h == "registry.ollama.ai"@ {
            ns + "/"@ + mt
        } else {
            h + "/"@ + ns + "/"@ + mt
        },
        (None, Some(ns)) => if ns == "library"@ {
            mt
        } else {
            ns + "/"@ + mt
        },
        _ => mt,
    }
}

impl ModelId {
    /// The canonical display name of this identity, by the naming table.
    pub fn normalize(&self) -> (r: String)
        ensures
            r@ == normalize_spec(self@),
    {
        let host = match &self.host {
            Some(h) => Some(h.as_str()),
            None => None,
        };
        let namespace = match &self.namespace {
            Some(n) => Some(n.as_str()),
            None => None,
        };
        crate::normalize_name(host, namespace, self.model.as_str(), self.tag.as_str())
    }
}

/// One content-addressed layer of a manifest: an opaque digest, the raw
/// media-type string, and the declared size when the manifest carries one.
#[derive(Debug)]
pub struct LayerInfo {
    pub digest: String,
    pub media_type: String,
    pub size: Option<u64>,
}

impl Clone for LayerInfo {
    /// A field-for-field copy.
    fn clone(&self) -> (r: Self)
        ensures
            r == *self,
    {
        LayerInfo {
            digest: self.digest.clone(),
            media_type: self.media_type.clone(),
            size: self.size,
        }
    }
}

/// The decoded manifest envelope: the layer list and the optional config
/// record.
#[derive(Debug)]
pub struct ManifestData {
    pub layers: Vec<LayerInfo>,
    pub config: Option<LayerInfo>,
}

/// The integrity report for one record: its on-disk path, whether the blob
/// exists, and whether the declared and observed sizes agree.
#[derive(Debug)]
pub struct BlobPathInfo {
    pub digest: String,
    pub media_type: String,
    pub declared_size: Option<u64>,
    pub path: String,
    pub exists: bool,
    /// `Some` only when both the declared and the actual size are known.
    pub size_ok: Option<bool>,
    pub actual_size: Option<u64>,
    pub primary: bool,
}

impl Clone for BlobPathInfo {
    /// A field-for-field copy.
    fn clone(&self) -> (r: Self)
        ensures
            r == *self,
    {
        BlobPathInfo {
            digest: self.digest.clone(),
            media_type: self.media_type.clone(),
            declared_size: self.declared_size,
            path: self.path.clone(),
            exists: self.exists,
            size_ok: self.size_ok,
            actual_size: self.actual_size,
            primary: self.primary,
        }
    }
}

/// One listed model: identity, canonical name and manifest path, plus the
/// verbose detail when a scan asks for it.
#[derive(Debug)]
pub struct ListedModel {
    /// Canonical display name.
    pub name: String,
    pub model_id: ModelId,
    /// Filesystem path of the manifest file.
    pub manifest_path: String,
    /// The manifest's layers (verbose only).
    pub layers: Option<Vec<LayerInfo>>,
    pub config: Option<LayerInfo>,
    /// Summed declared size (verbose only).
    pub total_size: Option<u64>,
    /// Manifest modification time in epoch seconds (verbose only).
    pub mtime: Option<u64>,
    /// Path of the primary blob, when one was chosen.
    pub primary_blob_path: Option<String>,
    pub blob_paths: Option<Vec<BlobPathInfo>>,
}

impl ListedModel {
    /// Constructs a base entry: identity, canonical name and manifest path,
    /// with no verbose detail.
    pub fn new(model_id: ModelId, manifest_path: String) -> (r: ListedModel)
        ensures
            r.name@ == normalize_spec(model_id@),
            r.model_id == model_id,
            r.manifest_path == manifest_path,
            r.layers is None,
            r.config is None,
            r.total_size is None,
            r.mtime is None,
            r.primary_blob_path is None,
            r.blob_paths is None,
    {
        let name = model_id.normalize();
        ListedModel {
            name,
            model_id,
            manifest_path,
            layers: None,
            config: None,
            total_size: None,
            mtime: None,
            primary_blob_path: None,
            blob_paths: None,
        }
    }

    /// Enriches a base entry with the verbose detail: the manifest's layers
    /// and config, the summed declared size, the given modification time,
    /// and the blob integrity report built from the given observed sizes
    /// (`None` for a missing blob), listed layers first and config last.
    pub fn into_verbose(
        self,
        manifest: ManifestData,
        blobs_root: &str,
        mtime: Option<u64>,
        actual_sizes: &Vec<Option<u64>>,
    ) -> (r: ListedModel)
        requires
            actual_sizes@.len() == manifest.layers@.len() + (if manifest.config is Some {
                1int
            } else {
                0
            }),
        ensures
            r.name == self.name,
            r.model_id == self.model_id,
            r.manifest_path == self.manifest_path,
            r.layers matches Some(ls) && ls == manifest.layers,
            r.config == manifest.config,
            r.total_size == crate::total_size_spec(manifest.layers@, manifest.config),
            r.mtime == mtime,
            (match crate::primary_digest_spec(manifest.layers@, manifest.config) {
                Some(d) => r.primary_blob_path matches Some(p) && p@ == crate::blob_path_spec(
                    blobs_root@,
                    d,
                ),
                None => r.primary_blob_path is None,
            }),
            r.blob_paths matches Some(infos) && crate::blob_infos_match(
                infos@,
                manifest.layers@,
                manifest.config,
                blobs_root@,
                actual_sizes@,
                crate::primary_digest_spec(manifest.layers@, manifest.config),
            ),
    {
        let config_ref = match &manifest.config {
            Some(c) => Some(c),
            None => None,
        };
        let total_size = crate::compute_total_size(&manifest.layers, config_ref);
        let (primary_blob_path, infos) = crate::gather_blob_info(
            &manifest.layers,
            config_ref,
            blobs_root,
            actual_sizes,
        );
        ListedModel {
            layers: Some(manifest.layers),
            config: manifest.config,
            total_size,
            mtime,
            primary_blob_path,
            blob_paths: Some(infos),
            ..self
        }
    }
}

} // verus!
