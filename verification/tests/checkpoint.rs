use cerebro_tidex::checkpoint_adapter::{
    blobs_directory, check_layout, confined, confined_file_target_allowed, digest_file,
    element_count, element_width_bytes, header_length, inventory_safetensors_checkpoint,
    materialization_encoding, parameter_count, read_entry, read_headers, tensor_headers, ByteRange,
    CheckpointReading, FloatingScalarType, IdentifiedTensor, ReceiverScalarEncoding,
    ResolvedTarget, TensorHeader, MAX_AUXILIARY_BYTES, MAX_CHECKPOINT_BYTES,
};
use cerebro_tidex::checkpoint_inspection::{
    inspect_safetensors_receiver, resolve_architecture, select_materialization_tensors,
    ArchitectureFamilyFingerprint, AuxiliaryFile, FileContent, FileProgress,
    InspectedReceiverArtifacts, InspectionProgress, InspectionStep, SafeTensorsReceiverRequest,
};
use cerebro_tidex::error::{BrainError, BrainResult};
use cerebro_tidex::identity::{ArchitectureId, DigestDomain, ModelId, Sha256Digest, TensorId};
use cerebro_tidex::json::{parse_json, Json};
use cerebro_tidex::order::Named;
use cerebro_tidex::paths::{FilePath, PathPart};
use cerebro_tidex::receiver_profile::{
    CapabilityModality, MaterializationStrategy, ReceiverArchitecture,
};

fn path(text: &str) -> FilePath {
    let mut parts = Vec::new();
    if text.starts_with('/') {
        parts.push(PathPart::Root);
    }
    for name in text.split('/').filter(|name| !name.is_empty()) {
        parts.push(match name {
            ".." => PathPart::Parent,
            "." => PathPart::Here,
            _ => PathPart::Name(name.as_bytes().to_vec()),
        });
    }
    FilePath { parts }
}

fn shown(path: &FilePath) -> String {
    let mut out = String::new();
    for part in &path.parts {
        match part {
            PathPart::Root => out.push('/'),
            PathPart::Here => out.push('.'),
            PathPart::Parent => out.push_str(".."),
            PathPart::Name(name) => {
                if !out.is_empty() && !out.ends_with('/') {
                    out.push('/');
                }
                out.push_str(&String::from_utf8(name.clone()).unwrap());
            }
        }
    }
    out
}

fn tensor_id(text: &str) -> TensorId {
    TensorId {
        text: text.to_string(),
    }
}

fn code(error: &BrainError) -> String {
    error.code().unwrap_or("").to_string()
}

/// A digest that tells different contents apart.
fn fingerprint(bytes: &[u8]) -> Sha256Digest {
    let mut state = 0xcbf2_9ce4_8422_2325_u64;
    for byte in bytes {
        state = (state ^ u64::from(*byte)).wrapping_mul(0x0000_0100_0000_01b3);
    }
    Sha256Digest {
        text: format!("{state:064x}"),
    }
}

fn safetensors(header: &str, data: usize) -> Vec<u8> {
    let mut bytes = (header.len() as u64).to_le_bytes().to_vec();
    bytes.extend_from_slice(header.as_bytes());
    bytes.extend(vec![0u8; data]);
    bytes
}

fn headers_of(file: &[u8]) -> BrainResult<Vec<Named<TensorHeader>>> {
    let length = header_length(&file[..8], file.len() as u64)? as usize;
    read_headers(&file[8..8 + length], file.len() as u64)
}

struct Checkpoint {
    model: Vec<u8>,
    configuration: Vec<u8>,
    tokenizer: Vec<u8>,
    root: FilePath,
    target: FilePath,
    blobs: Option<FilePath>,
    /// Whether the blocks can be laid out.
    layable: bool,
}

impl Checkpoint {
    fn new(header: &str, data: usize, configuration: &str) -> Self {
        Self {
            model: safetensors(header, data),
            configuration: configuration.as_bytes().to_vec(),
            tokenizer: b"{}".to_vec(),
            root: path("/models/receiver"),
            target: path("/models/receiver/model.safetensors"),
            blobs: None,
            layable: true,
        }
    }

    fn admitted(&self, relative: &FilePath) -> BrainResult<FilePath> {
        let target = if shown(relative) == "model.safetensors" {
            self.target.duplicate()
        } else {
            let mut parts = self.root.duplicate().parts;
            parts.extend(relative.duplicate().parts);
            FilePath { parts }
        };
        confined(
            relative,
            Ok(ResolvedTarget {
                canonical_root: self.root.duplicate(),
                path: target,
                is_file: true,
                canonical_blobs: self.blobs.as_ref().map(|blobs| blobs.duplicate()),
            }),
        )
    }

    fn laid_out(&self) -> BrainResult<()> {
        if self.layable {
            Ok(())
        } else {
            Err(BrainError::invalid("parameter_layout_invalid"))
        }
    }

    fn auxiliary(&self, relative: &FilePath, bytes: &[u8]) -> AuxiliaryFile {
        AuxiliaryFile {
            length: self.admitted(relative).map(|_| bytes.len() as u64),
            digest: Ok(fingerprint(bytes)),
        }
    }

    fn inspect(
        &self,
        request: &SafeTensorsReceiverRequest,
    ) -> BrainResult<InspectedReceiverArtifacts> {
        let mut progress = InspectionProgress {
            files: Vec::new(),
            configuration: None,
            tokenizer: None,
            fingerprint: None,
            identities: None,
            geometry: None,
            layout: None,
            model_snapshot: None,
            snapshot: None,
            manifest: None,
        };
        loop {
            match inspect_safetensors_receiver(request, &progress) {
                InspectionStep::Failed(error) => return Err(error),
                InspectionStep::MeasureFile(relative) => {
                    let length = self.admitted(&relative).map(|_| self.model.len() as u64);
                    progress.files.push(FileProgress {
                        length,
                        content: None,
                    });
                }
                InspectionStep::ReadFile(_) => {
                    let content = FileContent {
                        headers: headers_of(&self.model),
                        digest: digest_file(
                            Ok(self.model.len() as u64),
                            MAX_CHECKPOINT_BYTES,
                            Ok(fingerprint(&self.model)),
                        ),
                    };
                    progress.files.last_mut().unwrap().content = Some(content);
                }
                InspectionStep::ReadConfiguration(relative) => {
                    progress.configuration = Some(self.auxiliary(&relative, &self.configuration));
                }
                InspectionStep::ReadTokenizer(relative) => {
                    progress.tokenizer = Some(self.auxiliary(&relative, &self.tokenizer));
                }
                InspectionStep::Fingerprint(_) => {
                    let bert = self.configuration.len() > 2;
                    progress.fingerprint = Some(Ok(ArchitectureFamilyFingerprint {
                        receiver_architecture: if bert {
                            ReceiverArchitecture::Transformer
                        } else {
                            ReceiverArchitecture::Unknown
                        },
                        model_family: if bert { "bert" } else { "unknown" }.to_string(),
                    }));
                }
                InspectionStep::Identify(names) => {
                    progress.identities =
                        Some(names.iter().map(|name| Ok(tensor_id(name))).collect());
                }
                InspectionStep::MeasureGeometry(_) => progress.geometry = Some(self.laid_out()),
                InspectionStep::CreateLayout {
                    profile,
                    geometry,
                    physical,
                } => {
                    assert_eq!(profile.regions.len(), physical.len());
                    assert_eq!(geometry.blocks.len(), physical.len());
                    progress.layout = Some(Ok(fingerprint(b"layout")));
                }
                InspectionStep::DigestFiles(files) => {
                    let mut content = DigestDomain::SafeTensorsSnapshot
                        .label()
                        .as_bytes()
                        .to_vec();
                    for file in &files {
                        content.extend_from_slice(shown(&file.file).as_bytes());
                        content.extend_from_slice(file.sha256.as_str().as_bytes());
                    }
                    progress.model_snapshot = Some(Ok(fingerprint(&content)));
                }
                InspectionStep::BindSnapshot { layout, .. } => {
                    assert_eq!(layout.as_str(), fingerprint(b"layout").as_str());
                    progress.snapshot = Some(Ok(fingerprint(b"binding")));
                }
                InspectionStep::Seal(artifacts) => {
                    assert_eq!(
                        artifacts.manifest_sha256.as_str(),
                        Sha256Digest::zero().as_str()
                    );
                    progress.manifest = Some(Ok(fingerprint(b"manifest")));
                }
                InspectionStep::Done(artifacts) => return Ok(artifacts),
            }
        }
    }

    fn inventory(&self) -> Vec<CheckpointReading> {
        let relative = path("model.safetensors");
        let tensors = self.admitted(&relative).and_then(|_| headers_of(&self.model));
        vec![CheckpointReading {
            path: relative,
            tensors: tensors.map(|table| {
                table
                    .into_iter()
                    .map(|entry| Named {
                        value: IdentifiedTensor {
                            header: entry.value,
                            tensor_id: Ok(tensor_id(&entry.name)),
                        },
                        name: entry.name,
                    })
                    .collect()
            }),
        }]
    }
}

fn request(architecture: ReceiverArchitecture, tensors: &[&str]) -> SafeTensorsReceiverRequest {
    SafeTensorsReceiverRequest {
        schema: "cerebro.tidex.safetensors_receiver_request/v1".to_string(),
        model_id: ModelId {
            text: "receiver.fixture".to_string(),
        },
        architecture_id: ArchitectureId {
            text: "transformer.fixture".to_string(),
        },
        architecture,
        modalities: vec![CapabilityModality::Text],
        supports_persistent_state: false,
        checkpoint_files: vec![path("model.safetensors")],
        configuration_file: path("config.json"),
        tokenizer_file: path("tokenizer.json"),
        supported_strategies: vec![MaterializationStrategy::DenseDelta],
        materialization_tensors: tensors.iter().map(|text| tensor_id(text)).collect(),
    }
}

const SUBREGION: &str = r#"{"encoder.layer.0.weight":{"dtype":"F32","shape":[2,2],"data_offsets":[0,16]},"encoder.layer.1.bias":{"dtype":"F32","shape":[3],"data_offsets":[16,28]},"position.ids":{"dtype":"I64","shape":[2],"data_offsets":[28,44]}}"#;

#[test]
fn inspects_exact_safetensors_geometry_and_rejects_ambiguous_dtype() {
    let header = r#"{"layer.weight":{"dtype":"F32","shape":[2,2],"data_offsets":[0,16]}}"#;
    let checkpoint = Checkpoint::new(header, 16, "{}");
    let inspected = checkpoint
        .inspect(&request(ReceiverArchitecture::Transformer, &[]))
        .unwrap();
    assert_eq!(inspected.profile.parameter_dimension, 4);
    assert_eq!(inspected.layout.geometry.blocks[0].shape, vec![2, 2]);
    assert_ne!(
        inspected.snapshot.model_snapshot_sha256.as_str(),
        Sha256Digest::zero().as_str()
    );
}

#[test]
fn materialization_tensors_limit_layout_without_weakening_checkpoint_binding() {
    let checkpoint = Checkpoint::new(SUBREGION, 44, r#"{"model_type":"bert"}"#);
    let inspected = checkpoint
        .inspect(&request(
            ReceiverArchitecture::Transformer,
            &["encoder.layer.1.bias"],
        ))
        .unwrap();
    assert_eq!(inspected.profile.parameter_dimension, 3);
    assert_eq!(inspected.profile.regions.len(), 1);
    assert_eq!(
        inspected.profile.regions[0].tensor_id.as_str(),
        "encoder.layer.1.bias"
    );
    assert_eq!(inspected.layout.geometry.blocks[0].shape, vec![3]);
    assert_ne!(
        inspected.snapshot.model_snapshot_sha256.as_str(),
        Sha256Digest::zero().as_str()
    );
    let error = checkpoint
        .inspect(&request(
            ReceiverArchitecture::Transformer,
            &["position.ids"],
        ))
        .unwrap_err();
    assert!(code(&error).contains("materialization_tensor_dtype_not_continuous:I64"));
}

#[test]
fn accepts_huggingface_snapshot_symlink_only_to_local_blobs() {
    let header =
        r#"{"encoder.layer.0.weight":{"dtype":"F32","shape":[2,2],"data_offsets":[0,16]}}"#;
    let mut checkpoint = Checkpoint::new(header, 16, r#"{"model_type":"bert"}"#);
    checkpoint.root = path("/repo/snapshots/abc123");
    checkpoint.target = path("/repo/blobs/model-blob");
    checkpoint.blobs = blobs_directory(&checkpoint.root);
    let inspected = checkpoint
        .inspect(&request(
            ReceiverArchitecture::Unknown,
            &["encoder.layer.0.weight"],
        ))
        .unwrap();
    assert_eq!(inspected.profile.parameter_dimension, 4);
    let inventory = inventory_safetensors_checkpoint(checkpoint.inventory()).unwrap();
    assert_eq!(inventory.tensors.len(), 1);
    assert!(inventory.tensors[0].materializable);

    checkpoint.target = path("/elsewhere/blobs/model-blob");
    let error = inventory_safetensors_checkpoint(checkpoint.inventory()).unwrap_err();
    assert_eq!(code(&error), "checkpoint_path_not_confined_file");
}

#[test]
fn selection_changes_the_layout_and_not_the_bound_digests() {
    let checkpoint = Checkpoint::new(
        r#"{"a":{"dtype":"F32","shape":[2],"data_offsets":[0,8]},"b":{"dtype":"F16","shape":[2],"data_offsets":[8,12]}}"#,
        12,
        "{}",
    );
    let all = checkpoint
        .inspect(&request(ReceiverArchitecture::Transformer, &[]))
        .unwrap();
    let one = checkpoint
        .inspect(&request(ReceiverArchitecture::Transformer, &["b"]))
        .unwrap();
    assert_eq!(all.profile.parameter_dimension, 4);
    assert_eq!(one.profile.parameter_dimension, 2);
    assert_eq!(
        all.snapshot.model_snapshot_sha256.as_str(),
        one.snapshot.model_snapshot_sha256.as_str()
    );
    assert_eq!(one.checkpoint_file_sha256.len(), 1);
    assert_eq!(
        one.checkpoint_file_sha256[0].sha256.as_str(),
        fingerprint(&checkpoint.model).as_str()
    );
}

#[test]
fn layouts_are_those_of_the_selected_tensors() {
    let mut checkpoint = Checkpoint::new(SUBREGION, 44, r#"{"model_type":"bert"}"#);
    let tensors = ["encoder.layer.1.bias", "encoder.layer.0.weight"];
    let inspected = checkpoint
        .inspect(&request(ReceiverArchitecture::Transformer, &tensors))
        .unwrap();
    let blocks = &inspected.layout.geometry.blocks;
    assert_eq!(blocks.len(), 2);
    assert_eq!(blocks[0].name, "encoder.layer.0.weight");
    assert_eq!(blocks[0].shape, [2, 2]);
    assert_eq!(blocks[0].count, 4);
    assert_eq!(blocks[1].name, "encoder.layer.1.bias");
    assert_eq!(blocks[1].count, 3);
    assert_eq!(inspected.layout.geometry.total_parameter_count, 7);
    assert_eq!(inspected.snapshot.manifest_sha256.as_str(), fingerprint(b"binding").as_str());
    checkpoint.layable = false;
    let error = checkpoint
        .inspect(&request(ReceiverArchitecture::Transformer, &tensors))
        .unwrap_err();
    assert_eq!(code(&error), "parameter_layout_invalid");
}

#[test]
fn requests_hold_sets() {
    let checkpoint = Checkpoint::new(SUBREGION, 44, "{}");
    let tensors = [
        "encoder.layer.1.bias",
        "encoder.layer.0.weight",
        "encoder.layer.1.bias",
    ];
    let mut repeated = request(ReceiverArchitecture::Transformer, &tensors);
    repeated.modalities = vec![
        CapabilityModality::Other("vision".to_string()),
        CapabilityModality::Text,
        CapabilityModality::Other("audio".to_string()),
        CapabilityModality::Text,
    ];
    repeated.supported_strategies = vec![
        MaterializationStrategy::SparseDelta,
        MaterializationStrategy::DenseDelta,
        MaterializationStrategy::SparseDelta,
    ];
    let profile = checkpoint.inspect(&repeated).unwrap().profile;
    assert_eq!(profile.regions.len(), 2);
    assert_eq!(profile.regions[0].tensor_id.as_str(), "encoder.layer.0.weight");
    assert_eq!(
        profile.regions[1].supported_strategies,
        [
            MaterializationStrategy::DenseDelta,
            MaterializationStrategy::SparseDelta
        ]
    );
    assert_eq!(profile.modalities.len(), 3);
    assert!(matches!(profile.modalities[0], CapabilityModality::Text));
    assert!(matches!(&profile.modalities[1], CapabilityModality::Other(name) if name == "audio"));
}

#[test]
fn inspection_refusals_are_told_apart() {
    let checkpoint = Checkpoint::new(SUBREGION, 44, r#"{"model_type":"bert"}"#);
    let base = || request(ReceiverArchitecture::Transformer, &["encoder.layer.1.bias"]);
    let refused =
        |request: &SafeTensorsReceiverRequest| code(&checkpoint.inspect(request).unwrap_err());

    let mut wrong = base();
    wrong.schema = "other".to_string();
    assert_eq!(refused(&wrong), "safetensors_receiver_request_invalid");
    let mut wrong = base();
    wrong.modalities.clear();
    assert_eq!(refused(&wrong), "safetensors_receiver_request_invalid");
    let mut wrong = base();
    wrong.checkpoint_files.push(path("model.safetensors"));
    assert_eq!(refused(&wrong), "checkpoint_files_not_unique");
    let mut wrong = base();
    wrong.checkpoint_files.push(path("second.safetensors"));
    assert_eq!(refused(&wrong), "checkpoint_duplicate_tensor");
    let mut wrong = base();
    wrong.checkpoint_files = vec![path("../model.safetensors")];
    assert_eq!(refused(&wrong), "checkpoint_path_not_relative");
    let mut wrong = base();
    wrong.configuration_file = path("/config.json");
    assert_eq!(refused(&wrong), "checkpoint_path_not_relative");
    let mut wrong = base();
    wrong.materialization_tensors = vec![tensor_id("absent")];
    assert_eq!(refused(&wrong), "materialization_tensor_not_in_checkpoint");
    let mut wrong = base();
    wrong.architecture = ReceiverArchitecture::Other("mamba".to_string());
    let error = checkpoint.inspect(&wrong).unwrap_err();
    assert!(matches!(error, BrainError::Integrity(_)));
    assert_eq!(
        code(&error),
        "declared_receiver_architecture_conflicts_with_checkpoint"
    );
}

#[test]
fn total_size_of_a_checkpoint_is_bounded() {
    let mut two = request(ReceiverArchitecture::Unknown, &[]);
    two.checkpoint_files = vec![path("b"), path("a")];
    let mut progress = InspectionProgress {
        files: vec![FileProgress {
            length: Ok(MAX_CHECKPOINT_BYTES + 1),
            content: None,
        }],
        configuration: None,
        tokenizer: None,
        fingerprint: None,
        identities: None,
        geometry: None,
        layout: None,
        model_snapshot: None,
        snapshot: None,
        manifest: None,
    };
    match inspect_safetensors_receiver(&two, &progress) {
        InspectionStep::Failed(error) => assert_eq!(code(&error), "checkpoint_total_limit"),
        other => panic!("{other:?}"),
    }
    progress.files[0] = FileProgress {
        length: Ok(8),
        content: None,
    };
    match inspect_safetensors_receiver(&two, &progress) {
        InspectionStep::ReadFile(file) => assert_eq!(shown(&file), "a"),
        other => panic!("{other:?}"),
    }
    progress.files[0].content = Some(FileContent {
        headers: Ok(Vec::new()),
        digest: Ok(fingerprint(b"a")),
    });
    progress.files.push(FileProgress {
        length: Ok(u64::MAX),
        content: None,
    });
    match inspect_safetensors_receiver(&two, &progress) {
        InspectionStep::Failed(error) => assert_eq!(code(&error), "checkpoint_total_overflow"),
        other => panic!("{other:?}"),
    }
}

#[test]
fn large_auxiliary_files_are_refused() {
    let file = AuxiliaryFile {
        length: Ok(MAX_AUXILIARY_BYTES + 1),
        digest: Ok(fingerprint(b"x")),
    };
    assert_eq!(
        code(&file.admitted().unwrap_err()),
        "checkpoint_file_too_large"
    );
    assert_eq!(
        digest_file(Ok(3), 3, Ok(fingerprint(b"x"))).unwrap().as_str(),
        fingerprint(b"x").as_str()
    );
    assert!(digest_file(Err(BrainError::Io), 3, Ok(fingerprint(b"x"))).is_err());
}

#[test]
fn unknown_architectures_give_way() {
    let transformer = ReceiverArchitecture::Transformer;
    let unknown = ReceiverArchitecture::Unknown;
    assert!(resolve_architecture(&unknown, &transformer)
        .unwrap()
        .same(&transformer));
    assert!(resolve_architecture(&transformer, &unknown)
        .unwrap()
        .same(&transformer));
    assert!(resolve_architecture(&transformer, &ReceiverArchitecture::Other("x".into())).is_err());
}

#[test]
fn a_tensor_can_be_selected_once() {
    let table = headers_of(&safetensors(SUBREGION, 44)).unwrap();
    let twice = vec![tensor_id("position.ids"), tensor_id("position.ids")];
    assert_eq!(
        code(&select_materialization_tensors(&table, &twice).unwrap_err()),
        "materialization_tensor_not_in_checkpoint"
    );
    let chosen = select_materialization_tensors(&table, &twice[..1].to_vec()).unwrap();
    assert_eq!(chosen[0].name, "position.ids");
    assert_eq!(
        select_materialization_tensors(&table, &Vec::new())
            .unwrap()
            .len(),
        3
    );
}

#[test]
fn header_tables_must_describe_all_data() {
    let refused = |header: &str, data: usize| {
        code(&headers_of(&safetensors(header, data)).unwrap_err())
    };
    assert_eq!(refused("[]", 0), "safetensors_header_not_object");
    assert_eq!(refused("{}", 0), "safetensors_checkpoint_empty");
    assert_eq!(
        refused(r#"{"__metadata__":{"a":"b"}}"#, 0),
        "safetensors_checkpoint_empty"
    );
    assert_eq!(
        refused(r#"{"a":{"dtype":"F32","shape":[1],"data_offsets":[4,8]}}"#, 8),
        "safetensors_data_offsets_not_contiguous"
    );
    assert_eq!(
        refused(r#"{"a":{"dtype":"F32","shape":[1],"data_offsets":[0,4]}}"#, 8),
        "safetensors_data_region_not_fully_described"
    );
    assert_eq!(
        refused(r#"{"a":{"dtype":"Q4","shape":[1],"data_offsets":[0,4]}}"#, 4),
        "checkpoint_dtype_unsupported:Q4"
    );
    assert_eq!(
        refused(r#"{" a":{"dtype":"F32","shape":[1],"data_offsets":[0,4]}}"#, 4),
        "safetensors_tensor_header_invalid"
    );
    assert_eq!(
        refused(r#"{"a":{"dtype":"F32","shape":[0],"data_offsets":[0,0]}}"#, 0),
        "safetensors_tensor_header_invalid"
    );
    assert_eq!(
        refused(
            r#"{"a":{"dtype":"U8","shape":[4294967296,4294967296],"data_offsets":[0,4]}}"#,
            4
        ),
        "checkpoint_tensor_shape_overflow"
    );
    assert_eq!(
        refused(
            r#"{"a":{"dtype":"F64","shape":[4611686018427387904],"data_offsets":[0,4]}}"#,
            4
        ),
        "checkpoint_tensor_bytes_overflow"
    );
    assert!(matches!(
        headers_of(&safetensors(r#"{"a":{"dtype":"F32"}}"#, 0)),
        Err(BrainError::Json)
    ));
    assert!(matches!(
        headers_of(&safetensors("{", 0)),
        Err(BrainError::Json)
    ));
}

#[test]
fn header_tables_are_sorted_by_name() {
    let table = headers_of(&safetensors(
        r#"{"b":["U8",[2],[1,3]],"a":{"dtype":"I8","shape":[1],"data_offsets":[0,1]}}"#,
        3,
    ))
    .unwrap();
    assert_eq!(table[0].name, "a");
    assert_eq!(table[1].name, "b");
    assert_eq!(table[1].value.start, 1);
    assert_eq!(table[1].value.end, 3);
}

#[test]
fn repeated_names_are_refused() {
    let entry = |offset: u64| {
        let text = format!(
            r#"{{"dtype":"U8","shape":[1],"data_offsets":[{offset},{}]}}"#,
            offset + 1
        );
        ("w".to_string(), parse_json(text.as_bytes()).unwrap())
    };
    let twice = Json::Object(vec![entry(0), entry(1)]);
    assert_eq!(
        code(&tensor_headers(&twice, 2).unwrap_err()),
        "safetensors_tensor_name_repeated"
    );
    assert_eq!(tensor_headers(&Json::Object(vec![entry(0)]), 1).unwrap().len(), 1);
}

#[test]
fn inventories_list_files_and_names_in_order() {
    let reading = |file: &str, names: &[&str]| CheckpointReading {
        path: path(file),
        tensors: Ok(names
            .iter()
            .map(|name| Named {
                name: name.to_string(),
                value: IdentifiedTensor {
                    header: headers_of(&safetensors(SUBREGION, 44)).unwrap().remove(0).value,
                    tensor_id: Ok(tensor_id(name)),
                },
            })
            .collect()),
    };
    let inventory =
        inventory_safetensors_checkpoint(vec![reading("b", &["c", "a"]), reading("a", &["d"])])
            .unwrap();
    let listed: Vec<&str> = inventory
        .tensors
        .iter()
        .map(|item| item.tensor_id.as_str())
        .collect();
    assert_eq!(listed, ["d", "a", "c"]);
}

#[test]
fn header_length_is_little_endian_and_bounded() {
    assert_eq!(header_length(&[2, 1, 0, 0, 0, 0, 0, 0], 1000).unwrap(), 258);
    assert!(header_length(&[0; 8], 1000).is_err());
    assert!(header_length(&[9, 0, 0, 0, 0, 0, 0, 0], 16).is_err());
    assert!(header_length(&[8, 0, 0, 0, 0, 0, 0, 0], 16).is_ok());
    assert!(header_length(&[1, 0, 0, 4, 0, 0, 0, 0], u64::MAX).is_err());
}

#[test]
fn layouts_are_checked_in_order_of_their_starts() {
    let range = |start, end| ByteRange { start, end };
    assert!(check_layout(vec![range(4, 8), range(0, 4)], 8).is_ok());
    assert!(check_layout(vec![range(0, 4), range(3, 8)], 8).is_err());
    assert!(check_layout(vec![range(0, 4)], 8).is_err());
}

#[test]
fn element_types_have_their_widths() {
    let widths = [
        ("BOOL", 1),
        ("F8_E4M3FN", 1),
        ("BF16", 2),
        ("U16", 2),
        ("F32", 4),
        ("I64", 8),
    ];
    for (dtype, width) in widths {
        assert_eq!(element_width_bytes(dtype).unwrap(), width);
    }
    assert_eq!(
        code(&element_width_bytes("f32").unwrap_err()),
        "checkpoint_dtype_unsupported:f32"
    );
}

#[test]
fn only_continuous_types_materialize() {
    let ReceiverScalarEncoding::Floating { scalar_type } =
        materialization_encoding("F8_E4M3FN").unwrap();
    assert_eq!(scalar_type, FloatingScalarType::Float8E4m3);
    let ReceiverScalarEncoding::Floating { scalar_type } =
        materialization_encoding("BF16").unwrap();
    assert_eq!(scalar_type, FloatingScalarType::Bfloat16);
    assert_eq!(
        code(&materialization_encoding("BOOL").unwrap_err()),
        "materialization_tensor_dtype_not_continuous:BOOL"
    );
}

#[test]
fn counts_of_elements_do_not_wrap() {
    assert_eq!(element_count(&vec![3, 4, 5]), Some(60));
    assert_eq!(element_count(&vec![usize::MAX, 2]), None);
    assert_eq!(parameter_count(&vec![]), Some(1));
    assert_eq!(parameter_count(&vec![usize::MAX, 2]), None);
}

#[test]
fn entries_are_read_against_the_data_region() {
    let document =
        parse_json(br#"{"dtype":"F16","shape":[2,3],"data_offsets":[4,16]}"#).unwrap();
    let header = read_entry("w", &document, 16).unwrap();
    assert_eq!(header.shape, vec![2, 3]);
    assert!(read_entry("w", &document, 15).is_err());
    assert!(read_entry("", &document, 16).is_err());
}

#[test]
fn files_outside_the_root_are_refused() {
    let root = path("/models/a");
    assert!(confined_file_target_allowed(&root, &path("/models/a/x"), &None));
    assert!(!confined_file_target_allowed(&root, &path("/models/ab/x"), &None));
    assert!(!confined_file_target_allowed(
        &root,
        &path("/models/blobs/x"),
        &Some(path("/models/blobs"))
    ));
    let snapshot = path("/hub/snapshots/rev");
    assert_eq!(shown(&blobs_directory(&snapshot).unwrap()), "/hub/blobs");
    assert!(blobs_directory(&root).is_none());
    assert!(confined_file_target_allowed(
        &snapshot,
        &path("/hub/blobs/x"),
        &Some(path("/hub/blobs"))
    ));
    assert!(!confined_file_target_allowed(
        &snapshot,
        &path("/hub/blobs/x"),
        &None
    ));
}

#[test]
fn confinement_reports_what_the_file_system_says() {
    let relative = path("model.safetensors");
    assert!(matches!(
        confined(&relative, Err(BrainError::Io)),
        Err(BrainError::Io)
    ));
    let directory = ResolvedTarget {
        canonical_root: path("/m"),
        path: path("/m/model.safetensors"),
        is_file: false,
        canonical_blobs: None,
    };
    assert_eq!(
        code(&confined(&relative, Ok(directory)).unwrap_err()),
        "checkpoint_path_not_confined_file"
    );
}

#[test]
fn inventories_refuse_empty_repeated_and_unreadable_requests() {
    assert_eq!(
        code(&inventory_safetensors_checkpoint(Vec::new()).unwrap_err()),
        "safetensors_inventory_request_invalid"
    );
    let checkpoint = Checkpoint::new(SUBREGION, 44, "{}");
    let mut twice = checkpoint.inventory();
    twice.extend(checkpoint.inventory());
    assert_eq!(
        code(&inventory_safetensors_checkpoint(twice).unwrap_err()),
        "checkpoint_files_not_unique"
    );
    let mut second = checkpoint.inventory();
    second[0].path = path("other.safetensors");
    second.extend(checkpoint.inventory());
    assert_eq!(
        code(&inventory_safetensors_checkpoint(second).unwrap_err()),
        "checkpoint_duplicate_tensor"
    );
    let inventory = inventory_safetensors_checkpoint(checkpoint.inventory()).unwrap();
    assert_eq!(
        inventory.schema,
        "cerebro.tidex.safetensors_checkpoint_inventory/v1"
    );
    assert_eq!(inventory.tensors[2].element_count, 2);
    assert!(!inventory.tensors[2].materializable);
}
