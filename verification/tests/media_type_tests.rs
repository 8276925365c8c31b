use ollama_file_find::media_type::{MediaTypeParseError, OllamaMediaType, TensorShape};

#[test]
fn parse_config() {
    let mt = OllamaMediaType::parse("application/vnd.ollama.image.config; type=gguf").unwrap();
    match mt {
        OllamaMediaType::Config { config_type } => assert_eq!(config_type, "gguf"),
        _ => panic!("wrong variant"),
    }
}

#[test]
fn parse_template_with_name() {
    let mt = OllamaMediaType::parse("application/vnd.ollama.image.template; name=chatml").unwrap();
    match mt {
        OllamaMediaType::Template { name } => assert_eq!(name.as_deref(), Some("chatml")),
        _ => panic!("wrong variant"),
    }
}

#[test]
fn parse_tensor() {
    let mt = OllamaMediaType::parse(
        "application/vnd.ollama.image.tensor; name=input; dtype=F32; shape=1, 2,3",
    )
    .unwrap();
    match mt {
        OllamaMediaType::Tensor {
            name,
            dtype,
            shape_raw,
            shape: Some(ref s),
        } => {
            assert_eq!(name, "input");
            assert_eq!(dtype, "F32");
            assert_eq!(shape_raw, "1, 2,3");
            assert_eq!(s.0, vec![1, 2, 3]);
        }
        _ => panic!("wrong variant"),
    }
}

#[test]
fn round_trip_tensor() {
    let original = "application/vnd.ollama.image.tensor; name=output; dtype=I32; shape=4,5,6";
    let parsed = OllamaMediaType::parse(original).unwrap();
    assert_eq!(parsed.render(), original);
}

#[test]
fn parse_legacy_model() {
    let mt = OllamaMediaType::parse("application/vnd.ollama.image.model").unwrap();
    assert!(matches!(mt, OllamaMediaType::Model));
    assert!(mt.is_deprecated());
}

#[test]
fn parse_unknown_reserved() {
    let original = "application/vnd.ollama.image.future; foo=bar";
    let mt = OllamaMediaType::parse(original).unwrap();
    match mt {
        OllamaMediaType::Unknown(s) => assert_eq!(s, original),
        _ => panic!("expected Unknown"),
    }
}

#[test]
fn reject_non_reserved() {
    let err = OllamaMediaType::parse("text/plain").unwrap_err();
    assert!(matches!(err, MediaTypeParseError::InvalidBase(_)));
}

#[test]
fn empty_input_is_an_error() {
    assert!(matches!(
        OllamaMediaType::parse("").unwrap_err(),
        MediaTypeParseError::Empty
    ));
    assert!(matches!(
        OllamaMediaType::parse("   \t ").unwrap_err(),
        MediaTypeParseError::Empty
    ));
}

#[test]
fn config_requires_type_param() {
    let err = OllamaMediaType::parse("application/vnd.ollama.image.config").unwrap_err();
    match err {
        MediaTypeParseError::MissingParam(k) => assert_eq!(k, "type"),
        _ => panic!("wrong error"),
    }
}

#[test]
fn tensor_requires_each_param() {
    let base = "application/vnd.ollama.image.tensor";
    match OllamaMediaType::parse(base).unwrap_err() {
        MediaTypeParseError::MissingParam(k) => assert_eq!(k, "name"),
        _ => panic!("wrong error"),
    }
    match OllamaMediaType::parse(&format!("{base}; name=x")).unwrap_err() {
        MediaTypeParseError::MissingParam(k) => assert_eq!(k, "dtype"),
        _ => panic!("wrong error"),
    }
    match OllamaMediaType::parse(&format!("{base}; name=x; dtype=F16")).unwrap_err() {
        MediaTypeParseError::MissingParam(k) => assert_eq!(k, "shape"),
        _ => panic!("wrong error"),
    }
}

#[test]
fn bad_shape_component_is_an_error() {
    let err = OllamaMediaType::parse(
        "application/vnd.ollama.image.tensor; name=x; dtype=F16; shape=1,two,3",
    )
    .unwrap_err();
    match err {
        MediaTypeParseError::InvalidShapeComponent(c) => assert_eq!(c, "two"),
        _ => panic!("wrong error"),
    }
    // A value past u64::MAX does not parse either.
    let err = OllamaMediaType::parse(
        "application/vnd.ollama.image.tensor; name=x; dtype=F16; shape=99999999999999999999999",
    )
    .unwrap_err();
    assert!(matches!(err, MediaTypeParseError::InvalidShapeComponent(_)));
}

#[test]
fn empty_shape_value_means_no_parsed_shape() {
    let mt =
        OllamaMediaType::parse("application/vnd.ollama.image.tensor; name=x; dtype=F16; shape=")
            .unwrap();
    match mt {
        OllamaMediaType::Tensor {
            shape_raw, shape, ..
        } => {
            assert_eq!(shape_raw, "");
            assert!(shape.is_none());
        }
        _ => panic!("wrong variant"),
    }
}

#[test]
fn shape_of_only_commas_is_present_but_empty() {
    let mt =
        OllamaMediaType::parse("application/vnd.ollama.image.tensor; name=x; dtype=F16; shape=,,")
            .unwrap();
    match mt {
        OllamaMediaType::Tensor { shape, .. } => assert_eq!(shape, Some(TensorShape(vec![]))),
        _ => panic!("wrong variant"),
    }
}

#[test]
fn unicode_white_space_is_trimmed_like_ascii() {
    let mt = OllamaMediaType::parse("\u{a0}application/vnd.ollama.image.model\u{a0}").unwrap();
    assert!(matches!(mt, OllamaMediaType::Model));
    let mt = OllamaMediaType::parse("application/vnd.ollama.image.config;\u{2003}type=gguf\u{3000}")
        .unwrap();
    match mt {
        OllamaMediaType::Config { config_type } => assert_eq!(config_type, "gguf"),
        _ => panic!("wrong variant"),
    }
}

#[test]
fn parameter_keys_ignore_ascii_case() {
    let mt = OllamaMediaType::parse("application/vnd.ollama.image.config; TYPE=safetensors")
        .unwrap();
    match mt {
        OllamaMediaType::Config { config_type } => assert_eq!(config_type, "safetensors"),
        _ => panic!("wrong variant"),
    }
}

#[test]
fn first_match_wins_for_duplicate_keys() {
    let mt = OllamaMediaType::parse("application/vnd.ollama.image.config; type=gguf; type=onnx")
        .unwrap();
    match mt {
        OllamaMediaType::Config { config_type } => assert_eq!(config_type, "gguf"),
        _ => panic!("wrong variant"),
    }
}

#[test]
fn round_trip_all_bare_variants() {
    for base in [
        "application/vnd.ollama.image.tokenizer",
        "application/vnd.ollama.image.tokenizer.config",
        "application/vnd.ollama.image.license",
        "application/vnd.ollama.image.model",
        "application/vnd.ollama.image.adapter",
        "application/vnd.ollama.image.projector",
        "application/vnd.ollama.image.system",
        "application/vnd.ollama.image.params",
        "application/vnd.ollama.image.messages",
        "application/vnd.ollama.image.prompt",
        "application/vnd.ollama.image.embed",
        "application/vnd.ollama.image.template",
    ] {
        let parsed = OllamaMediaType::parse(base).unwrap();
        assert_eq!(parsed.render(), base);
    }
}

#[test]
fn round_trip_config_and_template() {
    for s in [
        "application/vnd.ollama.image.config; type=safetensors",
        "application/vnd.ollama.image.template; name=chatml",
        "application/vnd.ollama.image.future; foo=bar",
    ] {
        let parsed = OllamaMediaType::parse(s).unwrap();
        assert_eq!(parsed.render(), s);
    }
}

#[test]
fn base_of_each_variant() {
    let mt = OllamaMediaType::parse("application/vnd.ollama.image.tokenizer").unwrap();
    assert_eq!(mt.base(), "application/vnd.ollama.image.tokenizer");
    let unknown = OllamaMediaType::Unknown("application/vnd.ollama.image.next".to_string());
    assert_eq!(unknown.base(), "application/vnd.ollama.image.next");
    assert!(!OllamaMediaType::Tokenizer.is_deprecated());
    assert!(OllamaMediaType::EmbedLegacy.is_deprecated());
}

#[test]
fn tensor_shape_renders_as_comma_joined_decimals() {
    assert_eq!(TensorShape(vec![1, 22, 333]).render(), "1,22,333");
    assert_eq!(TensorShape(vec![0]).render(), "0");
    assert_eq!(TensorShape(vec![]).render(), "");
    assert_eq!(TensorShape(vec![18446744073709551615]).render(), "18446744073709551615");
}

#[test]
fn plus_prefixed_dimension_parses_like_the_standard_library() {
    let mt = OllamaMediaType::parse(
        "application/vnd.ollama.image.tensor; name=x; dtype=F16; shape=+5",
    )
    .unwrap();
    match mt {
        OllamaMediaType::Tensor { shape, .. } => assert_eq!(shape, Some(TensorShape(vec![5]))),
        _ => panic!("wrong variant"),
    }
}
