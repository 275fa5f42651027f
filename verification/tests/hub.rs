use mistralrs_core::hub::{
    adapter_name, adapter_order, bytes_contain, bytes_end_with, find_last, is_adapter_file,
    is_classifier_file, is_mixture_config_file, is_weight_file, order_adapter_files,
    path_extension, weight_source, WeightSource, DOT, SLASH,
};

fn b(s: &str) -> Vec<u8> {
    s.as_bytes().to_vec()
}

#[test]
fn weight_files_end_with_safetensors() {
    assert!(is_weight_file("model-00001-of-00002.safetensors"));
    assert!(is_weight_file(".safetensors"));
    assert!(!is_weight_file("model.safetensors.index.json"));
    assert!(!is_weight_file("safetensors"));
    assert!(!is_weight_file(""));
}

#[test]
fn repository_files_are_told_apart() {
    assert!(is_classifier_file("xlora_classifier.safetensors"));
    assert!(is_classifier_file("sub/xlora_classifier.safetensors.bak"));
    assert!(!is_classifier_file("classifier.safetensors"));
    assert!(is_mixture_config_file("xlora_config.json"));
    assert!(!is_mixture_config_file("config.json"));
    assert!(is_adapter_file("adapter_1/adapter_model.safetensors"));
    assert!(is_adapter_file("x/adapter_config.json"));
    assert!(!is_adapter_file("adapter_model.safetensors"));
}

#[test]
fn bytes_are_searched() {
    assert!(bytes_end_with(&b("abc"), &b("bc")));
    assert!(bytes_end_with(&b("abc"), &b("")));
    assert!(bytes_end_with(&b("abc"), &b("abc")));
    assert!(!bytes_end_with(&b("abc"), &b("ab")));
    assert!(!bytes_end_with(&b("bc"), &b("abc")));
    assert!(bytes_contain(&b("abc"), &b("b")));
    assert!(bytes_contain(&b("abc"), &b("")));
    assert!(bytes_contain(&b(""), &b("")));
    assert!(bytes_contain(&b("abc"), &b("abc")));
    assert!(!bytes_contain(&b("abc"), &b("ac")));
    assert!(!bytes_contain(&b(""), &b("a")));
    assert_eq!(SLASH, b'/');
    assert_eq!(DOT, b'.');
    assert_eq!(find_last(&b("a/b/c"), SLASH, 5), Some(3));
    assert_eq!(find_last(&b("a/b/c"), SLASH, 3), Some(1));
    assert_eq!(find_last(&b("a/b/c"), SLASH, 1), None);
    assert_eq!(find_last(&b("a/b/c"), SLASH, 6), None);
    assert_eq!(find_last(&b(""), SLASH, 0), None);
}

#[test]
fn extension_follows_the_last_dot_of_the_file_name() {
    assert_eq!(path_extension(&b("a/b/model.safetensors")), Some(b("safetensors")));
    assert_eq!(path_extension(&b("archive.tar.gz")), Some(b("gz")));
    assert_eq!(path_extension(&b("a.b/model")), None);
    assert_eq!(path_extension(&b("a/.hidden")), None);
    assert_eq!(path_extension(&b(".hidden")), None);
    assert_eq!(path_extension(&b("a/.hidden.json")), Some(b("json")));
    assert_eq!(path_extension(&b("name.")), Some(b("")));
    assert_eq!(path_extension(&b("")), None);
}

#[test]
fn adapter_is_named_by_the_directory_of_the_file() {
    assert_eq!(adapter_name(&b("adapter_1/adapter_model.safetensors")), Some(b("adapter_1")));
    assert_eq!(adapter_name(&b("x/y/adapter_2/adapter_config.json")), Some(b("adapter_2")));
    assert_eq!(adapter_name(&b("/adapter_config.json")), Some(b("")));
    assert_eq!(adapter_name(&b("adapter_config.json")), None);
    assert_eq!(adapter_name(&b("")), None);
}

#[test]
fn weights_come_from_where_the_request_says() {
    assert!(matches!(weight_source(&None, &None), WeightSource::Repository));
    assert!(matches!(
        weight_source(&Some("org/repo".to_string()), &None),
        WeightSource::Repository
    ));
    match weight_source(&Some("".to_string()), &Some("model.gguf".to_string())) {
        WeightSource::LocalFile(name) => assert_eq!(name, "model.gguf"),
        other => panic!("unexpected source {:?}", other),
    }
    match weight_source(&Some("org/quantized".to_string()), &Some("model.gguf".to_string())) {
        WeightSource::RemoteFile { repo, file } => {
            assert_eq!(repo, "org/quantized");
            assert_eq!(file, "model.gguf");
        }
        other => panic!("unexpected source {:?}", other),
    }
}

#[test]
fn adapter_order_prefers_the_mixture_configuration() {
    let configured = vec!["a".to_string(), "b".to_string()];
    let ordered = vec!["b".to_string()];
    assert_eq!(
        adapter_order(Some(configured.clone()), Some(ordered.clone())),
        Some(configured.clone())
    );
    assert_eq!(adapter_order(Some(configured.clone()), None), Some(configured));
    assert_eq!(adapter_order(None, Some(ordered.clone())), Some(ordered));
    assert_eq!(adapter_order(None, None), None);
}

#[test]
fn adapter_files_are_sorted_into_loading_order() {
    let files = vec![
        b("adapter_2/adapter_model.safetensors"),
        b("adapter_1/adapter_config.json"),
        b("adapter_2/adapter_config.json"),
        b("adapter_1/adapter_model.safetensors"),
        b("adapter_3/adapter_model.safetensors"),
        b("adapter_1/adapter_extra.safetensors"),
    ];
    let order = vec![b("adapter_1"), b("adapter_2")];
    let sorted = order_adapter_files(&files, &order).unwrap();
    assert_eq!(sorted.safetensors, vec![(0, 3), (0, 5), (1, 0)]);
    assert_eq!(sorted.configs, vec![(0, 1), (1, 2)]);

    let twice = vec![b("adapter_2"), b("adapter_2")];
    let sorted = order_adapter_files(&files, &twice).unwrap();
    assert_eq!(sorted.safetensors, vec![(0, 0), (1, 0)]);
    assert_eq!(sorted.configs, vec![(0, 2), (1, 2)]);

    let nothing = order_adapter_files(&files, &vec![]).unwrap();
    assert!(nothing.safetensors.is_empty());
    assert!(nothing.configs.is_empty());
}

#[test]
fn adapter_without_files_is_reported() {
    let files = vec![b("adapter_1/adapter_model.safetensors"), b("adapter_config.json")];
    let order = vec![b("adapter_1"), b("adapter_9"), b("adapter_8")];
    assert!(matches!(order_adapter_files(&files, &order), Err(1)));
    assert!(matches!(order_adapter_files(&vec![], &order), Err(0)));
}
