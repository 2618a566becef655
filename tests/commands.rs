use runtime_inspect::command::{
    call_outcome, method_name, module_fingerprint, parse_call_arg, parse_data_arg, well_known, ArgsError, DecodeCmd,
    ExecutionError, WellKnown,
};

#[test]
fn call_arg_strips_prefix_and_space() {
    assert_eq!(parse_call_arg("0x0a0B ff\n"), None);
    assert_eq!(parse_call_arg("  0x0a0B\n"), None);
    assert_eq!(parse_call_arg("0x0a0Bff\n"), Some(vec![0x0a, 0x0b, 0xff]));
    assert_eq!(parse_call_arg("0x0x01"), Some(vec![0x01]));
    assert_eq!(parse_call_arg(""), Some(vec![]));
}

#[test]
fn data_arg_is_hex() {
    assert_eq!(parse_data_arg("0x0100000001"), Some(vec![1, 0, 0, 0, 1]));
    assert_eq!(parse_data_arg("123"), None);
    assert_eq!(parse_data_arg("zz"), None);
}

#[test]
fn method_name_joins_with_underscore() {
    assert_eq!(method_name("Metadata", "metadata"), "Metadata_metadata");
}

#[test]
fn native_fallback_is_refused() {
    assert_eq!(call_outcome(Ok(vec![1]), true), Err(ExecutionError::NativeFallbackDetected));
    assert_eq!(call_outcome(Ok(vec![1]), false), Ok(vec![1]));
    assert_eq!(
        call_outcome(Err(ExecutionError::ExportNotFound), false),
        Err(ExecutionError::ExportNotFound)
    );
}

#[test]
fn well_known_calls() {
    assert_eq!(well_known("Metadata", "metadata_versions"), WellKnown::MetadataVersions);
    assert_eq!(well_known("Metadata", "metadata"), WellKnown::Metadata);
    assert_eq!(well_known("Core", "version"), WellKnown::CoreVersion);
    assert_eq!(well_known("Core", "metadata"), WellKnown::Other);
}

#[test]
fn decode_needs_a_type() {
    let empty = DecodeCmd { as_typ: String::new(), data: "00".to_string() };
    assert_eq!(empty.check_args(), Err(ArgsError::TypeRequired));
    let named = DecodeCmd { as_typ: "Call".to_string(), data: "00".to_string() };
    assert_eq!(named.check_args(), Ok(()));
}

#[test]
fn fingerprint_is_blake2_256() {
    let empty = module_fingerprint(&[]);
    assert_eq!(empty.len(), 32);
    assert_eq!(empty[0], 0x0e);
    assert_eq!(empty[31], 0xa8);
    assert_ne!(module_fingerprint(b"abc"), empty);
}
