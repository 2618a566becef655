use runtime_inspect::command::PatternError;
use runtime_inspect::registry::{join_path, PortableType, Primitive, ResolveError, TypeDef, TypeRegistry};

fn entry(id: u32, path: &[&str]) -> PortableType {
    PortableType {
        id,
        path: path.iter().map(|s| s.to_string()).collect(),
        type_params: vec![],
        type_def: TypeDef::Primitive(Primitive::U8),
    }
}

#[test]
fn suffix_lookup_single_match() {
    let reg = TypeRegistry {
        types: vec![entry(3, &["frame", "Event"]), entry(8, &["runtime", "Call"]), entry(9, &["x", "Calls"])],
    };
    assert_eq!(reg.find_by_suffix("Call"), Ok(8));
}

#[test]
fn suffix_lookup_ambiguous_lists_both() {
    let reg = TypeRegistry {
        types: vec![entry(8, &["runtime", "Call"]), entry(2, &["x"]), entry(11, &["pallet", "Call"])],
    };
    assert_eq!(reg.find_by_suffix("Call"), Err(ResolveError::Ambiguous(vec![8, 11])));
}

#[test]
fn suffix_lookup_not_found_and_case_sensitive() {
    let reg = TypeRegistry { types: vec![entry(8, &["runtime", "Call"])] };
    assert_eq!(reg.find_by_suffix("call"), Err(ResolveError::NotFound));
}

#[test]
fn suffix_spans_segments() {
    let reg = TypeRegistry { types: vec![entry(8, &["runtime", "Call"])] };
    assert_eq!(reg.find_by_suffix("e::Call"), Ok(8));
}

#[test]
fn join_path_uses_double_colons() {
    let path = vec!["a".to_string(), "bc".to_string(), "d".to_string()];
    let joined: String = join_path(&path).into_iter().collect();
    assert_eq!(joined, "a::bc::d");
    assert!(join_path(&vec![]).is_empty());
}

#[test]
fn position_finds_first_entry() {
    let reg = TypeRegistry { types: vec![entry(4, &[]), entry(9, &[]), entry(9, &["dup"])] };
    assert_eq!(reg.position(9), Some(1));
    assert_eq!(reg.position(5), None);
}

#[test]
fn pattern_lookup_case_insensitive() {
    let reg = TypeRegistry {
        types: vec![entry(1, &["runtime", "RuntimeCall"]), entry(2, &["frame", "Event"]), entry(3, &["pallet", "Call"])],
    };
    assert_eq!(reg.find_by_pattern("call$"), Ok(vec![1, 3]));
    assert_eq!(reg.resolve_by_pattern("EVENT"), Ok(2));
    assert_eq!(reg.resolve_by_pattern("call"), Err(PatternError::Ambiguous(vec![1, 3])));
    assert_eq!(reg.resolve_by_pattern("nothing"), Err(PatternError::NotFound));
    assert_eq!(reg.find_by_pattern("("), Err(PatternError::InvalidPattern));
}

#[test]
fn display_name_appends_generic_parameters() {
    let mut t = entry(4, &["sp_runtime", "generic", "Header"]);
    let plain: String = t.display_name().into_iter().collect();
    assert_eq!(plain, "sp_runtime::generic::Header");
    t.type_params = vec!["Number".to_string(), "Hash".to_string()];
    let named: String = t.display_name().into_iter().collect();
    assert_eq!(named, "sp_runtime::generic::Header<Number, Hash>");
}
