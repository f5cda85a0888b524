use monux::plugin::{apply_plugin_outputs, is_valid_plugin_name, parse_markers, plugin_path};

#[test]
fn markers_are_found_in_order() {
    let markers = parse_markers("x _$$ clock $$_ y _$$bad name$$_ _$$ z-1 $$_");
    assert_eq!(markers.len(), 2);
    assert_eq!((markers[0].start, markers[0].end, markers[0].name.as_str()), (2, 15, "clock"));
    assert_eq!(markers[1].name, "z-1");
}

#[test]
fn outputs_replace_their_markers() {
    let source = "x _$$ clock $$_ y";
    let markers = parse_markers(source);
    let (out, report) = apply_plugin_outputs(source, &markers, &vec![Ok("12:00".to_string())]);
    assert_eq!(out, "x 12:00 y");
    assert_eq!(report.replacements, 1);
    assert!(report.errors.is_empty());
    let (out, report) = apply_plugin_outputs(source, &markers, &vec![Err("boom".to_string())]);
    assert_eq!(out, source);
    assert_eq!(report.replacements, 0);
    assert_eq!(report.errors, vec!["clock: boom"]);
}

#[test]
fn plugin_names_and_paths() {
    assert!(is_valid_plugin_name("a-b_1"));
    assert!(!is_valid_plugin_name("a b"));
    assert!(!is_valid_plugin_name(""));
    assert_eq!(plugin_path("/p", "x"), "/p/x.wasm");
}

#[test]
fn markers_sit_at_byte_offsets() {
    let source = "é _$$ clock $$_ ü";
    let markers = parse_markers(source);
    assert_eq!(markers.len(), 1);
    assert_eq!((markers[0].start, markers[0].end), (3, 16));
    assert_eq!(&source[markers[0].start..markers[0].end], "_$$ clock $$_");
    let (out, report) = apply_plugin_outputs(source, &markers, &vec![Ok("12:00".to_string())]);
    assert_eq!(out, "é 12:00 ü");
    assert_eq!(report.replacements, 1);
}
