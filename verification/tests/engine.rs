use nuxt_auto_import_replacer::inserter::{ImportBinding, ImportInserter};

#[test]
fn test_record_call_is_recorded_once() {
    let mut ins = ImportInserter::new();
    ins.record_call("useState".to_string());
    ins.record_call("useState".to_string());
    assert_eq!(ins.used_functions.len(), 1);
    assert_eq!(ins.used_functions[0], "useState");
}

#[test]
fn test_record_component_tag_filters_unrecognized() {
    let mut ins = ImportInserter::new();
    ins.record_component_tag("NuxtLink".to_string());
    ins.record_component_tag("MyWidget".to_string());
    assert_eq!(ins.used_functions.len(), 1);
    assert_eq!(ins.used_functions[0], "NuxtLink");
}

#[test]
fn test_needed_imports_groups_by_module_in_catalog_order() {
    let mut ins = ImportInserter::new();
    ins.record_call("useRuntimeConfig".to_string());
    ins.record_call("useState".to_string());
    ins.record_component_tag("NuxtPage".to_string());
    let groups = ins.needed_imports();
    assert_eq!(groups.len(), 2);
    assert_eq!(groups[0].module, "#imports");
    assert_eq!(groups[0].names, vec!["useState".to_string(), "useRuntimeConfig".to_string()]);
    assert_eq!(groups[1].module, "#components");
    assert_eq!(groups[1].names, vec!["NuxtPage".to_string()]);
}

#[test]
fn test_needed_imports_respects_exact_module_match() {
    let mut ins = ImportInserter::new();
    ins.record_existing_import("useState".to_string(), "react".to_string());
    ins.record_call("useState".to_string());
    let groups = ins.needed_imports();
    assert_eq!(groups.len(), 1);
    assert_eq!(groups[0].module, "#imports");
    assert_eq!(groups[0].names, vec!["useState".to_string()]);
}

#[test]
fn test_needed_imports_empty_when_covered() {
    let mut ins = ImportInserter::new();
    ins.record_existing_import("useFetch".to_string(), "#imports".to_string());
    ins.record_call("useFetch".to_string());
    let groups = ins.needed_imports();
    assert_eq!(groups.len(), 0);
}

#[test]
fn test_custom_catalog_is_honored() {
    let catalog = vec![
        ImportBinding { name: "alpha".to_string(), module: "lib-a".to_string() },
        ImportBinding { name: "Widget".to_string(), module: "lib-w".to_string() },
    ];
    let components = vec!["Widget".to_string()];
    let mut ins = ImportInserter::with_catalog(catalog, components);
    ins.record_call("alpha".to_string());
    ins.record_component_tag("Widget".to_string());
    let groups = ins.needed_imports();
    assert_eq!(groups.len(), 2);
    assert_eq!(groups[0].module, "lib-a");
    assert_eq!(groups[0].names, vec!["alpha".to_string()]);
    assert_eq!(groups[1].module, "lib-w");
    assert_eq!(groups[1].names, vec!["Widget".to_string()]);
}
