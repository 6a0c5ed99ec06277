use nuxt_auto_import_replacer::inserter::ImportInserter;
use nuxt_auto_import_replacer::pipeline::{finish_transform, parse_script};
use swc_ecma_ast::{CallExpr, Callee, Expr, JSXElement, JSXElementName};
use swc_ecma_visit::{Visit, VisitWith};

struct UsageCollector<'a> {
    ins: &'a mut ImportInserter,
}

impl Visit for UsageCollector<'_> {
    fn visit_call_expr(&mut self, node: &CallExpr) {
        if let Callee::Expr(callee) = &node.callee {
            if let Expr::Ident(ident) = &**callee {
                self.ins.record_call(ident.sym.to_string());
            }
        }
        node.visit_children_with(self);
    }

    fn visit_jsx_element(&mut self, node: &JSXElement) {
        if let JSXElementName::Ident(ident) = &node.opening.name {
            self.ins.record_component_tag(ident.sym.to_string());
        }
        node.visit_children_with(self);
    }
}

fn apply_transform(source: &str) -> String {
    match parse_script(source) {
        None => source.to_string(),
        Some(mut module) => {
            let mut ins = ImportInserter::new();
            ins.collect_existing(&module);
            let mut collector = UsageCollector { ins: &mut ins };
            module.visit_with(&mut collector);
            finish_transform(&ins, &mut module, source)
        }
    }
}

#[test]
fn test_insert_import_for_define_nuxt_component() {
    let source = r#"
        defineNuxtComponent({
            setup() {
                return {};
            }
        });
        "#;
    let transformed = apply_transform(source);
    let expected_import = "import { defineNuxtComponent } from \"#imports\";";
    assert!(
        transformed.contains(expected_import),
        "Import should be added"
    );
}

#[test]
fn test_insert_multiple_imports() {
    let source = r#"
        const state = useState('count', () => 0);
        const config = useRuntimeConfig();
        const data = useFetch('/api/data');
        "#;
    let transformed = apply_transform(source);
    let expected_import = "import { useState, useRuntimeConfig, useFetch } from \"#imports\";";

    assert!(
        transformed.contains(expected_import),
        "All necessary imports should be added"
    );
}

#[test]
fn test_prevent_duplicate_import() {
    let source = r#"
        import { defineNuxtComponent, useState, useRuntimeConfig, useFetch } from '#imports';

        defineNuxtComponent({
            setup() {
                const state = useState('count', () => 0);
                const config = useRuntimeConfig();
                const data = useFetch('/api/data');
                return {};
            }
        });
        "#;
    let transformed = apply_transform(source);
    let import_count = transformed.matches("import { defineNuxtComponent, useState, useRuntimeConfig, useFetch } from '#imports';").count();
    assert_eq!(import_count, 1, "Import should not be duplicated");
}

#[test]
fn test_insert_import_for_template_components() {
    let source = r#"
        <template>
            <NuxtLink to="/about">About</NuxtLink>
            <Suspense>
                <NuxtPage />
            </Suspense>
        </template>
        "#;
    let transformed = apply_transform(source);
    let expected_import = "import { NuxtLink, Suspense, NuxtPage } from \"#components\";";
    assert!(
        transformed.contains(expected_import),
        "Template component imports should be added"
    );
}

#[test]
fn test_insert_import_when_mixed_with_existing_imports() {
    let source = r#"
        import { useState } from '#imports';

        const state = useState('count', () => 0);
        const config = useRuntimeConfig();
        "#;
    let transformed = apply_transform(source);
    let expected_import = "import { useRuntimeConfig } from \"#imports\";";

    assert!(
        transformed.contains(expected_import),
        "Missing imports should be added without duplicating existing ones"
    );
}

#[test]
fn test_no_imports_added_when_not_needed() {
    let source = r#"
        console.log('Hello, world!');
        "#;
    let transformed = apply_transform(source);
    assert!(
        !transformed.contains("import "),
        "No import should be added"
    );
}

#[test]
fn test_process_script_setup_parser_fails() {
    let script_content = "const a ="; // Incomplete code to trigger a syntax error
    let result = apply_transform(script_content);

    assert_eq!(
        result, script_content,
        "If the parser fails, the original script content should be returned"
    );
}

#[test]
fn test_end_to_end_example() {
    let source = "const s = useState('c', () => 0); const cfg = useRuntimeConfig();";
    let transformed = apply_transform(source);
    assert!(
        transformed.starts_with("import { useState, useRuntimeConfig } from \"#imports\";"),
        "Output should begin with the synthesized import declaration"
    );
    assert!(transformed.contains("useState('c'"));
    assert!(transformed.contains("useRuntimeConfig()"));
}

#[test]
fn test_transform_is_idempotent() {
    let source = "const s = useState('c', () => 0); const cfg = useRuntimeConfig();";
    let once = apply_transform(source);
    let twice = apply_transform(&once);
    assert_eq!(twice, once, "Re-running the transform must change nothing");
}

#[test]
fn test_no_op_when_every_use_is_covered() {
    let source = "import { useFetch } from '#imports';\nconst d = useFetch('/api');\n";
    let transformed = apply_transform(source);
    assert_eq!(
        transformed, source,
        "A module whose uses are all imported must be returned unchanged"
    );
}

#[test]
fn test_partial_coverage_keeps_existing_import() {
    let source = "import { useState } from '#imports';\nconst s = useState('n', () => 1);\nconst c = useRuntimeConfig();\n";
    let transformed = apply_transform(source);
    assert!(
        transformed.contains("import { useRuntimeConfig } from \"#imports\";"),
        "The uncovered identifier gets a new import"
    );
    assert!(
        transformed.contains("'#imports'"),
        "The original import statement is left in place"
    );
    assert_eq!(
        transformed.matches("useState").count(),
        2,
        "useState appears only in the old import and its call"
    );
}

#[test]
fn test_component_tag_only_usage_detected() {
    let source = "const page = <NuxtPage />;";
    let transformed = apply_transform(source);
    assert!(
        transformed.contains("import { NuxtPage } from \"#components\";"),
        "A component used only as a template tag is still detected"
    );
}

#[test]
fn test_unrecognized_names_produce_no_import() {
    let source = "const w = <MyWidget />;\nmyHelper();\n";
    let transformed = apply_transform(source);
    assert!(
        !transformed.contains("import "),
        "Names outside the catalog never produce an import"
    );
}

#[test]
fn test_import_from_other_module_does_not_satisfy() {
    let source = "import { useState } from 'react';\nconst s = useState(0);\n";
    let transformed = apply_transform(source);
    assert!(
        transformed.contains("import { useState } from \"#imports\";"),
        "An import of the same name from another module does not satisfy the catalog entry"
    );
}
