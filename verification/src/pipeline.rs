use vstd::prelude::*;

use crate::inserter::{bindings_view, group_view, groups_view, ImportBinding, ImportGroup,
    ImportInserter};
use crate::model::{group_bindings, groups_bindings, BindingModel};
use swc_common::sync::Lrc;
use swc_common::{FileName, SourceMap};
use swc_ecma_ast::{
    EsVersion, ImportDecl, ImportNamedSpecifier, ImportSpecifier, Module, ModuleDecl, ModuleItem,
    Str,
};
use swc_ecma_codegen::text_writer::JsWriter;
use swc_ecma_codegen::Emitter;
use swc_ecma_parser::lexer::Lexer;
use swc_ecma_parser::{EsSyntax, Parser as SwcParser, StringInput, Syntax};

verus! {

#[verifier::external_type_specification]
#[verifier::external_body]
pub struct ExModule(Module);

#[verifier::external_type_specification]
#[verifier::external_body]
pub struct ExModuleItem(ModuleItem);

/// The parse outcome for a script text: whether the parser accepts it as a
/// module. Parsing is a function of the text alone.
pub uninterp spec fn parses(s: Seq<char>) -> bool;

/// The (identifier, module specifier) pairs of the named bindings of a
/// module's top-level import declarations, in declaration order. Default and
/// namespace specifiers carry no named binding and contribute no pair.
pub uninterp spec fn module_named_imports(m: Module) -> Seq<BindingModel>;

/// The named-import bindings a single module item declares, in order; empty
/// for anything but an import declaration with named specifiers.
pub uninterp spec fn item_named_imports(item: ModuleItem) -> Seq<BindingModel>;

/// What the code generator prints for a module, or `None` when emission
/// fails. Emission is a function of the tree alone.
pub uninterp spec fn emitted(m: Module) -> Option<Seq<char>>;

/// The named-import bindings of a sequence of module items, flattened in
/// order.
pub open spec fn items_bindings(s: Seq<ModuleItem>) -> Seq<BindingModel>
    decreases s.len(),
{
    if s.len() == 0 {
        Seq::empty()
    } else {
        items_bindings(s.drop_last()) + item_named_imports(s.last())
    }
}

/// Relies on swc_ecma_parser::Parser::parse_module: builds a lexer and
/// parser for the standard module grammar with element-tag syntax enabled
/// and parses the script. `None` reports a parse failure; the outcome
/// depends on the text alone.
#[verifier::external_body]
fn parse_module_text(script: &str) -> (r: Option<Module>)
    ensures
        (r is Some) == parses(script@),
{
    let cm: Lrc<SourceMap> = Default::default();
    let fm = cm.new_source_file(FileName::Anon.into(), script.to_string());
    let mut syntax: EsSyntax = Default::default();
    syntax.jsx = true;
    let lexer = Lexer::new(Syntax::Es(syntax), EsVersion::Es2022, StringInput::from(&*fm), None);
    SwcParser::new_from(lexer).parse_module().ok()
}

/// Relies on the public fields of swc_ecma_ast::Module, ImportDecl and
/// ImportNamedSpecifier: converts every named binding of every top-level
/// import declaration into an ImportBinding, in declaration order, which is
/// what `module_named_imports` names. Default and namespace specifiers carry
/// no named binding and are passed over.
#[verifier::external_body]
fn existing_named_imports(module: &Module) -> (r: Vec<ImportBinding>)
    ensures
        bindings_view(r@) == module_named_imports(*module),
{
    let mut out = Vec::new();
    for item in &module.body {
        if let ModuleItem::ModuleDecl(ModuleDecl::Import(imp)) = item {
            for spec in &imp.specifiers {
                if let ImportSpecifier::Named(named) = spec {
                    let name = named.local.sym.to_string();
                    let module_name = imp.src.value.to_string_lossy().into_owned();
                    out.push(ImportBinding { name, module: module_name });
                }
            }
        }
    }
    out
}

/// Relies on the swc_ecma_ast node constructors: builds one genuine named
/// import declaration node whose named bindings are exactly the group's
/// identifiers paired with the group's module specifier, in order.
#[verifier::external_body]
fn make_import_item(group: &ImportGroup) -> (r: ModuleItem)
    ensures
        item_named_imports(r) == group_bindings(group_view(*group)),
{
    let span = swc_common::Span::default();
    let specifiers = group.names.iter().map(|n| ImportSpecifier::Named(
        ImportNamedSpecifier { span, local: n.as_str().into(), imported: None, is_type_only: false },
    )).collect();
    let src = Box::new(Str { span, value: group.module.as_str().into(), raw: None });
    ModuleItem::ModuleDecl(ModuleDecl::Import(ImportDecl {
        span, specifiers, src, type_only: false, with: None, phase: Default::default(),
    }))
}

/// Relies on Vec::insert on the module body: places the given items before
/// all existing statements, keeping both relative orders, so the module's
/// named imports become the items' bindings followed by the old ones.
#[verifier::external_body]
fn prepend_items(module: &mut Module, items: Vec<ModuleItem>)
    ensures
        module_named_imports(*final(module)) == items_bindings(items@) + module_named_imports(
            *old(module),
        ),
{
    for (i, item) in items.into_iter().enumerate() {
        module.body.insert(i, item);
    }
}

/// Relies on swc_ecma_codegen::Emitter::emit_module: serializes the module
/// back to source text, which is what `emitted` names. `None` reports an
/// emitter or encoding failure.
#[verifier::external_body]
fn emit_module_text(module: &Module) -> (r: Option<String>)
    ensures
        (r is Some) == (emitted(*module) is Some),
        r is Some ==> r.unwrap()@ == emitted(*module).unwrap(),
{
    let cm: Lrc<SourceMap> = Default::default();
    let mut buf: Vec<u8> = Vec::new();
    {
        let wr = JsWriter::new(cm.clone(), "\n", &mut buf, None);
        let mut emitter = Emitter { cfg: Default::default(), cm, comments: None, wr };
        if emitter.emit_module(module).is_err() {
            return None;
        }
    }
    String::from_utf8(buf).ok()
}

/// Parse a block of script source into a syntax tree. `Some` is returned
/// exactly when the text parses; on `None` the caller falls back to the
/// original text unchanged.
pub fn parse_script(script: &str) -> (r: Option<Module>)
    ensures
        (r is Some) == parses(script@),
{
    parse_module_text(script)
}

impl ImportInserter {
    /// Scan the top-level import declarations of `module` and record every
    /// named binding, in declaration order, after whatever was already
    /// recorded. Top-level only and non-recursive by design.
    pub fn collect_existing(&mut self, module: &Module)
        ensures
            final(self).imports == old(self).imports,
            final(self).components == old(self).components,
            final(self).used_functions == old(self).used_functions,
            final(self).existing() == old(self).existing() + module_named_imports(*module),
    {
        let found = existing_named_imports(module);
        self.load_existing_imports(&found);
    }
}

/// Synthesize the still-missing import declarations from the engine's
/// recorded state, splice them as new leading statements of `module`, and
/// serialize the result. When nothing is needed the tree is untouched and
/// the original text comes back verbatim; otherwise the module gains exactly
/// the synthesized bindings in front of its old ones, and the result is its
/// emission, or the original text when the serializer fails.
pub fn finish_transform(
    inserter: &ImportInserter,
    module: &mut Module,
    original: &str,
) -> (r: String)
    ensures
        inserter.synthesized().len() == 0 ==> r@ == original@ && *final(module) == *old(module),
        inserter.synthesized().len() > 0 ==> module_named_imports(*final(module))
            == groups_bindings(inserter.synthesized()) + module_named_imports(*old(module)),
        inserter.synthesized().len() > 0 ==> r@ == (match emitted(*final(module)) {
            Some(t) => t,
            None => original@,
        }),
{
    let groups = inserter.needed_imports();
    if groups.len() == 0 {
        return original.to_owned();
    }
    let ghost gv = groups_view(groups@);
    let mut items: Vec<ModuleItem> = Vec::new();
    let mut k: usize = 0;
    while k < groups.len()
        invariant
            0 <= k <= groups@.len(),
            gv == groups_view(groups@),
            gv == inserter.synthesized(),
            items_bindings(items@) == groups_bindings(gv.take(k as int)),
        decreases groups@.len() - k,
    {
        let ghost prev_items = items@;
        let item = make_import_item(&groups[k]);
        items.push(item);
        proof {
            assert(group_view(groups@[k as int]) == gv[k as int]);
            assert(items@.drop_last() =~= prev_items);
            assert(items@.last() == item);
            assert(gv.take(k as int + 1).drop_last() =~= gv.take(k as int));
            assert(gv.take(k as int + 1).last() == gv[k as int]);
        }
        k += 1;
    }
    proof {
        assert(gv.take(gv.len() as int) =~= gv);
    }
    prepend_items(module, items);
    match emit_module_text(module) {
        Some(s) => s,
        None => original.to_owned(),
    }
}

} // verus!
