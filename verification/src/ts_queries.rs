//! Capture queries that extract code entities and dependency sources
//! from JavaScript and TypeScript syntax trees. Capture names follow the
//! pattern `<kind>.<field>`: declarations are captured through their
//! `.name` identifier — or, for anonymous default-exported declarations,
//! through a `.anon` capture of the whole declaration — and dependencies
//! through their `.source` string: static imports and re-exports,
//! dynamic `import()` calls, and `require()` calls alike.

use vstd::prelude::*;

verus! {

/// Entity and dependency query for the TypeScript and TSX grammars.
pub fn ts_entity_and_dep_query() -> (r: &'static str)
    ensures
        r@ == spec_ts_query(),
{
    "(class_declaration name: (type_identifier) @class.name)\n(interface_declaration name: (type_identifier) @interface.name)\n(function_declaration name: (identifier) @function.name)\n(variable_declarator name: (identifier) @function.name value: (arrow_function))\n(method_definition name: (property_identifier) @method.name)\n(import_statement source: (string) @import.source)\n(export_statement source: (string) @export.source)\n(call_expression function: (import) arguments: (arguments (string) @import.source))\n(call_expression function: (identifier) @import.func arguments: (arguments (string) @import.source) (#eq? @import.func \"require\"))\n(export_statement value: (function_expression) @function.anon)\n(export_statement value: (arrow_function) @function.anon)\n(export_statement value: (class) @class.anon)\n"
}

/// The TypeScript query, as a character sequence.
pub open spec fn spec_ts_query() -> Seq<char> {
    "(class_declaration name: (type_identifier) @class.name)\n(interface_declaration name: (type_identifier) @interface.name)\n(function_declaration name: (identifier) @function.name)\n(variable_declarator name: (identifier) @function.name value: (arrow_function))\n(method_definition name: (property_identifier) @method.name)\n(import_statement source: (string) @import.source)\n(export_statement source: (string) @export.source)\n(call_expression function: (import) arguments: (arguments (string) @import.source))\n(call_expression function: (identifier) @import.func arguments: (arguments (string) @import.source) (#eq? @import.func \"require\"))\n(export_statement value: (function_expression) @function.anon)\n(export_statement value: (arrow_function) @function.anon)\n(export_statement value: (class) @class.anon)\n"@
}

/// Entity and dependency query for the JavaScript and JSX grammars.
pub fn js_entity_and_dep_query() -> (r: &'static str)
    ensures
        r@ == spec_js_query(),
{
    "(class_declaration name: (identifier) @class.name)\n(function_declaration name: (identifier) @function.name)\n(variable_declarator name: (identifier) @function.name value: (arrow_function))\n(method_definition name: (property_identifier) @method.name)\n(import_statement source: (string) @import.source)\n(export_statement source: (string) @export.source)\n(call_expression function: (import) arguments: (arguments (string) @import.source))\n(call_expression function: (identifier) @import.func arguments: (arguments (string) @import.source) (#eq? @import.func \"require\"))\n(export_statement value: (function_expression) @function.anon)\n(export_statement value: (arrow_function) @function.anon)\n(export_statement value: (class) @class.anon)\n"
}

/// The JavaScript query, as a character sequence.
pub open spec fn spec_js_query() -> Seq<char> {
    "(class_declaration name: (identifier) @class.name)\n(function_declaration name: (identifier) @function.name)\n(variable_declarator name: (identifier) @function.name value: (arrow_function))\n(method_definition name: (property_identifier) @method.name)\n(import_statement source: (string) @import.source)\n(export_statement source: (string) @export.source)\n(call_expression function: (import) arguments: (arguments (string) @import.source))\n(call_expression function: (identifier) @import.func arguments: (arguments (string) @import.source) (#eq? @import.func \"require\"))\n(export_statement value: (function_expression) @function.anon)\n(export_statement value: (arrow_function) @function.anon)\n(export_statement value: (class) @class.anon)\n"@
}

} // verus!
