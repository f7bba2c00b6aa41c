//! The template renderer: `handlebars`, with the variables as a `toml` table.

use vstd::prelude::*;

verus! {

/// `handlebars::Handlebars`, the registry of templates and helpers. Its content
/// is not looked at here.
#[verifier::external_type_specification]
#[verifier::external_body]
pub struct ExHandlebars<'reg>(handlebars::Handlebars<'reg>);

/// `handlebars::RenderError`, the failure of a rendering. Its content is not
/// looked at here.
#[verifier::external_type_specification]
#[verifier::external_body]
pub struct ExRenderError(handlebars::RenderError);

/// `toml::map::Map`, the table of a TOML document. Its content is not looked at
/// here.
#[verifier::external_type_specification]
#[verifier::external_body]
#[verifier::reject_recursive_types(K)]
#[verifier::reject_recursive_types(V)]
pub struct ExTomlMap<K, V>(toml::map::Map<K, V>);

/// `toml::Value`, a value of a TOML document. Its content is not looked at here.
#[verifier::external_type_specification]
#[verifier::external_body]
pub struct ExTomlValue(toml::Value);

/// The variables that templates are rendered with: a table that is handed to the
/// renderer as it is.
pub type Variables = toml::value::Table;

/// Calls `handlebars::Handlebars::render_template`, which renders `template` with
/// `variables` as its data. Not verified, and nothing is claimed of the result:
/// what comes out depends on the helpers that the registry holds, and a helper
/// of the caller's that panics makes the call panic.
#[verifier::external_body]
pub(crate) fn render_template(
    handlebars: &handlebars::Handlebars<'_>,
    template: &str,
    variables: &Variables,
) -> (r: Result<String, handlebars::RenderError>) {
    handlebars.render_template(template, variables)
}

/// The text of a `handlebars::RenderError`, as its `Display` writes it. Not
/// verified, and nothing is claimed of the text.
#[verifier::external_body]
pub(crate) fn render_error_text(error: &handlebars::RenderError) -> (r: String) {
    error.to_string()
}

} // verus!
