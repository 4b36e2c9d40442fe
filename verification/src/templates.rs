//! Trusted boundary to the external template engine: macro bodies and the
//! anchor-link fragment are expanded by tera. Nothing is assumed of what a
//! template produces; callers state what holds of every outcome.

use vstd::prelude::*;

verus! {

#[verifier::external_type_specification]
#[verifier::external_body]
pub struct ExTera(tera::Tera);

#[verifier::external_type_specification]
#[verifier::external_body]
pub struct ExTeraContext(tera::Context);

#[verifier::external_type_specification]
#[verifier::external_body]
pub struct ExTeraError(tera::Error);

/// Relies on tera's `Context::new`: a fresh, empty template context.
#[verifier::external_body]
pub fn context_new() -> tera::Context {
    tera::Context::new()
}

/// Relies on tera's `Context::clone`.
#[verifier::external_body]
pub fn context_clone(c: &tera::Context) -> tera::Context {
    c.clone()
}

/// Relies on tera's `Context::insert`: binds a string value to `key`.
#[verifier::external_body]
pub fn context_insert_str(c: &mut tera::Context, key: &str, v: &str) {
    c.insert(key, v);
}

/// Relies on tera's `Context::insert`: binds an integer value to `key`.
#[verifier::external_body]
pub fn context_insert_u32(c: &mut tera::Context, key: &str, v: u32) {
    c.insert(key, &v);
}

/// Relies on tera's `Context::insert`: binds an integer value to `key`.
#[verifier::external_body]
pub fn context_insert_i64(c: &mut tera::Context, key: &str, v: i64) {
    c.insert(key, &v);
}

/// Relies on tera's `Context::insert`: binds a boolean value to `key`.
#[verifier::external_body]
pub fn context_insert_bool(c: &mut tera::Context, key: &str, v: bool) {
    c.insert(key, &v);
}

/// Relies on tera's `Tera::render`: expands the named template against the
/// context. May fail (missing template, template error); the outcome is
/// opaque to the library's proofs.
#[verifier::external_body]
pub fn tera_render(t: &tera::Tera, name: &str, c: &tera::Context) -> Result<String, tera::Error> {
    t.render(name, c)
}

/// Relies on tera::Error's `Display` impl for a readable message.
#[verifier::external_body]
pub fn tera_error_msg(e: &tera::Error) -> String {
    e.to_string()
}

} // verus!
