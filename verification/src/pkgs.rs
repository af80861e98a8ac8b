pub mod rc;
pub mod registry_url;
pub mod pkg_json;
