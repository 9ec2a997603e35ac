//! Verified core of the ship model cache builder: the text formats of the
//! cache files, the database queries, the triangle indices of model meshes,
//! the compartment registry and the order in which the caches are rebuilt.
pub mod cache_file;
pub mod data_array;
pub mod mesh_index;
pub mod query;
pub mod rebuild;
pub mod rebuild_laws;
pub mod registry;
pub mod text;
