//! Host-side runtime support for a sandboxed bytecode execution environment:
//! a resource table handing out reusable integer handles for opaque host
//! objects, with last-freed-first reuse and a reserved built-in range; a
//! static normalization pass that patches guest binary modules with a
//! backing table and save/drop functions carrying that discipline; and a
//! process registry that owns process identity and signal routing for one
//! isolation domain.

pub mod env;
pub mod normalizer;
pub mod process;
pub mod registry_map;
pub mod resource_table;
