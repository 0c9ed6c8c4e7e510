//! Attribute binary code size to source-level structure: demangled symbol
//! names are decomposed into hierarchical path components, and per-symbol
//! sizes are aggregated into a weighted shared-prefix tree.

pub mod components;
pub mod demangle;
pub mod groups;
pub mod paths;
pub mod qpath;
pub mod sizes;
pub mod split;

pub use components::components_of_demangled;
pub use components::symbol_components;
pub use groups::add_to_group;
pub use groups::analyze_sym_modules;
pub use groups::propagate_weight;
pub use groups::Group;
pub use groups::Groups;
pub use paths::parse_path;
pub use paths::parse_path_segment;
pub use paths::Path;
pub use paths::PathSegment;
pub use qpath::parse_qpath;
pub use qpath::qpath_components;
pub use qpath::QPath;
pub use sizes::address_delta_sizes;
pub use sizes::symbol_sizes_in;
pub use sizes::SymbolInfo;
pub use split::split_components;
