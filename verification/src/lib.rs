pub mod attributes;
pub mod call_hierarchy;
pub mod code_action;
pub mod code_lens;
pub mod completion;
pub mod document_link;
pub mod document_symbols;
pub mod edits;
pub mod eval;
pub mod folding;
pub mod format;
pub mod goto;
pub mod hover;
pub mod inlay;
pub mod intrinsics_render;
pub mod laws;
pub mod line_index;
pub mod list;
pub mod locate;
pub mod model;
pub mod order;
pub mod outside;
pub mod paths;
pub mod references;
pub mod rename;
pub mod scripts;
pub mod search;
pub mod selection_range;
pub mod semantic_tokens;
pub mod syntax;
pub mod text;
