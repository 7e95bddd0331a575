//! Byte-preserving paste of external HWPX fragments.
//!
//! Nothing here re-serialises XML: every edit is a search in the raw UTF-8
//! bytes followed by a splice of the given text with new ASCII text.
//!
//! - `defs`: merging source `<hh:charPr>`/`<hh:paraPr>`/`<hh:style>`/`<hh:borderFill>`
//!   definitions into a header, with the source-to-target ID mapping.
//! - `refs`: rewriting `*IDRef` attributes of a fragment through that mapping.
//! - `paras`: inserting top-level `<hp:p>` paragraphs into a section.
//! - `tables`: recomputing `rowCnt`/`rowAddr`/`colAddr` of `<hp:tbl>` tables.

pub mod lits;
pub mod types;
pub mod defs;
pub mod refs;
pub mod paras;
pub mod tables;

pub use types::{
    SourceDefinitions, IdRemap, RemapView, FragmentPasteError, DefKind, PasteErr,
    ParagraphPasteResult, HwpOpenResult,
};

pub use defs::build_id_remap;
pub use refs::rewrite_id_refs;
pub use paras::{paste_paragraphs_into_section, find_top_level_p_spans};
pub use tables::{recompute_table_addrs, paste_fragment_into_section};
