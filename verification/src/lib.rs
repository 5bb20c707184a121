//! Rewrites the links and image references of exported Markdown notes into
//! the root-relative form that the Zola site generator expects.

pub mod export;
pub mod passthrough;
pub mod path_lemmas;
pub mod paths;
pub mod postprocessors;
pub mod text;
pub mod utils;

pub use postprocessors::{
    convert_to_zola_image_with_context, convert_to_zola_link_with_context,
    create_zola_link_postprocessor, resolve_relative_path, Context, LinkType, MarkdownEvent,
    PostprocessorResult, ZolaLinkPostprocessor,
};
