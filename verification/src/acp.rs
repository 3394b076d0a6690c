//! The agent side: content blocks and the session pool.

pub mod listing;
pub mod pool;
pub mod resolve;
pub mod setup;
pub mod workdir;
pub mod workspace;

use vstd::prelude::*;

verus! {

/// A piece of a prompt.
#[derive(Debug, PartialEq, Eq)]
pub enum ContentBlock {
    Text { text: String },
    /// A base64-encoded image.
    Image { media_type: String, data: String },
}

/// What a content block says.
pub enum Block {
    Text(Seq<char>),
    Image { media_type: Seq<char>, data: Seq<char> },
}

impl View for ContentBlock {
    type V = Block;

    open spec fn view(&self) -> Block {
        match self {
            ContentBlock::Text { text } => Block::Text(text@),
            ContentBlock::Image { media_type, data } => Block::Image {
                media_type: media_type@,
                data: data@,
            },
        }
    }
}

/// What a list of content blocks says.
pub open spec fn blocks(v: Seq<ContentBlock>) -> Seq<Block> {
    v.map_values(|b: ContentBlock| b@)
}

impl Clone for ContentBlock {
    fn clone(&self) -> (r: Self)
        ensures
            r@ == self@,
    {
        match self {
            ContentBlock::Text { text } => ContentBlock::Text { text: text.clone() },
            ContentBlock::Image { media_type, data } => ContentBlock::Image {
                media_type: media_type.clone(),
                data: data.clone(),
            },
        }
    }
}

} // verus!
