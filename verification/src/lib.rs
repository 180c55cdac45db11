use vstd::prelude::*;

pub mod ansi;
pub mod ansi_laws;
pub mod blocks;
pub mod byte_pos;
pub mod cards_page;
pub mod color_names;
pub mod data;
pub mod decimal;
pub mod editor_page;
pub mod formatting;
pub mod geometry;
pub mod graphemes;
pub mod hash;
pub mod highlight;
pub mod inline;
pub mod id_set;
pub mod image_frames;
pub mod iter;
pub mod keys;
pub mod kitty;
pub mod kitty_cmd;
pub mod list;
pub mod logs_page;
pub mod markup;
pub mod nav;
pub mod page_frames;
pub mod markup_items;
pub mod markup_view;
pub mod queries;
pub mod review;
pub mod rich;
pub mod scroll;
pub mod search_page;
pub mod settings;
pub mod settings_page;
pub mod shortcut;
pub mod style;
pub mod tags_page;
pub mod text;
pub mod text_editor;
pub mod text_editor2;
pub mod text_input;
pub mod text_segment;
pub mod time;
pub mod token_list;
pub mod typemap;
pub mod words;

verus! {

} // verus!
