use vstd::prelude::*;

pub mod convolution;
pub mod converters;
pub mod engine;
pub mod folders;
pub mod gapless;
pub mod library;
pub mod lyrics;
pub mod media;
pub mod output;
pub mod pcm_cache;
pub mod playback;
pub mod presets;
pub mod session;
pub mod settings;
pub mod shuffle;
pub mod sidebar;
pub mod text;
pub mod tick;
pub mod toasts;
pub mod track_list;

verus! {

} // verus!
