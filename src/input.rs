use vstd::prelude::*;

use crate::keymap::Keymap;
use crate::render_opts::RenderOpts;

verus! {

/// Everything known about a keyboard: its keymap and its render options.
#[derive(Debug)]
pub struct InputInfo {
    pub keymap: Keymap,
    pub render_opts: RenderOpts,
}

} // verus!
