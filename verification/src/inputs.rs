//! Pinned external inputs for reproducible figure renders.
//!
//! Every path is relative to the user's home directory, which the caller
//! reads from the environment and passes in as `home`.

use crate::paths::{join_path, joined};
use vstd::prelude::*;

verus! {

/// The model that produced the pinned predictions.
pub const MODEL_NAME: &'static str = "Virtua-12M-v0.1";

/// The pinned prediction UFO, relative to the font-garden checkout.
pub const MODEL_PREDICTION: &'static str = "runs/v08/pred.ufo";

/// The pinned completion SVG, relative to the font-garden checkout.
pub const COMPLETION_SVG: &'static str = "runs/v08/complete-R.svg";

/// The pinned bolden SVG, relative to the font-garden checkout.
pub const BOLDEN_SVG: &'static str = "runs/night1/bolden-g.svg";

/// The pinned training log, relative to the font-garden checkout.
pub const LOSS_LOG: &'static str = "runs/v08/run.log";

/// The Geist Mono variable font.
pub fn geist_mono(home: &str) -> (p: String)
    ensures
        p@ == joined(home@, "GH/repos/google-fonts/ofl/geistmono/GeistMono[wght].ttf"@),
{
    join_path(home, "GH/repos/google-fonts/ofl/geistmono/GeistMono[wght].ttf")
}

/// The Virtua Grotesk UFO sources.
pub fn virtua_sources(home: &str) -> (p: String)
    ensures
        p@ == joined(home@, "GH/repos/virtua-grotesk/sources"@),
{
    join_path(home, "GH/repos/virtua-grotesk/sources")
}

/// The font-garden-lab checkout.
pub fn font_garden(home: &str) -> (p: String)
    ensures
        p@ == joined(home@, "GH/repos/font-garden-lab"@),
{
    join_path(home, "GH/repos/font-garden-lab")
}

/// The pinned model prediction inside the font-garden-lab checkout.
pub fn model_prediction(home: &str) -> (p: String)
    ensures
        p@ == joined(joined(home@, "GH/repos/font-garden-lab"@), "runs/v08/pred.ufo"@),
{
    let garden = font_garden(home);
    join_path(garden.as_str(), MODEL_PREDICTION)
}

} // verus!
