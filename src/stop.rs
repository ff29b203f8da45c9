//! The emergency stop: a page whose text says whether the bot may run.
use vstd::prelude::*;
use crate::text::same_text;

verus! {

pub const BOT_NAME: &'static str = "QueueBot";

pub const QUEUE_PAGE: &'static str = "プロジェクト:カテゴリ関連/キュー";

pub const EMERGENCY_STOP_PAGE: &'static str = "プロジェクト:カテゴリ関連/キュー/緊急停止";

/// The text that lets the bot run.
pub const RUNNING: &'static str = "動作中";

/// Whether the stop page, given as its text nodes in document order (the
/// first being its title), asks the bot to stop: it does unless some text
/// after the title is exactly [`RUNNING`].
pub open spec fn stop_requested(texts: Seq<Seq<char>>) -> bool {
    forall|i: int| 1 <= i < texts.len() ==> #[trigger] texts[i] != RUNNING@
}

pub fn is_emergency_stopped(texts: &Vec<String>) -> (r: bool)
    ensures
        r == stop_requested(texts@.map_values(|t: String| t@)),
{
    let ghost tv = texts@.map_values(|t: String| t@);
    let mut k: usize = 1;
    while k < texts.len()
        invariant
            1 <= k,
            tv == texts@.map_values(|t: String| t@),
            forall|i: int| 1 <= i < k && i < tv.len() ==> #[trigger] tv[i] != RUNNING@,
        decreases texts.len() - k,
    {
        assert(tv[k as int] == texts@[k as int]@);
        if same_text(texts[k].as_str(), RUNNING) {
            return false;
        }
        k = k + 1;
    }
    true
}

} // verus!
