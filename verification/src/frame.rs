//! Telemetry frames: fixed-size snapshots of the game's counters, received
//! once per telemetry tick from the payload module running inside the game.

use vstd::prelude::*;
use crate::bytes::{read_le_u32, u32_of_le_bytes};

verus! {

/// Number of segment slots in a run: four stages per loop, two loops.
pub const SEGMENTS: usize = 8;

/// Number of 32-bit words in a frame: difficulty, stage, loop counter and
/// one score component per segment slot.
pub const FRAME_WORDS: usize = 11;

/// Size in bytes of one frame datagram; any other length is malformed.
pub const FRAME_BYTES: usize = 44;

/// Largest value a single score component may carry. Eight components at
/// this bound still sum without overflowing 32 bits; a larger component is
/// rejected as malformed telemetry.
pub const SCORE_COMPONENT_MAX: u32 = 0x0FFFFFFF;

/// The stage sentinel that means "in the menu, no stage running".
pub const MENU_STAGE: u32 = 0;

/// The canonical first stage of a playthrough.
pub const FIRST_STAGE: u32 = 1;

/// The only difficulty mode whose counters this engine interprets.
pub const SUPPORTED_DIFFICULTY: u32 = 0;

/// Mathematical image of a frame.
#[verifier::ext_equal]
pub ghost struct FrameModel {
    pub difficulty: u32,
    pub stage: u32,
    pub game_loop: u32,
    pub scores: Seq<u32>,
}

/// One snapshot of the game's counters at an instant.
pub struct Frame {
    /// Selects the game mode; only `SUPPORTED_DIFFICULTY` is interpreted.
    pub difficulty: u32,
    /// Cumulative stage index, or `MENU_STAGE` while in the menu.
    pub stage: u32,
    /// Number of completed loop cycles.
    pub game_loop: u32,
    /// The component scores; their sum is the cumulative total score.
    pub scores: Vec<u32>,
}

impl View for Frame {
    type V = FrameModel;

    open spec fn view(&self) -> FrameModel {
        FrameModel {
            difficulty: self.difficulty,
            stage: self.stage,
            game_loop: self.game_loop,
            scores: self.scores@,
        }
    }
}

/// True when every score component is within the bound that keeps their
/// sum inside 32 bits.
pub open spec fn scores_in_range(s: Seq<u32>) -> bool {
    forall|i: int| 0 <= i < s.len() ==> s[i] <= SCORE_COMPONENT_MAX
}

/// A well-formed frame: one score component per segment slot, each in range.
pub open spec fn frame_wf(f: FrameModel) -> bool {
    &&& f.scores.len() == SEGMENTS
    &&& scores_in_range(f.scores)
}

/// Sum of a sequence of score components.
pub open spec fn sum_scores(s: Seq<u32>) -> int
    decreases s.len(),
{
    if s.len() == 0 {
        0
    } else {
        sum_scores(s.drop_last()) + s.last()
    }
}

/// The cumulative total score a frame reports.
pub open spec fn total_of(f: FrameModel) -> int {
    sum_scores(f.scores)
}

/// An all-zero score vector sums to zero.
pub proof fn lemma_sum_scores_all_zero(s: Seq<u32>)
    requires
        forall|i: int| 0 <= i < s.len() ==> s[i] == 0,
    ensures
        sum_scores(s) == 0,
    decreases s.len(),
{
    if s.len() > 0 {
        lemma_sum_scores_all_zero(s.drop_last());
    }
}

/// A sum of bounded components is itself bounded.
pub proof fn lemma_sum_scores_bound(s: Seq<u32>)
    requires
        forall|i: int| 0 <= i < s.len() ==> s[i] <= SCORE_COMPONENT_MAX,
    ensures
        0 <= sum_scores(s) <= s.len() * SCORE_COMPONENT_MAX,
    decreases s.len(),
{
    if s.len() > 0 {
        lemma_sum_scores_bound(s.drop_last());
    }
}

impl Frame {
    pub open spec fn wf(&self) -> bool {
        frame_wf(self@)
    }

    /// A frame as the menu reports it: no stage, no loop, all counters zero.
    pub fn menu() -> (r: Frame)
        ensures
            r.wf(),
            r@.difficulty == SUPPORTED_DIFFICULTY,
            r@.stage == MENU_STAGE,
            r@.game_loop == 0,
            r@.scores =~= Seq::new(SEGMENTS as nat, |i: int| 0u32),
    {
        let mut scores: Vec<u32> = Vec::new();
        let mut i: usize = 0;
        while i < SEGMENTS
            invariant
                i <= SEGMENTS,
                scores@ =~= Seq::new(i as nat, |j: int| 0u32),
            decreases SEGMENTS - i,
        {
            scores.push(0);
            i += 1;
        }
        Frame { difficulty: SUPPORTED_DIFFICULTY, stage: MENU_STAGE, game_loop: 0, scores }
    }

    /// True while the frame reports the menu rather than a running stage.
    pub fn is_menu(&self) -> (r: bool)
        ensures
            r == (self@.stage == MENU_STAGE),
    {
        self.stage == MENU_STAGE
    }

    /// True when the frame reports the canonical first stage.
    pub fn is_first_stage(&self) -> (r: bool)
        ensures
            r == (self@.stage == FIRST_STAGE),
    {
        self.stage == FIRST_STAGE
    }

    /// The cumulative total score: the sum of the component scores.
    pub fn total_score(&self) -> (r: u32)
        requires
            self.wf(),
        ensures
            r == total_of(self@),
    {
        let mut acc: u32 = 0;
        let mut i: usize = 0;
        while i < self.scores.len()
            invariant
                self.wf(),
                i <= self.scores@.len(),
                acc == sum_scores(self.scores@.take(i as int)),
                acc <= i * SCORE_COMPONENT_MAX,
            decreases self.scores@.len() - i,
        {
            proof {
                assert(self.scores@.take(i + 1).drop_last() =~= self.scores@.take(i as int));
                assert(self.scores@.take(i + 1).last() == self.scores@[i as int]);
            }
            acc = acc + self.scores[i];
            i += 1;
        }
        proof {
            assert(self.scores@.take(self.scores@.len() as int) =~= self.scores@);
        }
        acc
    }
}

/// The `k`-th 32-bit word of a frame datagram.
pub open spec fn frame_word(data: Seq<u8>, k: int) -> u32 {
    u32_of_le_bytes(data.subrange(4 * k, 4 * k + 4))
}

/// The eight score-component words of a frame datagram.
pub open spec fn frame_scores(data: Seq<u8>) -> Seq<u32> {
    Seq::new(SEGMENTS as nat, |i: int| frame_word(data, 3 + i))
}

/// What a datagram decodes to: eleven little-endian words, provided the
/// length is exactly one frame and every score component is in range.
pub open spec fn spec_parse_frame(data: Seq<u8>) -> Option<FrameModel> {
    if data.len() != FRAME_BYTES {
        None
    } else {
        let f = FrameModel {
            difficulty: frame_word(data, 0),
            stage: frame_word(data, 1),
            game_loop: frame_word(data, 2),
            scores: frame_scores(data),
        };
        if scores_in_range(f.scores) {
            Some(f)
        } else {
            None
        }
    }
}

/// Decodes one datagram, rejecting any length mismatch or out-of-range
/// score component without interpreting the rest.
pub fn parse_frame(data: &Vec<u8>) -> (r: Option<Frame>)
    ensures
        match r {
            Some(f) => spec_parse_frame(data@) == Some(f@) && f.wf(),
            None => spec_parse_frame(data@) is None,
        },
{
    if data.len() != FRAME_BYTES {
        return None;
    }
    let difficulty = read_le_u32(data, 0);
    let stage = read_le_u32(data, 4);
    let game_loop = read_le_u32(data, 8);
    let mut scores: Vec<u32> = Vec::new();
    let mut i: usize = 0;
    while i < SEGMENTS
        invariant
            data@.len() == FRAME_BYTES,
            i <= SEGMENTS,
            scores@.len() == i,
            forall|j: int| 0 <= j < i ==> scores@[j] == frame_word(data@, 3 + j),
            forall|j: int| 0 <= j < i ==> scores@[j] <= SCORE_COMPONENT_MAX,
        decreases SEGMENTS - i,
    {
        let w = read_le_u32(data, 12 + 4 * i);
        if w > SCORE_COMPONENT_MAX {
            proof {
                let ghost s = frame_scores(data@);
                assert(data@.subrange(12 + 4 * i, 12 + 4 * i + 4) =~= data@.subrange(
                    4 * (3 + i),
                    4 * (3 + i) + 4,
                ));
                assert(s[i as int] > SCORE_COMPONENT_MAX);
                assert(!scores_in_range(frame_scores(data@)));
                assert(spec_parse_frame(data@) is None);
            }
            return None;
        }
        scores.push(w);
        i += 1;
    }
    let f = Frame { difficulty, stage, game_loop, scores };
    proof {
        assert(f@.scores =~= frame_scores(data@));
        assert(spec_parse_frame(data@) == Some(f@));
    }
    Some(f)
}

} // verus!
