//! The split-detection state machine. It consumes telemetry frames and
//! maintains the current run, the running segment and its score offset,
//! and the records of the selected category.

use vstd::prelude::*;
use crate::frame::{
    Frame, FrameModel, frame_wf, total_of, sum_scores, lemma_sum_scores_bound,
    lemma_sum_scores_all_zero, MENU_STAGE,
    FIRST_STAGE, SUPPORTED_DIFFICULTY, SEGMENTS, SCORE_COMPONENT_MAX,
};
use crate::records::{
    Run, RunModel, Category, CategoryModel, run_wf, cat_wf, cat_update, zero_run, fresh_cat,
};

verus! {

/// Mathematical image of the engine.
#[verifier::ext_equal]
pub ghost struct EngineModel {
    pub categories: Seq<CategoryModel>,
    pub current_category: int,
    pub last_frame: FrameModel,
    pub current_run: RunModel,
    pub current_split: Option<int>,
    pub offset: u32,
    pub comparison: CategoryModel,
}

/// The split engine's state between frames.
pub struct SplitEngine {
    /// All known comparison targets; never empty.
    pub categories: Vec<Category>,
    /// Index of the category the current run is compared against.
    pub current_category: usize,
    /// The previous frame, used to detect stage and menu transitions.
    pub last_frame: Frame,
    /// The run being accumulated.
    pub current_run: Run,
    /// The segment slot currently being played, once one has started.
    pub current_split: Option<usize>,
    /// The cumulative score at which the running segment began.
    pub current_split_score_offset: u32,
    /// Snapshot of the selected category taken when the run started, so
    /// in-progress comparisons stay stable if the records update mid-run.
    pub comparison: Category,
}

impl View for SplitEngine {
    type V = EngineModel;

    open spec fn view(&self) -> EngineModel {
        EngineModel {
            categories: Seq::new(self.categories@.len(), |i: int| self.categories@[i]@),
            current_category: self.current_category as int,
            last_frame: self.last_frame@,
            current_run: self.current_run@,
            current_split: match self.current_split {
                Some(i) => Some(i as int),
                None => None,
            },
            offset: self.current_split_score_offset,
            comparison: self.comparison@,
        }
    }
}

/// The engine's invariant: a selected category that exists, well-formed
/// records, and a well-formed remembered frame.
pub open spec fn engine_wf(s: EngineModel) -> bool {
    &&& s.categories.len() >= 1
    &&& 0 <= s.current_category < s.categories.len()
    &&& forall|i: int| 0 <= i < s.categories.len() ==> cat_wf(#[trigger] s.categories[i])
    &&& run_wf(s.current_run)
    &&& frame_wf(s.last_frame)
    &&& cat_wf(s.comparison)
}

/// The segment slot a frame belongs to.
pub open spec fn seg_index(f: FrameModel) -> int {
    f.stage - 1 - f.game_loop
}

/// Whether the frame's segment slot lies inside the fixed segment array.
pub open spec fn seg_index_ok(f: FrameModel) -> bool {
    0 <= seg_index(f) < SEGMENTS
}

/// A frame the engine accumulates into the run: supported mode, not the
/// menu, and a segment slot inside the array.
pub open spec fn qualifying(f: FrameModel) -> bool {
    &&& f.difficulty == SUPPORTED_DIFFICULTY
    &&& f.stage != MENU_STAGE
    &&& seg_index_ok(f)
}

/// Absorbing the in-progress run into the selected category's records.
pub open spec fn engine_record(s: EngineModel) -> EngineModel {
    EngineModel {
        categories: s.categories.update(
            s.current_category,
            cat_update(s.categories[s.current_category], s.current_run),
        ),
        ..s
    }
}

/// Ending the run: its totals are recorded and no segment is running.
pub open spec fn engine_end_run(s: EngineModel) -> EngineModel {
    EngineModel { current_split: None, ..engine_record(s) }
}

/// Starting over: the prior run is finalized, the run returns to its zero
/// state, and the comparison snapshot is retaken from the updated records.
pub open spec fn engine_reset(s: EngineModel) -> EngineModel {
    let e = engine_end_run(s);
    EngineModel {
        current_run: zero_run(),
        comparison: e.categories[e.current_category],
        ..e
    }
}

/// One transition of the state machine: the engine after a frame, and
/// whether the records must be persisted now.
pub open spec fn spec_step(s: EngineModel, f: FrameModel) -> (EngineModel, bool) {
    if f.difficulty != SUPPORTED_DIFFICULTY {
        // Unsupported mode: the frame is ignored outright.
        (s, false)
    } else if f.stage != MENU_STAGE && !seg_index_ok(f) {
        // Malformed telemetry: a stage outside the segment array is dropped.
        (s, false)
    } else {
        let starts = f.stage != s.last_frame.stage && (s.last_frame.stage == MENU_STAGE
            || f.stage == FIRST_STAGE);
        let s1 = if starts {
            engine_reset(s)
        } else {
            s
        };
        if f.stage == MENU_STAGE {
            (EngineModel { last_frame: f, ..engine_end_run(s1) }, true)
        } else {
            let boundary = f.stage != s.last_frame.stage;
            let s2 = if boundary {
                engine_record(
                    EngineModel {
                        current_split: Some(seg_index(f)),
                        offset: total_of(s.last_frame) as u32,
                        ..s1
                    },
                )
            } else {
                s1
            };
            let off = if s2.offset > total_of(f) {
                0u32
            } else {
                s2.offset
            };
            let run = RunModel {
                splits: s2.current_run.splits.update(seg_index(f), (total_of(f) - off) as u32),
                score: total_of(f) as u32,
            };
            (
                EngineModel { current_run: run, offset: off, last_frame: f, ..s2 },
                starts || boundary,
            )
        }
    }
}

/// The engine after a whole stream of frames, applied in arrival order.
pub open spec fn spec_run_frames(s: EngineModel, fs: Seq<FrameModel>) -> EngineModel
    decreases fs.len(),
{
    if fs.len() == 0 {
        s
    } else {
        spec_run_frames(spec_step(s, fs[0]).0, fs.drop_first())
    }
}

impl SplitEngine {
    pub open spec fn wf(&self) -> bool {
        engine_wf(self@)
    }

    /// A fresh engine over the given categories, idle in the menu.
    pub fn new(categories: Vec<Category>) -> (r: SplitEngine)
        requires
            categories@.len() >= 1,
            forall|i: int| 0 <= i < categories@.len() ==> cat_wf(#[trigger] categories@[i]@),
        ensures
            r.wf(),
            r@.categories == Seq::new(categories@.len(), |i: int| categories@[i]@),
            r@.current_category == 0,
            r@.current_run == zero_run(),
            r@.current_split is None,
            r@.offset == 0,
            r@.last_frame.difficulty == SUPPORTED_DIFFICULTY,
            r@.last_frame.stage == MENU_STAGE,
            r@.last_frame.game_loop == 0,
            r@.last_frame.scores == zero_run().splits,
            total_of(r@.last_frame) == 0,
            r@.comparison == fresh_cat("<null>"@),
    {
        let r = SplitEngine {
            categories,
            current_category: 0,
            last_frame: Frame::menu(),
            current_run: Run::new(),
            current_split: None,
            current_split_score_offset: 0,
            comparison: Category::new("<null>".to_string()),
        };
        proof {
            assert(r@.current_run =~= zero_run());
            assert(r@.last_frame.scores =~= zero_run().splits);
            lemma_sum_scores_all_zero(r@.last_frame.scores);
        }
        r
    }

    /// Absorbs the in-progress run into the selected category's records.
    /// The caller persists the records when this function signals it.
    pub fn save_splits(&mut self)
        requires
            old(self).wf(),
        ensures
            final(self).wf(),
            final(self)@ =~~= engine_record(old(self)@),
    {
        let run = self.current_run.duplicate();
        let cc = self.current_category;
        self.categories[cc].update_from_run(&run);
        proof {
            assert(self@.categories =~~= engine_record(old(self)@).categories);
            assert(self@ =~~= engine_record(old(self)@));
        }
    }

    /// Ends the run: records its totals and closes the running segment.
    pub fn end_run(&mut self)
        requires
            old(self).wf(),
        ensures
            final(self).wf(),
            final(self)@ =~~= engine_end_run(old(self)@),
    {
        self.save_splits();
        self.current_split = None;
    }

    /// Starts a new run: finalizes the prior one, zeroes the run state and
    /// retakes the comparison snapshot from the updated records.
    pub fn reset(&mut self)
        requires
            old(self).wf(),
        ensures
            final(self).wf(),
            final(self)@ =~~= engine_reset(old(self)@),
    {
        self.end_run();
        self.current_run = Run::new();
        let cc = self.current_category;
        self.comparison = self.categories[cc].duplicate();
    }

    /// Applies one frame to the state machine. Returns true when the
    /// category records changed and must be persisted now.
    pub fn update_frame(&mut self, frame: Frame) -> (persist: bool)
        requires
            old(self).wf(),
            frame.wf(),
        ensures
            final(self).wf(),
            final(self)@ =~~= spec_step(old(self)@, frame@).0,
            persist == spec_step(old(self)@, frame@).1,
    {
        if frame.difficulty != SUPPORTED_DIFFICULTY {
            return false;
        }
        let menu = frame.is_menu();
        let mut idx: usize = 0;
        if !menu {
            if frame.stage >= 1 && frame.stage - 1 >= frame.game_loop && frame.stage - 1
                - frame.game_loop < SEGMENTS as u32 {
                idx = (frame.stage - 1 - frame.game_loop) as usize;
            } else {
                // Out-of-range segment slot: malformed telemetry, dropped.
                return false;
            }
        }
        let mut persist = false;
        if frame.stage != self.last_frame.stage && (self.last_frame.stage == MENU_STAGE
            || frame.stage == FIRST_STAGE) {
            self.reset();
            persist = true;
        }
        if !menu {
            if frame.stage != self.last_frame.stage {
                self.current_split = Some(idx);
                self.current_split_score_offset = self.last_frame.total_score();
                self.save_splits();
                persist = true;
            }
            let total = frame.total_score();
            if self.current_split_score_offset > total {
                // A continue reset the cumulative score; resync the offset
                // so the segment score cannot underflow.
                self.current_split_score_offset = 0;
            }
            self.current_run.score = total;
            self.current_run.splits[idx] = total - self.current_split_score_offset;
        } else {
            self.end_run();
            persist = true;
        }
        self.last_frame = frame;
        persist
    }

    /// Reacts to a category-create request from the presentation layer: a
    /// non-empty name adds a fresh category, selects it and records the
    /// in-progress run into it. An empty name is a cancelled dialog and
    /// changes nothing. Returns whether the records must be persisted.
    pub fn add_category(&mut self, name: String) -> (persist: bool)
        requires
            old(self).wf(),
        ensures
            final(self).wf(),
            name@.len() == 0 ==> !persist && *final(self) == *old(self),
            name@.len() > 0 ==> persist && final(self)@ =~~= engine_record(
                EngineModel {
                    categories: old(self)@.categories.push(fresh_cat(name@)),
                    current_category: old(self)@.categories.len() as int,
                    ..old(self)@
                },
            ),
    {
        if name.as_str().is_empty() {
            return false;
        }
        let ghost n = name@;
        self.categories.push(Category::new(name));
        self.current_category = self.categories.len() - 1;
        proof {
            assert(self@.categories =~~= old(self)@.categories.push(fresh_cat(n)));
            assert forall|i: int| 0 <= i < self@.categories.len() implies cat_wf(
                #[trigger] self@.categories[i],
            ) by {
                if i < old(self)@.categories.len() {
                    assert(self@.categories[i] == old(self)@.categories[i]);
                }
            }
            assert(self@ =~~= (EngineModel {
                categories: old(self)@.categories.push(fresh_cat(n)),
                current_category: old(self)@.categories.len() as int,
                ..old(self)@
            }));
        }
        self.save_splits();
        true
    }

    /// Reacts to a rename request: a non-empty name renames the selected
    /// category and records the run; an empty name changes nothing.
    pub fn rename_category(&mut self, name: String) -> (persist: bool)
        requires
            old(self).wf(),
        ensures
            final(self).wf(),
            name@.len() == 0 ==> !persist && *final(self) == *old(self),
            name@.len() > 0 ==> persist && final(self)@ =~~= engine_record(
                EngineModel {
                    categories: old(self)@.categories.update(
                        old(self)@.current_category,
                        CategoryModel {
                            name: name@,
                            ..old(self)@.categories[old(self)@.current_category]
                        },
                    ),
                    ..old(self)@
                },
            ),
    {
        if name.as_str().is_empty() {
            return false;
        }
        let ghost n = name@;
        let cc = self.current_category;
        self.categories[cc].name = name;
        proof {
            let ghost renamed = CategoryModel { name: n, ..old(self)@.categories[cc as int] };
            assert(self@.categories =~~= old(self)@.categories.update(cc as int, renamed));
            assert forall|i: int| 0 <= i < self@.categories.len() implies cat_wf(
                #[trigger] self@.categories[i],
            ) by {
                if i != cc {
                    assert(self@.categories[i] == old(self)@.categories[i]);
                }
            }
            assert(self@ =~~= (EngineModel {
                categories: old(self)@.categories.update(cc as int, renamed),
                ..old(self)@
            }));
        }
        self.save_splits();
        true
    }

    /// Reacts to a confirmed delete: removes the selected category and
    /// selects its predecessor. The last remaining category cannot be
    /// deleted, so a selected category always exists.
    pub fn delete_category(&mut self) -> (deleted: bool)
        requires
            old(self).wf(),
        ensures
            final(self).wf(),
            old(self)@.categories.len() <= 1 ==> !deleted && *final(self) == *old(self),
            old(self)@.categories.len() > 1 ==> deleted && final(self)@ =~~= (EngineModel {
                categories: old(self)@.categories.remove(old(self)@.current_category),
                current_category: if old(self)@.current_category > 0 {
                    old(self)@.current_category - 1
                } else {
                    0
                },
                ..old(self)@
            }),
    {
        if self.categories.len() <= 1 {
            return false;
        }
        let cc = self.current_category;
        self.categories.remove(cc);
        self.current_category = if cc > 0 {
            cc - 1
        } else {
            0
        };
        proof {
            assert(self@.categories =~~= old(self)@.categories.remove(cc as int));
        }
        true
    }
}

/// A frame the engine ignores outright: an unsupported mode, or malformed
/// telemetry whose segment slot lies outside the array.
pub open spec fn frame_dropped(f: FrameModel) -> bool {
    f.difficulty != SUPPORTED_DIFFICULTY || (f.stage != MENU_STAGE && !seg_index_ok(f))
}

/// A stream of frames whose difficulty is unsupported throughout never
/// changes the engine's state.
pub proof fn lemma_unsupported_stream_no_op(s: EngineModel, fs: Seq<FrameModel>)
    requires
        forall|i: int| 0 <= i < fs.len() ==> fs[i].difficulty != SUPPORTED_DIFFICULTY,
    ensures
        spec_run_frames(s, fs) == s,
    decreases fs.len(),
{
    if fs.len() > 0 {
        assert(spec_step(s, fs[0]).0 == s);
        lemma_unsupported_stream_no_op(s, fs.drop_first());
    }
}

/// A stream of dropped frames never changes the engine's state.
pub proof fn lemma_dropped_stream_no_op(s: EngineModel, fs: Seq<FrameModel>)
    requires
        forall|i: int| 0 <= i < fs.len() ==> frame_dropped(#[trigger] fs[i]),
    ensures
        spec_run_frames(s, fs) == s,
    decreases fs.len(),
{
    if fs.len() > 0 {
        assert(spec_step(s, fs[0]).0 == s);
        lemma_dropped_stream_no_op(s, fs.drop_first());
    }
}

/// The run score recorded at finalize time is the cumulative total score
/// of the last qualifying frame observed before the menu transition: after
/// a qualifying frame `f1`, the run carries `total_of(f1)`, dropped frames
/// in between change nothing, and the menu frame `f2` folds exactly that
/// run into the selected category.
pub proof fn lemma_finalized_score_is_last_total(
    s: EngineModel,
    f1: FrameModel,
    mid: Seq<FrameModel>,
    f2: FrameModel,
)
    requires
        engine_wf(s),
        frame_wf(f1),
        qualifying(f1),
        forall|i: int| 0 <= i < mid.len() ==> frame_dropped(#[trigger] mid[i]),
        f2.difficulty == SUPPORTED_DIFFICULTY,
        f2.stage == MENU_STAGE,
    ensures
        ({
            let s1 = spec_step(s, f1).0;
            let s2 = spec_step(spec_run_frames(s1, mid), f2).0;
            &&& spec_run_frames(s1, mid) == s1
            &&& s1.current_run.score == total_of(f1)
            &&& s1.current_category == s.current_category
            &&& s2.categories[s1.current_category] == cat_update(
                s1.categories[s1.current_category],
                s1.current_run,
            )
        }),
{
    lemma_sum_scores_bound(f1.scores);
    let s1 = spec_step(s, f1).0;
    lemma_dropped_stream_no_op(s1, mid);
    assert(s1.last_frame == f1);
    assert(s1.current_run.score == total_of(f1));
}

/// Offset resynchronization on a continue: when the cumulative score falls
/// below the offset in effect, the offset is reset to zero before the
/// segment score is computed, so the recorded segment score is the frame's
/// raw total and never the result of an underflow.
pub proof fn lemma_offset_resync(s: EngineModel, f: FrameModel)
    requires
        engine_wf(s),
        frame_wf(f),
        qualifying(f),
    ensures
        ({
            let s1 = spec_step(s, f).0;
            let pre = if f.stage != s.last_frame.stage {
                total_of(s.last_frame) as u32
            } else {
                s.offset
            };
            &&& s1.offset <= total_of(f)
            &&& s1.current_run.splits[seg_index(f)] == total_of(f) - s1.offset
            &&& pre > total_of(f) ==> s1.offset == 0 && s1.current_run.splits[seg_index(f)]
                == total_of(f)
        }),
{
    lemma_sum_scores_bound(f.scores);
    lemma_sum_scores_bound(s.last_frame.scores);
}

/// The same property in its plainest form, within a running segment: when
/// no stage change intervenes and the recorded offset exceeds the frame's
/// cumulative total (a continue reset the counter), the offset is reset to
/// zero before the segment score is computed, and the recorded segment
/// score is the frame's raw total.
pub proof fn lemma_continue_within_segment(s: EngineModel, f: FrameModel)
    requires
        engine_wf(s),
        frame_wf(f),
        qualifying(f),
        f.stage == s.last_frame.stage,
        s.offset > total_of(f),
    ensures
        spec_step(s, f).0.offset == 0,
        spec_step(s, f).0.current_run.splits[seg_index(f)] == total_of(f),
{
    lemma_offset_resync(s, f);
}

} // verus!
