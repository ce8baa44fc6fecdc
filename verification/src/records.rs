//! Runs and categories: one playthrough attempt, and the named comparison
//! targets that keep a personal-best run and per-segment best records.

use vstd::prelude::*;
use crate::frame::SEGMENTS;

verus! {

/// Mathematical image of a run.
#[verifier::ext_equal]
pub ghost struct RunModel {
    pub splits: Seq<u32>,
    pub score: u32,
}

/// One playthrough attempt: a score per segment slot and a cumulative score.
pub struct Run {
    pub splits: Vec<u32>,
    pub score: u32,
}

impl View for Run {
    type V = RunModel;

    open spec fn view(&self) -> RunModel {
        RunModel { splits: self.splits@, score: self.score }
    }
}

/// The zero state a run starts from.
pub open spec fn zero_run() -> RunModel {
    RunModel { splits: Seq::new(SEGMENTS as nat, |i: int| 0u32), score: 0u32 }
}

/// A well-formed run carries one score per segment slot.
pub open spec fn run_wf(r: RunModel) -> bool {
    r.splits.len() == SEGMENTS
}

impl Run {
    pub open spec fn wf(&self) -> bool {
        run_wf(self@)
    }

    /// A fresh run with every segment and the total at zero.
    pub fn new() -> (r: Run)
        ensures
            r@ =~= zero_run(),
            r.wf(),
    {
        let mut splits: Vec<u32> = Vec::new();
        let mut i: usize = 0;
        while i < SEGMENTS
            invariant
                i <= SEGMENTS,
                splits@ =~= Seq::new(i as nat, |j: int| 0u32),
            decreases SEGMENTS - i,
        {
            splits.push(0);
            i += 1;
        }
        let r = Run { splits, score: 0 };
        proof {
            assert(r@.splits =~= zero_run().splits);
        }
        r
    }

    /// A field-for-field copy of the run.
    pub fn duplicate(&self) -> (r: Run)
        ensures
            r@ == self@,
    {
        let r = Run { splits: copy_scores(&self.splits), score: self.score };
        proof {
            assert(r@ =~= self@);
        }
        r
    }
}

/// A field-for-field copy of a score vector.
pub fn copy_scores(v: &Vec<u32>) -> (r: Vec<u32>)
    ensures
        r@ == v@,
{
    let mut r: Vec<u32> = Vec::new();
    let mut i: usize = 0;
    while i < v.len()
        invariant
            i <= v@.len(),
            r@ =~= v@.take(i as int),
        decreases v@.len() - i,
    {
        r.push(v[i]);
        proof {
            assert(r@ =~= v@.take(i + 1));
        }
        i += 1;
    }
    proof {
        assert(v@.take(v@.len() as int) =~= v@);
    }
    r
}

/// Mathematical image of a category.
#[verifier::ext_equal]
pub ghost struct CategoryModel {
    pub personal_best: RunModel,
    pub best_splits: Seq<u32>,
    pub name: Seq<char>,
}

/// A named comparison target: the personal-best run, and the best score
/// ever seen in each segment slot, independent of which run achieved it.
pub struct Category {
    pub personal_best: Run,
    pub best_splits: Vec<u32>,
    pub name: String,
}

impl View for Category {
    type V = CategoryModel;

    open spec fn view(&self) -> CategoryModel {
        CategoryModel {
            personal_best: self.personal_best@,
            best_splits: self.best_splits@,
            name: self.name@,
        }
    }
}

/// The records of a category that was just created under a name.
pub open spec fn fresh_cat(name: Seq<char>) -> CategoryModel {
    CategoryModel { name, personal_best: zero_run(), best_splits: zero_run().splits }
}

/// A well-formed category keeps one best record per segment slot.
pub open spec fn cat_wf(c: CategoryModel) -> bool {
    &&& run_wf(c.personal_best)
    &&& c.best_splits.len() == SEGMENTS
}

/// What absorbing one finalized run does to a category: the personal best
/// is replaced only by a strictly higher total, and each segment record is
/// raised independently to the run's segment score where that is higher.
pub open spec fn cat_update(c: CategoryModel, r: RunModel) -> CategoryModel {
    CategoryModel {
        personal_best: if r.score > c.personal_best.score {
            r
        } else {
            c.personal_best
        },
        best_splits: Seq::new(
            c.best_splits.len(),
            |i: int|
                if r.splits[i] > c.best_splits[i] {
                    r.splits[i]
                } else {
                    c.best_splits[i]
                },
        ),
        name: c.name,
    }
}

impl Category {
    pub open spec fn wf(&self) -> bool {
        cat_wf(self@)
    }

    /// A fresh category under the given name, with all records at zero.
    pub fn new(name: String) -> (r: Category)
        ensures
            r@.name == name@,
            r@.personal_best =~= zero_run(),
            r@.best_splits =~= zero_run().splits,
            r@ =~= fresh_cat(name@),
            r.wf(),
    {
        let pb = Run::new();
        let best = copy_scores(&pb.splits);
        Category { personal_best: pb, best_splits: best, name }
    }

    /// A field-for-field copy of the category.
    pub fn duplicate(&self) -> (r: Category)
        ensures
            r@ == self@,
    {
        let r = Category {
            personal_best: self.personal_best.duplicate(),
            best_splits: copy_scores(&self.best_splits),
            name: self.name.clone(),
        };
        proof {
            assert(r@ =~= self@);
        }
        r
    }

    /// Absorbs one finalized run into this category's records.
    pub fn update_from_run(&mut self, run: &Run)
        requires
            old(self).wf(),
            run.wf(),
        ensures
            final(self)@ == cat_update(old(self)@, run@),
            final(self).wf(),
            final(self)@.name == old(self)@.name,
    {
        let ghost target = cat_update(old(self)@, run@);
        if run.score > self.personal_best.score {
            self.personal_best = run.duplicate();
        }
        let mut i: usize = 0;
        while i < SEGMENTS
            invariant
                i <= SEGMENTS,
                run.wf(),
                old(self).wf(),
                self.best_splits@.len() == SEGMENTS,
                target == cat_update(old(self)@, run@),
                self.personal_best@ == target.personal_best,
                self.name@ == target.name,
                forall|j: int| 0 <= j < i ==> self.best_splits@[j] == target.best_splits[j],
                forall|j: int|
                    i <= j < SEGMENTS ==> self.best_splits@[j] == old(self)@.best_splits[j],
            decreases SEGMENTS - i,
        {
            proof {
                assert(target.best_splits.len() == SEGMENTS);
                assert(target.best_splits[i as int] == (if run@.splits[i as int] > old(
                    self,
                )@.best_splits[i as int] {
                    run@.splits[i as int]
                } else {
                    old(self)@.best_splits[i as int]
                }));
            }
            if run.splits[i] > self.best_splits[i] {
                self.best_splits[i] = run.splits[i];
            }
            i += 1;
        }
        proof {
            assert(self@.best_splits =~= target.best_splits);
            assert(self@ =~= target);
        }
    }
}

/// The models of a sequence of categories.
pub open spec fn cats_view(v: Seq<Category>) -> Seq<CategoryModel> {
    Seq::new(v.len(), |i: int| v[i]@)
}

/// The bootstrap set: exactly two categories, named for the game's two
/// ship types, with all records at zero.
pub open spec fn is_default_categories(cs: Seq<CategoryModel>) -> bool {
    &&& cs.len() == 2
    &&& cs[0].name == "Type-C"@
    &&& cs[1].name == "Type-B"@
    &&& forall|i: int|
        0 <= i < cs.len() ==> #[trigger] cs[i].personal_best == zero_run() && cs[i].best_splits
            == zero_run().splits
}

/// The two categories a fresh installation starts with.
pub fn default_categories() -> (r: Vec<Category>)
    ensures
        is_default_categories(cats_view(r@)),
        forall|i: int| 0 <= i < r@.len() ==> cat_wf(#[trigger] r@[i]@),
        r@.len() == 2,
{
    let mut r: Vec<Category> = Vec::new();
    r.push(Category::new("Type-C".to_string()));
    r.push(Category::new("Type-B".to_string()));
    r
}

/// A category's records after absorbing a sequence of finalized runs, in order.
pub open spec fn apply_runs(c: CategoryModel, rs: Seq<RunModel>) -> CategoryModel
    decreases rs.len(),
{
    if rs.len() == 0 {
        c
    } else {
        apply_runs(cat_update(c, rs[0]), rs.drop_first())
    }
}

/// Absorbing one run never lowers a segment record or the personal-best
/// score, and never touches the name.
pub proof fn lemma_cat_update_monotone(c: CategoryModel, r: RunModel)
    ensures
        cat_update(c, r).best_splits.len() == c.best_splits.len(),
        forall|i: int|
            0 <= i < c.best_splits.len() ==> cat_update(c, r).best_splits[i] >= c.best_splits[i],
        cat_update(c, r).personal_best.score >= c.personal_best.score,
        cat_update(c, r).name == c.name,
{
}

/// Across any sequence of finalized runs, every segment record and the
/// personal-best score of a category are monotonically non-decreasing.
pub proof fn lemma_records_monotone(c: CategoryModel, rs: Seq<RunModel>)
    ensures
        apply_runs(c, rs).best_splits.len() == c.best_splits.len(),
        forall|i: int|
            0 <= i < c.best_splits.len() ==> apply_runs(c, rs).best_splits[i] >= c.best_splits[i],
        apply_runs(c, rs).personal_best.score >= c.personal_best.score,
        apply_runs(c, rs).name == c.name,
    decreases rs.len(),
{
    if rs.len() > 0 {
        lemma_cat_update_monotone(c, rs[0]);
        lemma_records_monotone(cat_update(c, rs[0]), rs.drop_first());
    }
}

} // verus!
