//! Partitioning recording groups into single-chapter recordings, which
//! only need a rename or copy, and multi-chapter recordings, which need a
//! lossless merge — and planning the single-chapter moves.

use vstd::prelude::*;

use crate::gopro::ChapterModel;
use crate::gopro::gen_output_path;
use crate::gopro::output_path_for;
use crate::grouping::GroupModel;
use crate::grouping::RecordingGroup;
use crate::grouping::group_index;
use crate::grouping::grouped_videos;
use crate::grouping::insert_chapter;
use crate::grouping::group_by_video;
use crate::grouping::lemma_group_index_range;
use crate::grouping::lemma_sort_by_chapter_len;
use crate::grouping::sort_by_chapter;
use crate::grouping::sort_groups;

verus! {

/// A recording that fit in one chapter file.
pub open spec fn is_single(g: GroupModel) -> bool {
    g.chapters.len() == 1
}

/// A recording split across two or more chapter files.
pub open spec fn is_multi(g: GroupModel) -> bool {
    g.chapters.len() >= 2
}

/// The single-chapter groups, in input order.
pub open spec fn singles_of(gs: Seq<GroupModel>) -> Seq<GroupModel> {
    gs.filter(|g: GroupModel| is_single(g))
}

/// The multi-chapter groups, in input order.
pub open spec fn multis_of(gs: Seq<GroupModel>) -> Seq<GroupModel> {
    gs.filter(|g: GroupModel| is_multi(g))
}

/// The partition of all recording groups into the two handling classes.
#[derive(Debug)]
pub struct Plan {
    pub single: Vec<RecordingGroup>,
    pub multi: Vec<RecordingGroup>,
}

/// Mathematical model of a plan.
#[verifier::ext_equal]
pub struct PlanModel {
    pub single: Seq<GroupModel>,
    pub multi: Seq<GroupModel>,
}

impl View for Plan {
    type V = PlanModel;

    open spec fn view(&self) -> PlanModel {
        PlanModel { single: self.single.deep_view(), multi: self.multi.deep_view() }
    }
}

impl DeepView for Plan {
    type V = PlanModel;

    open spec fn deep_view(&self) -> PlanModel {
        self@
    }
}

/// Splits the groups into single-chapter and multi-chapter recordings.
/// Every group of one chapter goes to `single`, every group of two or
/// more to `multi`.
pub fn build_plan(groups: &Vec<RecordingGroup>) -> (p: Plan)
    ensures
        p@.single == singles_of(groups.deep_view()),
        p@.multi == multis_of(groups.deep_view()),
{
    let mut single: Vec<RecordingGroup> = Vec::new();
    let mut multi: Vec<RecordingGroup> = Vec::new();
    let n = groups.len();
    let mut i: usize = 0;
    while i < n
        invariant
            n == groups@.len(),
            i <= n,
            single.deep_view() == singles_of(groups.deep_view().take(i as int)),
            multi.deep_view() == multis_of(groups.deep_view().take(i as int)),
        decreases n - i,
    {
        let g = &groups[i];
        let len = g.chapters.len();
        if len == 1 {
            single.push(g.duplicate());
        } else if len >= 2 {
            multi.push(g.duplicate());
        }
        proof {
            reveal(Seq::filter);
            assert(groups.deep_view().take(i + 1).drop_last() =~= groups.deep_view().take(
                i as int,
            ));
            assert(groups.deep_view().take(i + 1).last() == groups.deep_view()[i as int]);
            assert(single.deep_view() =~= singles_of(groups.deep_view().take(i + 1)));
            assert(multi.deep_view() =~= multis_of(groups.deep_view().take(i + 1)));
        }
        i += 1;
    }
    proof {
        assert(groups.deep_view().take(n as int) =~= groups.deep_view());
    }
    Plan { single, multi }
}

/// Some group carries this recording number.
pub open spec fn has_recording(gs: Seq<GroupModel>, n: u16) -> bool {
    exists|i: int| 0 <= i < gs.len() && gs[i].video_number == n
}

/// Every filtered group is one of the originals.
proof fn lemma_filter_element_of(gs: Seq<GroupModel>, pred: spec_fn(GroupModel) -> bool, k: int)
    requires
        0 <= k < gs.filter(pred).len(),
    ensures
        exists|i: int| 0 <= i < gs.len() && gs[i] == gs.filter(pred)[k],
    decreases gs.len(),
{
    reveal(Seq::filter);
    if gs.len() > 0 {
        if k < gs.drop_last().filter(pred).len() {
            lemma_filter_element_of(gs.drop_last(), pred, k);
            let i = choose|i: int|
                0 <= i < gs.drop_last().len() && gs.drop_last()[i] == gs.drop_last().filter(
                    pred,
                )[k];
            assert(gs[i] == gs.filter(pred)[k]);
        } else {
            assert(gs[gs.len() - 1] == gs.filter(pred)[k]);
        }
    }
}

/// The partition is exhaustive and disjoint: with every group non-empty,
/// the two classes cover all groups, and — with recording numbers unique —
/// no recording number appears in both classes.
pub proof fn lemma_plan_partitions(gs: Seq<GroupModel>)
    requires
        forall|i: int| 0 <= i < gs.len() ==> #[trigger] gs[i].chapters.len() >= 1,
        forall|i: int, j: int|
            0 <= i < j < gs.len() ==> gs[i].video_number != gs[j].video_number,
    ensures
        singles_of(gs).len() + multis_of(gs).len() == gs.len(),
        forall|n: u16| !(has_recording(singles_of(gs), n) && has_recording(multis_of(gs), n)),
    decreases gs.len(),
{
    reveal(Seq::filter);
    if gs.len() > 0 {
        assert forall|i: int|
            0 <= i < gs.drop_last().len() implies #[trigger] gs.drop_last()[i].chapters.len()
            >= 1 by {
            assert(gs.drop_last()[i] == gs[i]);
        }
        assert forall|i: int, j: int|
            0 <= i < j < gs.drop_last().len() implies gs.drop_last()[i].video_number
                != gs.drop_last()[j].video_number by {
            assert(gs.drop_last()[i] == gs[i]);
            assert(gs.drop_last()[j] == gs[j]);
        }
        lemma_plan_partitions(gs.drop_last());
    }
    assert forall|n: u16| !(has_recording(singles_of(gs), n) && has_recording(multis_of(gs), n)) by {
        if has_recording(singles_of(gs), n) && has_recording(multis_of(gs), n) {
            let a = choose|i: int|
                0 <= i < singles_of(gs).len() && singles_of(gs)[i].video_number == n;
            let b = choose|i: int|
                0 <= i < multis_of(gs).len() && multis_of(gs)[i].video_number == n;
            lemma_filter_element_of(gs, |g: GroupModel| is_single(g), a);
            lemma_filter_element_of(gs, |g: GroupModel| is_multi(g), b);
            let ia = choose|i: int| 0 <= i < gs.len() && gs[i] == singles_of(gs)[a];
            let ib = choose|i: int| 0 <= i < gs.len() && gs[i] == multis_of(gs)[b];
            assert(gs[ia].chapters.len() == 1);
            assert(gs[ib].chapters.len() >= 2);
            assert(ia != ib);
            assert(gs[ia].video_number == gs[ib].video_number);
            assert(false);
        }
    }
}

/// The partition law at its point of use: however a listing's chapters
/// are grouped, every group lands in exactly one of the two classes, and
/// no recording number lands in both.
pub proof fn lemma_grouped_plan_partitions(s: Seq<ChapterModel>)
    ensures
        singles_of(grouped_videos(s)).len() + multis_of(grouped_videos(s)).len()
            == grouped_videos(s).len(),
        forall|n: u16|
            !(has_recording(singles_of(grouped_videos(s)), n) && has_recording(
                multis_of(grouped_videos(s)),
                n,
            )),
{
    crate::grouping::lemma_grouped_videos_wf(s);
    lemma_plan_partitions(grouped_videos(s));
}

/// Total number of chapters across a sequence of groups.
pub open spec fn chapter_count_of(gs: Seq<GroupModel>) -> int
    decreases gs.len(),
{
    if gs.len() == 0 {
        0
    } else {
        chapter_count_of(gs.drop_last()) + gs.last().chapters.len()
    }
}

/// A chapter count is never negative.
pub proof fn lemma_chapter_count_nonneg(gs: Seq<GroupModel>)
    ensures
        chapter_count_of(gs) >= 0,
    decreases gs.len(),
{
    if gs.len() > 0 {
        lemma_chapter_count_nonneg(gs.drop_last());
    }
}

/// A prefix never counts more chapters than the whole.
pub proof fn lemma_chapter_count_prefix(gs: Seq<GroupModel>, i: int)
    requires
        0 <= i <= gs.len(),
    ensures
        chapter_count_of(gs.take(i)) <= chapter_count_of(gs),
    decreases gs.len(),
{
    if i == gs.len() {
        assert(gs.take(i) =~= gs);
    } else {
        assert(gs.drop_last().take(i) =~= gs.take(i));
        lemma_chapter_count_prefix(gs.drop_last(), i);
    }
}

/// Replacing one group changes the count by the difference of that
/// group's chapter counts.
proof fn lemma_update_chapter_count(gs: Seq<GroupModel>, i: int, g: GroupModel)
    requires
        0 <= i < gs.len(),
    ensures
        chapter_count_of(gs.update(i, g)) == chapter_count_of(gs) - gs[i].chapters.len()
            + g.chapters.len(),
    decreases gs.len(),
{
    if i == gs.len() - 1 {
        assert(gs.update(i, g).drop_last() =~= gs.drop_last());
        assert(gs.update(i, g).last() == g);
    } else {
        assert(gs.update(i, g).drop_last() =~= gs.drop_last().update(i, g));
        assert(gs.update(i, g).last() == gs.last());
        lemma_update_chapter_count(gs.drop_last(), i, g);
    }
}

/// Adding one chapter to the buckets adds one to the total count.
proof fn lemma_insert_chapter_count(gs: Seq<GroupModel>, c: ChapterModel)
    ensures
        chapter_count_of(insert_chapter(gs, c)) == chapter_count_of(gs) + 1,
{
    lemma_group_index_range(gs, c.video_number);
    let i = group_index(gs, c.video_number);
    if i < 0 {
        let fresh = GroupModel { video_number: c.video_number, chapters: seq![c] };
        assert(gs.push(fresh).drop_last() =~= gs);
        assert(chapter_count_of(gs.push(fresh)) == chapter_count_of(gs) + 1);
    } else {
        lemma_update_chapter_count(
            gs,
            i,
            GroupModel { video_number: c.video_number, chapters: gs[i].chapters.push(c) },
        );
    }
}

/// Bucketing loses no chapter and invents none: the buckets hold exactly
/// the input's chapters.
pub proof fn lemma_group_by_video_count(s: Seq<ChapterModel>)
    ensures
        chapter_count_of(group_by_video(s)) == s.len(),
    decreases s.len(),
{
    if s.len() > 0 {
        lemma_group_by_video_count(s.drop_last());
        lemma_insert_chapter_count(group_by_video(s.drop_last()), s.last());
    }
}

/// Ordering the chapters of every group keeps the total count.
pub proof fn lemma_sort_groups_chapter_count(gs: Seq<GroupModel>)
    ensures
        chapter_count_of(sort_groups(gs)) == chapter_count_of(gs),
    decreases gs.len(),
{
    if gs.len() > 0 {
        assert(sort_groups(gs).drop_last() =~= sort_groups(gs.drop_last()));
        lemma_sort_groups_chapter_count(gs.drop_last());
        lemma_sort_by_chapter_len(gs.last().chapters);
        assert(sort_groups(gs).last().chapters == sort_by_chapter(gs.last().chapters));
    }
}

/// The multi-chapter groups hold at most all chapters.
pub proof fn lemma_multis_chapter_count(gs: Seq<GroupModel>)
    ensures
        chapter_count_of(multis_of(gs)) <= chapter_count_of(gs),
    decreases gs.len(),
{
    reveal(Seq::filter);
    if gs.len() > 0 {
        lemma_multis_chapter_count(gs.drop_last());
        if is_multi(gs.last()) {
            assert(multis_of(gs).drop_last() =~= multis_of(gs.drop_last()));
            assert(multis_of(gs).last() == gs.last());
        } else {
            assert(multis_of(gs) =~= multis_of(gs.drop_last()));
        }
    }
}

/// The figures shown to the operator before any work starts.
#[derive(Debug)]
pub struct Summary {
    pub recording_count: usize,
    pub chapter_count: usize,
    pub single_count: usize,
}

/// Computes the pre-flight figures of a plan: how many multi-chapter
/// recordings will be combined, how many chapter files go into them, and
/// how many single-chapter recordings will be renamed or copied.
pub fn summarize(p: &Plan) -> (s: Summary)
    requires
        chapter_count_of(p@.multi) <= usize::MAX,
    ensures
        s.recording_count == p@.multi.len(),
        s.chapter_count == chapter_count_of(p@.multi),
        s.single_count == p@.single.len(),
{
    let mut chapter_count: usize = 0;
    let n = p.multi.len();
    let mut i: usize = 0;
    while i < n
        invariant
            n == p.multi@.len(),
            i <= n,
            chapter_count == chapter_count_of(p.multi.deep_view().take(i as int)),
            chapter_count_of(p.multi.deep_view()) <= usize::MAX,
        decreases n - i,
    {
        proof {
            assert(p.multi.deep_view().take(i + 1).drop_last() =~= p.multi.deep_view().take(
                i as int,
            ));
            assert(p.multi.deep_view().take(i + 1).last() == p.multi.deep_view()[i as int]);
            lemma_chapter_count_prefix(p.multi.deep_view(), i + 1);
            lemma_chapter_count_nonneg(p.multi.deep_view().take(i as int));
        }
        chapter_count = chapter_count + p.multi[i].chapters.len();
        i += 1;
    }
    proof {
        assert(p.multi.deep_view().take(n as int) =~= p.multi.deep_view());
    }
    Summary { recording_count: p.multi.len(), chapter_count, single_count: p.single.len() }
}

/// One planned rename or copy of a single-chapter recording into its
/// output name.
#[derive(Debug)]
pub struct MoveJob {
    pub source_path: String,
    pub output_path: String,
}

/// Mathematical model of a move job.
#[verifier::ext_equal]
pub struct MoveJobModel {
    pub source_path: Seq<char>,
    pub output_path: Seq<char>,
}

impl View for MoveJob {
    type V = MoveJobModel;

    open spec fn view(&self) -> MoveJobModel {
        MoveJobModel { source_path: self.source_path@, output_path: self.output_path@ }
    }
}

impl DeepView for MoveJob {
    type V = MoveJobModel;

    open spec fn deep_view(&self) -> MoveJobModel {
        self@
    }
}

/// The planned moves for the single-chapter groups: each recording's one
/// chapter goes to `GoPro_<n>.mp4` in the output directory.
pub open spec fn move_jobs_of(singles: Seq<GroupModel>, output_dir: Seq<char>) -> Seq<
    MoveJobModel,
> {
    singles.map_values(
        |g: GroupModel| MoveJobModel {
            source_path: g.chapters[0].abs_path,
            output_path: output_path_for(output_dir, g.video_number, "mp4"@),
        },
    )
}

/// Plans the rename (or copy) of every single-chapter recording into the
/// output directory, which must already be normalized.
pub fn plan_single_chapter_moves(singles: &Vec<RecordingGroup>, output_dir: &str) -> (r: Vec<
    MoveJob,
>)
    requires
        forall|i: int| 0 <= i < singles@.len() ==> #[trigger] singles@[i].chapters@.len() >= 1,
    ensures
        r.deep_view() == move_jobs_of(singles.deep_view(), output_dir@),
{
    let mut jobs: Vec<MoveJob> = Vec::new();
    let n = singles.len();
    let mut i: usize = 0;
    while i < n
        invariant
            n == singles@.len(),
            i <= n,
            forall|k: int| 0 <= k < n ==> #[trigger] singles@[k].chapters@.len() >= 1,
            jobs.deep_view() == move_jobs_of(singles.deep_view().take(i as int), output_dir@),
        decreases n - i,
    {
        let g = &singles[i];
        let job = MoveJob {
            source_path: g.chapters[0].abs_path.clone(),
            output_path: gen_output_path(output_dir, g.video_number, "mp4"),
        };
        let ghost prev = jobs.deep_view();
        proof {
            assert(job@ == move_jobs_of(singles.deep_view().take(i + 1), output_dir@)[i as int]);
        }
        jobs.push(job);
        proof {
            assert(jobs.deep_view() =~= prev.push(
                move_jobs_of(singles.deep_view().take(i + 1), output_dir@)[i as int],
            ));
            assert forall|t: int| 0 <= t < i implies move_jobs_of(
                singles.deep_view().take(i as int),
                output_dir@,
            )[t] == move_jobs_of(singles.deep_view().take(i + 1), output_dir@)[t] by {
                assert(singles.deep_view().take(i + 1)[t] == singles.deep_view().take(i as int)[t]);
            }
            assert(jobs.deep_view() =~= move_jobs_of(
                singles.deep_view().take(i + 1),
                output_dir@,
            ));
        }
        i += 1;
    }
    proof {
        assert(singles.deep_view().take(n as int) =~= singles.deep_view());
    }
    jobs
}

} // verus!
