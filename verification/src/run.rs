//! The whole run as one pure planning step: from a directory listing and
//! the run's options to everything the I/O layer must do — the pre-flight
//! summary, the single-chapter moves, the merge jobs, and the removal
//! commands to print afterwards.
//!
//! Planning never touches the filesystem, so a dry run and a live run
//! compute the very same plan; the caller simply stops after reporting
//! when the dry-run flag is set.

use vstd::prelude::*;

use crate::cli::CliArgs;
use crate::demux::MergeJob;
use crate::demux::MergeJobModel;
use crate::demux::combine_multichapter_videos;
use crate::demux::merge_jobs_of;
use crate::gopro::DirEntry;
use crate::gopro::DirEntryModel;
use crate::gopro::lemma_parsed_videos_len;
use crate::gopro::parse_gopro_files_directory;
use crate::gopro::parsed_videos;
use crate::grouping::grouped_videos;
use crate::grouping::sort_gopro_files;
use crate::plan::MoveJob;
use crate::plan::MoveJobModel;
use crate::plan::Summary;
use crate::plan::build_plan;
use crate::plan::chapter_count_of;
use crate::plan::lemma_chapter_count_nonneg;
use crate::plan::lemma_group_by_video_count;
use crate::plan::lemma_multis_chapter_count;
use crate::plan::lemma_sort_groups_chapter_count;
use crate::plan::move_jobs_of;
use crate::plan::multis_of;
use crate::plan::plan_single_chapter_moves;
use crate::plan::singles_of;
use crate::plan::summarize;
use crate::printing::print_remove_commands;
use crate::printing::remove_commands_of;

verus! {

/// Why a run stops before any plan is made.
#[derive(Debug)]
pub enum RunError {
    /// Scanning found no file that parses as a chapter; the run is
    /// aborted rather than silently doing nothing.
    NoRecognizedFiles,
}

/// Everything a run will do, computed before anything is done.
#[derive(Debug)]
pub struct RunPlan {
    /// The pre-flight figures shown before confirmation.
    pub summary: Summary,
    /// One rename or copy per single-chapter recording.
    pub moves: Vec<MoveJob>,
    /// One backend invocation per multi-chapter recording.
    pub merges: Vec<MergeJob>,
    /// The removal commands to print once the merges are done.
    pub remove_commands: Vec<String>,
    /// Whether the moves are copies rather than renames.
    pub copy_single_chapter: bool,
}

/// Mathematical model of a run plan.
#[verifier::ext_equal]
pub struct RunPlanModel {
    pub summary: Summary,
    pub moves: Seq<MoveJobModel>,
    pub merges: Seq<MergeJobModel>,
    pub remove_commands: Seq<Seq<char>>,
    pub copy_single_chapter: bool,
}

impl View for RunPlan {
    type V = RunPlanModel;

    open spec fn view(&self) -> RunPlanModel {
        RunPlanModel {
            summary: self.summary,
            moves: self.moves.deep_view(),
            merges: self.merges.deep_view(),
            remove_commands: self.remove_commands.deep_view(),
            copy_single_chapter: self.copy_single_chapter,
        }
    }
}

/// The plan of a run over a directory listing. `None` when no entry
/// parses as a chapter. Of the options, only the single-chapter handling
/// mode enters the plan: the dry-run and auto-confirm flags do not.
pub open spec fn run_plan_of(
    entries: Seq<DirEntryModel>,
    args: CliArgs,
    output_dir: Seq<char>,
    scratch_dir: Seq<char>,
) -> Option<RunPlanModel> {
    let videos = parsed_videos(entries);
    if videos.len() == 0 {
        None
    } else {
        let groups = grouped_videos(videos);
        let single = singles_of(groups);
        let multi = multis_of(groups);
        Some(
            RunPlanModel {
                summary: Summary {
                    recording_count: multi.len() as usize,
                    chapter_count: chapter_count_of(multi) as usize,
                    single_count: single.len() as usize,
                },
                moves: move_jobs_of(single, output_dir),
                merges: merge_jobs_of(multi, output_dir, scratch_dir),
                remove_commands: remove_commands_of(multi),
                copy_single_chapter: args.copy_single_chapter_instead_of_renaming,
            },
        )
    }
}

/// Plans one run: classifies the listing, groups and orders the
/// chapters, partitions the recordings, and lays out every move, merge
/// and removal command. Fails exactly when nothing in the listing parses
/// as a chapter. Both directories must already be normalized; planning
/// reads nothing from disk and writes nothing.
pub fn plan_run(entries: &Vec<DirEntry>, args: &CliArgs, output_dir: &str, scratch_dir: &str) -> (r:
    Result<RunPlan, RunError>)
    ensures
        match r {
            Ok(p) => Some(p@) == run_plan_of(entries.deep_view(), *args, output_dir@, scratch_dir@),
            Err(e) => {
                &&& run_plan_of(entries.deep_view(), *args, output_dir@, scratch_dir@) is None
                &&& e is NoRecognizedFiles
            },
        },
{
    let videos = parse_gopro_files_directory(entries);
    if videos.len() == 0 {
        return Err(RunError::NoRecognizedFiles);
    }
    let ghost vm = videos.deep_view();
    let groups = sort_gopro_files(videos);
    let p = build_plan(&groups);
    proof {
        broadcast use vstd::seq_lib::group_filter_ensures;

        lemma_parsed_videos_len(entries.deep_view());
        lemma_group_by_video_count(vm);
        lemma_sort_groups_chapter_count(crate::grouping::group_by_video(vm));
        lemma_multis_chapter_count(grouped_videos(vm));
        lemma_chapter_count_nonneg(p@.multi);
        assert(forall|i: int| 0 <= i < p@.single.len() ==> #[trigger] p@.single[i].chapters.len()
            == 1);
        assert(forall|i: int| 0 <= i < p@.multi.len() ==> #[trigger] p@.multi[i].chapters.len()
            >= 2);
        assert forall|i: int| 0 <= i < p.single@.len() implies #[trigger] p.single@[i].chapters@
            .len() >= 1 by {
            assert(p@.single[i] == p.single@[i].deep_view());
            assert(p@.single[i].chapters.len() == 1);
        }
        assert forall|i: int| 0 <= i < p.multi@.len() implies #[trigger] p.multi@[i].chapters@
            .len() >= 1 by {
            assert(p@.multi[i] == p.multi@[i].deep_view());
            assert(p@.multi[i].chapters.len() >= 2);
        }
    }
    let summary = summarize(&p);
    let moves = plan_single_chapter_moves(&p.single, output_dir);
    let merges = combine_multichapter_videos(&p.multi, output_dir, scratch_dir);
    let remove_commands = print_remove_commands(&p.multi);
    let plan = RunPlan {
        summary,
        moves,
        merges,
        remove_commands,
        copy_single_chapter: args.copy_single_chapter_instead_of_renaming,
    };
    proof {
        assert(Some(plan@) =~~= run_plan_of(
            entries.deep_view(),
            *args,
            output_dir@,
            scratch_dir@,
        ));
    }
    Ok(plan)
}

/// The plan does not depend on the dry-run or auto-confirm flags: two
/// runs over the same listing and directories, agreeing only on the
/// single-chapter handling mode, compute the same plan — so a dry run
/// reports exactly what a live run would do.
pub proof fn lemma_plan_ignores_run_mode(
    entries: Seq<DirEntryModel>,
    a: CliArgs,
    b: CliArgs,
    output_dir: Seq<char>,
    scratch_dir: Seq<char>,
)
    requires
        a.copy_single_chapter_instead_of_renaming == b.copy_single_chapter_instead_of_renaming,
    ensures
        run_plan_of(entries, a, output_dir, scratch_dir) == run_plan_of(
            entries,
            b,
            output_dir,
            scratch_dir,
        ),
{
    if parsed_videos(entries).len() != 0 {
        assert(run_plan_of(entries, a, output_dir, scratch_dir) =~~= run_plan_of(
            entries,
            b,
            output_dir,
            scratch_dir,
        ));
    }
}

} // verus!
