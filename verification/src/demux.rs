//! The demux manifest for the merge backend, and the per-recording merge
//! jobs built from the multi-chapter groups.
//!
//! The manifest holds one line per chapter, `file '<path>'`, in chapter
//! order. A literal single quote inside a path is rendered as the escape
//! sequence `'\''` so the backend's parser reads it as a character rather
//! than a quote terminator. Line order is load-bearing: the backend
//! concatenates in manifest order.

use vstd::prelude::*;
use vstd::string::StringExecFns;

use crate::gopro::ChapterModel;
use crate::gopro::GoProChapteredVideoFile;
use crate::gopro::gen_output_path;
use crate::gopro::output_path_for;
use crate::grouping::GroupModel;
use crate::grouping::RecordingGroup;

verus! {

/// How one character of a path is rendered inside a manifest line.
pub open spec fn escape_char(c: char) -> Seq<char> {
    if c == '\'' {
        seq!['\'', '\\', '\'', '\'']
    } else {
        seq![c]
    }
}

/// A path with every literal single quote replaced by `'\''`.
pub open spec fn escape_path(s: Seq<char>) -> Seq<char>
    decreases s.len(),
{
    if s.len() == 0 {
        s
    } else {
        escape_path(s.drop_last()) + escape_char(s.last())
    }
}

/// Replaces every literal single quote with the manifest escape `'\''`.
pub fn escape_single_quotes(s: &str) -> (r: String)
    ensures
        r@ == escape_path(s@),
{
    let n = s.unicode_len();
    let mut out = String::new();
    let mut i: usize = 0;
    while i < n
        invariant
            n == s@.len(),
            i <= n,
            out@ == escape_path(s@.take(i as int)),
        decreases n - i,
    {
        let c = s.get_char(i);
        if c == '\'' {
            out.append("'\\''");
            proof {
                reveal_strlit("'\\''");
                assert("'\\''"@ =~= seq!['\'', '\\', '\'', '\'']);
            }
        } else {
            let piece = s.substring_char(i, i + 1);
            out.append(piece);
            proof {
                assert(piece@ =~= seq![s@[i as int]]);
            }
        }
        proof {
            assert(s@.take(i + 1).drop_last() =~= s@.take(i as int));
            assert(s@.take(i + 1).last() == s@[i as int]);
        }
        i += 1;
    }
    proof {
        assert(s@.take(n as int) =~= s@);
    }
    out
}

/// One manifest line: `file '<escaped path>'` and a newline.
pub open spec fn demux_line_of(path: Seq<char>) -> Seq<char> {
    "file '"@ + escape_path(path) + "'\n"@
}

/// The whole manifest: one line per chapter, in chapter order.
pub open spec fn demux_content_of(chapters: Seq<ChapterModel>) -> Seq<char>
    decreases chapters.len(),
{
    if chapters.len() == 0 {
        Seq::empty()
    } else {
        demux_content_of(chapters.drop_last()) + demux_line_of(chapters.last().abs_path)
    }
}

/// Builds the manifest text for one recording's ordered chapters.
pub fn build_demux_content(chapters: &Vec<GoProChapteredVideoFile>) -> (r: String)
    ensures
        r@ == demux_content_of(chapters.deep_view()),
{
    let n = chapters.len();
    let mut out = String::new();
    let mut i: usize = 0;
    while i < n
        invariant
            n == chapters@.len(),
            i <= n,
            out@ == demux_content_of(chapters.deep_view().take(i as int)),
        decreases n - i,
    {
        let escaped = escape_single_quotes(chapters[i].abs_path.as_str());
        out.append("file '");
        out.append(escaped.as_str());
        out.append("'\n");
        proof {
            assert(chapters.deep_view().take(i + 1).drop_last() =~= chapters.deep_view().take(
                i as int,
            ));
            assert(chapters.deep_view().take(i + 1).last() == chapters.deep_view()[i as int]);
        }
        i += 1;
    }
    proof {
        assert(chapters.deep_view().take(n as int) =~= chapters.deep_view());
    }
    out
}

/// One recording's demux manifest: where it goes, what it holds, and
/// whose timestamp the merged output should inherit.
#[derive(Debug)]
pub struct DemuxJob {
    pub video_number: u16,
    pub demuxer_input_file: String,
    pub demux_content: String,
    pub first_chapter_path: String,
}

/// Mathematical model of a demux job.
#[verifier::ext_equal]
pub struct DemuxJobModel {
    pub video_number: u16,
    pub demuxer_input_file: Seq<char>,
    pub demux_content: Seq<char>,
    pub first_chapter_path: Seq<char>,
}

impl View for DemuxJob {
    type V = DemuxJobModel;

    open spec fn view(&self) -> DemuxJobModel {
        DemuxJobModel {
            video_number: self.video_number,
            demuxer_input_file: self.demuxer_input_file@,
            demux_content: self.demux_content@,
            first_chapter_path: self.first_chapter_path@,
        }
    }
}

impl DeepView for DemuxJob {
    type V = DemuxJobModel;

    open spec fn deep_view(&self) -> DemuxJobModel {
        self@
    }
}

/// The demux jobs of the multi-chapter groups: each group's manifest goes
/// to `GoPro_<n>.demux.txt` in the scratch directory and lists the group's
/// chapters in order.
pub open spec fn demux_jobs_of(multi: Seq<GroupModel>, scratch_dir: Seq<char>) -> Seq<
    DemuxJobModel,
> {
    multi.map_values(
        |g: GroupModel| DemuxJobModel {
            video_number: g.video_number,
            demuxer_input_file: output_path_for(scratch_dir, g.video_number, "demux.txt"@),
            demux_content: demux_content_of(g.chapters),
            first_chapter_path: g.chapters[0].abs_path,
        },
    )
}

/// Plans the demux manifest of every multi-chapter recording: its file
/// path inside the scratch directory, its content, and the first
/// chapter's path (whose modification time the merged file inherits).
/// The caller writes each manifest to its path.
pub fn create_ffmpeg_demuxer_input_files(multi: &Vec<RecordingGroup>, scratch_dir: &str) -> (r:
    Vec<DemuxJob>)
    requires
        forall|i: int| 0 <= i < multi@.len() ==> #[trigger] multi@[i].chapters@.len() >= 1,
    ensures
        r.deep_view() == demux_jobs_of(multi.deep_view(), scratch_dir@),
{
    let mut jobs: Vec<DemuxJob> = Vec::new();
    let n = multi.len();
    let mut i: usize = 0;
    while i < n
        invariant
            n == multi@.len(),
            i <= n,
            forall|k: int| 0 <= k < n ==> #[trigger] multi@[k].chapters@.len() >= 1,
            jobs.deep_view() == demux_jobs_of(multi.deep_view().take(i as int), scratch_dir@),
        decreases n - i,
    {
        let g = &multi[i];
        let job = DemuxJob {
            video_number: g.video_number,
            demuxer_input_file: gen_output_path(scratch_dir, g.video_number, "demux.txt"),
            demux_content: build_demux_content(&g.chapters),
            first_chapter_path: g.chapters[0].abs_path.clone(),
        };
        let ghost prev = jobs.deep_view();
        proof {
            assert(job@ == demux_jobs_of(multi.deep_view().take(i + 1), scratch_dir@)[i as int]);
        }
        jobs.push(job);
        proof {
            assert(jobs.deep_view() =~= prev.push(
                demux_jobs_of(multi.deep_view().take(i + 1), scratch_dir@)[i as int],
            ));
            assert forall|t: int| 0 <= t < i implies demux_jobs_of(
                multi.deep_view().take(i as int),
                scratch_dir@,
            )[t] == demux_jobs_of(multi.deep_view().take(i + 1), scratch_dir@)[t] by {
                assert(multi.deep_view().take(i + 1)[t] == multi.deep_view().take(i as int)[t]);
            }
            assert(jobs.deep_view() =~= demux_jobs_of(
                multi.deep_view().take(i + 1),
                scratch_dir@,
            ));
        }
        i += 1;
    }
    proof {
        assert(multi.deep_view().take(n as int) =~= multi.deep_view());
    }
    jobs
}

/// One planned invocation of the merge backend.
#[derive(Debug)]
pub struct MergeJob {
    pub video_number: u16,
    pub chapter_paths: Vec<String>,
    pub demuxer_input_file: String,
    pub demux_content: String,
    pub first_chapter_path: String,
    pub output_path: String,
}

/// Mathematical model of a merge job.
#[verifier::ext_equal]
pub struct MergeJobModel {
    pub video_number: u16,
    pub chapter_paths: Seq<Seq<char>>,
    pub demuxer_input_file: Seq<char>,
    pub demux_content: Seq<char>,
    pub first_chapter_path: Seq<char>,
    pub output_path: Seq<char>,
}

impl View for MergeJob {
    type V = MergeJobModel;

    open spec fn view(&self) -> MergeJobModel {
        MergeJobModel {
            video_number: self.video_number,
            chapter_paths: self.chapter_paths.deep_view(),
            demuxer_input_file: self.demuxer_input_file@,
            demux_content: self.demux_content@,
            first_chapter_path: self.first_chapter_path@,
            output_path: self.output_path@,
        }
    }
}

impl DeepView for MergeJob {
    type V = MergeJobModel;

    open spec fn deep_view(&self) -> MergeJobModel {
        self@
    }
}

/// The chapter paths of one group, in chapter order.
pub open spec fn chapter_paths_of(g: GroupModel) -> Seq<Seq<char>> {
    g.chapters.map_values(|c: ChapterModel| c.abs_path)
}

/// The merge jobs of the multi-chapter groups: each concatenates its
/// group's chapters, in order, into `GoPro_<n>.mp4` in the output
/// directory, guided by the manifest in the scratch directory.
pub open spec fn merge_jobs_of(
    multi: Seq<GroupModel>,
    output_dir: Seq<char>,
    scratch_dir: Seq<char>,
) -> Seq<MergeJobModel> {
    multi.map_values(
        |g: GroupModel| MergeJobModel {
            video_number: g.video_number,
            chapter_paths: chapter_paths_of(g),
            demuxer_input_file: output_path_for(scratch_dir, g.video_number, "demux.txt"@),
            demux_content: demux_content_of(g.chapters),
            first_chapter_path: g.chapters[0].abs_path,
            output_path: output_path_for(output_dir, g.video_number, "mp4"@),
        },
    )
}

/// Copies one group's chapter paths, in order.
fn collect_chapter_paths(g: &RecordingGroup) -> (r: Vec<String>)
    ensures
        r.deep_view() == chapter_paths_of(g@),
{
    let mut paths: Vec<String> = Vec::new();
    let n = g.chapters.len();
    let mut i: usize = 0;
    while i < n
        invariant
            n == g.chapters@.len(),
            i <= n,
            paths.deep_view() == g.chapters.deep_view().take(i as int).map_values(
                |c: ChapterModel| c.abs_path,
            ),
        decreases n - i,
    {
        let p = g.chapters[i].abs_path.clone();
        let ghost prev = paths.deep_view();
        paths.push(p);
        proof {
            assert(paths.deep_view() =~= prev.push(g.chapters.deep_view()[i as int].abs_path));
            assert forall|t: int| 0 <= t < i + 1 implies paths.deep_view()[t] == g.chapters
                .deep_view().take(i + 1).map_values(|c: ChapterModel| c.abs_path)[t] by {
                if t < i {
                    assert(g.chapters.deep_view().take(i + 1)[t] == g.chapters.deep_view().take(
                        i as int,
                    )[t]);
                }
            }
            assert(paths.deep_view() =~= g.chapters.deep_view().take(i + 1).map_values(
                |c: ChapterModel| c.abs_path,
            ));
        }
        i += 1;
    }
    proof {
        assert(g.chapters.deep_view().take(n as int) =~= g.chapters.deep_view());
    }
    paths
}

/// Plans one merge per multi-chapter recording: ordered chapter paths,
/// the demux manifest, and the output path. The caller hands each job to
/// the merge backend — or, on a dry run, only reports it.
pub fn combine_multichapter_videos(
    multi: &Vec<RecordingGroup>,
    output_dir: &str,
    scratch_dir: &str,
) -> (r: Vec<MergeJob>)
    requires
        forall|i: int| 0 <= i < multi@.len() ==> #[trigger] multi@[i].chapters@.len() >= 1,
    ensures
        r.deep_view() == merge_jobs_of(multi.deep_view(), output_dir@, scratch_dir@),
{
    let mut jobs: Vec<MergeJob> = Vec::new();
    let n = multi.len();
    let mut i: usize = 0;
    while i < n
        invariant
            n == multi@.len(),
            i <= n,
            forall|k: int| 0 <= k < n ==> #[trigger] multi@[k].chapters@.len() >= 1,
            jobs.deep_view() == merge_jobs_of(
                multi.deep_view().take(i as int),
                output_dir@,
                scratch_dir@,
            ),
        decreases n - i,
    {
        let g = &multi[i];
        let job = MergeJob {
            video_number: g.video_number,
            chapter_paths: collect_chapter_paths(g),
            demuxer_input_file: gen_output_path(scratch_dir, g.video_number, "demux.txt"),
            demux_content: build_demux_content(&g.chapters),
            first_chapter_path: g.chapters[0].abs_path.clone(),
            output_path: gen_output_path(output_dir, g.video_number, "mp4"),
        };
        let ghost prev = jobs.deep_view();
        proof {
            assert(job@ =~~= merge_jobs_of(
                multi.deep_view().take(i + 1),
                output_dir@,
                scratch_dir@,
            )[i as int]);
        }
        jobs.push(job);
        proof {
            assert(jobs.deep_view() =~~= prev.push(
                merge_jobs_of(multi.deep_view().take(i + 1), output_dir@, scratch_dir@)[i as int],
            ));
            assert forall|t: int| 0 <= t < i implies merge_jobs_of(
                multi.deep_view().take(i as int),
                output_dir@,
                scratch_dir@,
            )[t] == merge_jobs_of(multi.deep_view().take(i + 1), output_dir@, scratch_dir@)[t] by {
                assert(multi.deep_view().take(i + 1)[t] == multi.deep_view().take(i as int)[t]);
            }
            assert(jobs.deep_view() =~~= merge_jobs_of(
                multi.deep_view().take(i + 1),
                output_dir@,
                scratch_dir@,
            ));
        }
        i += 1;
    }
    proof {
        assert(multi.deep_view().take(n as int) =~= multi.deep_view());
    }
    jobs
}

/// The argument list of the backend's concat invocation: read the
/// manifest, copy streams without re-encoding, write the output path, and
/// overwrite without prompting when the run is auto-confirmed.
pub open spec fn ffmpeg_args_of(
    demuxer_input_file: Seq<char>,
    output_file: Seq<char>,
    auto_confirm: bool,
) -> Seq<Seq<char>> {
    let base = seq![
        "-f"@,
        "concat"@,
        "-safe"@,
        "0"@,
        "-i"@,
        demuxer_input_file,
        "-c"@,
        "copy"@,
        output_file,
    ];
    if auto_confirm {
        base.push("-y"@)
    } else {
        base
    }
}

/// Builds the argument list for one concat invocation of the subprocess
/// merge backend.
pub fn ffmpeg_concat_args(demuxer_input_file: &str, output_file: &str, auto_confirm: bool) -> (r:
    Vec<String>)
    ensures
        r.deep_view() == ffmpeg_args_of(demuxer_input_file@, output_file@, auto_confirm),
{
    let mut args: Vec<String> = Vec::new();
    args.push(String::from_str("-f"));
    args.push(String::from_str("concat"));
    args.push(String::from_str("-safe"));
    args.push(String::from_str("0"));
    args.push(String::from_str("-i"));
    args.push(demuxer_input_file.to_owned());
    args.push(String::from_str("-c"));
    args.push(String::from_str("copy"));
    args.push(output_file.to_owned());
    if auto_confirm {
        args.push(String::from_str("-y"));
    }
    proof {
        assert(args.deep_view() =~~= ffmpeg_args_of(
            demuxer_input_file@,
            output_file@,
            auto_confirm,
        ));
    }
    args
}

} // verus!
