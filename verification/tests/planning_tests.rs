use gopro_chaptered_video_assembler::cli::CliArgs;
use gopro_chaptered_video_assembler::gopro::DirEntry;
use gopro_chaptered_video_assembler::gopro::GoProChapteredVideoFile;
use gopro_chaptered_video_assembler::grouping::sort_gopro_files;
use gopro_chaptered_video_assembler::grouping::RecordingGroup;
use gopro_chaptered_video_assembler::plan::build_plan;
use gopro_chaptered_video_assembler::plan::summarize;
use gopro_chaptered_video_assembler::run::plan_run;
use gopro_chaptered_video_assembler::run::RunError;
use gopro_chaptered_video_assembler::run::RunPlan;

fn chapter(path: &str, video_number: u16, chapter: u16) -> GoProChapteredVideoFile {
    GoProChapteredVideoFile { abs_path: path.to_string(), video_number, chapter }
}

fn entry(path: &str) -> DirEntry {
    DirEntry { path: path.to_string(), is_dir: false }
}

fn args(dry_run: bool, copy_single: bool) -> CliArgs {
    CliArgs {
        input: Some("/v".to_string()),
        output: Some("/out".to_string()),
        dry_run,
        auto_confirm_yes: false,
        copy_single_chapter_instead_of_renaming: copy_single,
    }
}

fn groups_equal(a: &[RecordingGroup], b: &[RecordingGroup]) -> bool {
    if a.len() != b.len() {
        return false;
    }
    for (ga, gb) in a.iter().zip(b.iter()) {
        if ga.video_number != gb.video_number || ga.chapters.len() != gb.chapters.len() {
            return false;
        }
        for (ca, cb) in ga.chapters.iter().zip(gb.chapters.iter()) {
            if ca.abs_path != cb.abs_path
                || ca.video_number != cb.video_number
                || ca.chapter != cb.chapter
            {
                return false;
            }
        }
    }
    true
}

fn plans_equal(a: &RunPlan, b: &RunPlan) -> bool {
    if a.summary.recording_count != b.summary.recording_count
        || a.summary.chapter_count != b.summary.chapter_count
        || a.summary.single_count != b.summary.single_count
        || a.copy_single_chapter != b.copy_single_chapter
        || a.moves.len() != b.moves.len()
        || a.merges.len() != b.merges.len()
        || a.remove_commands != b.remove_commands
    {
        return false;
    }
    for (ma, mb) in a.moves.iter().zip(b.moves.iter()) {
        if ma.source_path != mb.source_path || ma.output_path != mb.output_path {
            return false;
        }
    }
    for (ma, mb) in a.merges.iter().zip(b.merges.iter()) {
        if ma.video_number != mb.video_number
            || ma.chapter_paths != mb.chapter_paths
            || ma.demuxer_input_file != mb.demuxer_input_file
            || ma.demux_content != mb.demux_content
            || ma.first_chapter_path != mb.first_chapter_path
            || ma.output_path != mb.output_path
        {
            return false;
        }
    }
    true
}

#[test]
fn groups_sort_chapters_ascending() {
    let videos = vec![
        chapter("/v/GH031234.mp4", 1234, 3),
        chapter("/v/GH011234.mp4", 1234, 1),
        chapter("/v/GH021234.mp4", 1234, 2),
    ];
    let groups = sort_gopro_files(videos);
    assert_eq!(groups.len(), 1);
    assert_eq!(groups[0].video_number, 1234);
    let chapters: Vec<u16> = groups[0].chapters.iter().map(|c| c.chapter).collect();
    assert_eq!(chapters, vec![1, 2, 3]);
}

#[test]
fn grouping_is_order_independent() {
    let one = vec![
        chapter("/v/GH011234.mp4", 1234, 1),
        chapter("/v/GH021234.mp4", 1234, 2),
        chapter("/v/GH019999.mp4", 9999, 1),
    ];
    let other = vec![
        chapter("/v/GH019999.mp4", 9999, 1),
        chapter("/v/GH021234.mp4", 1234, 2),
        chapter("/v/GH011234.mp4", 1234, 1),
    ];
    let ga = sort_gopro_files(one);
    let gb = sort_gopro_files(other);
    // Group order follows first occurrence, so compare each recording's
    // chapters after aligning by recording number.
    assert_eq!(ga.len(), gb.len());
    for g in &ga {
        let matching = gb.iter().find(|h| h.video_number == g.video_number).unwrap();
        assert!(groups_equal(
            std::slice::from_ref(g),
            std::slice::from_ref(matching)
        ));
    }
}

#[test]
fn equal_chapter_numbers_keep_input_order() {
    let videos = vec![
        chapter("/v/first/GH011234.mp4", 1234, 1),
        chapter("/v/second/GH011234.mp4", 1234, 1),
    ];
    let groups = sort_gopro_files(videos);
    assert_eq!(groups.len(), 1);
    assert_eq!(groups[0].chapters[0].abs_path, "/v/first/GH011234.mp4");
    assert_eq!(groups[0].chapters[1].abs_path, "/v/second/GH011234.mp4");
}

#[test]
fn partition_is_exhaustive_and_disjoint() {
    let videos = vec![
        chapter("/v/GH011234.mp4", 1234, 1),
        chapter("/v/GH021234.mp4", 1234, 2),
        chapter("/v/GH019999.mp4", 9999, 1),
        chapter("/v/GH010007.mp4", 7, 1),
        chapter("/v/GH020007.mp4", 7, 2),
        chapter("/v/GH030007.mp4", 7, 3),
    ];
    let groups = sort_gopro_files(videos);
    let plan = build_plan(&groups);
    assert_eq!(plan.single.len() + plan.multi.len(), groups.len());
    for s in &plan.single {
        assert!(plan.multi.iter().all(|m| m.video_number != s.video_number));
    }
    let summary = summarize(&plan);
    assert_eq!(summary.recording_count, 2);
    assert_eq!(summary.chapter_count, 5);
    assert_eq!(summary.single_count, 1);
}

#[test]
fn dry_run_plans_exactly_as_live_run() {
    let entries = vec![
        entry("/v/GH011234.mp4"),
        entry("/v/GH021234.mp4"),
        entry("/v/GH019999.mp4"),
        entry("/v/GOPR0001.jpg"),
    ];
    let dry = plan_run(&entries, &args(true, false), "/out", "/tmp/scratch").unwrap();
    let live = plan_run(&entries, &args(false, false), "/out", "/tmp/scratch").unwrap();
    assert!(plans_equal(&dry, &live));
}

#[test]
fn end_to_end_plan_for_mixed_directory() {
    let entries = vec![
        entry("/v/GH011234.mp4"),
        entry("/v/GH021234.mp4"),
        entry("/v/GH019999.mp4"),
    ];
    let plan = plan_run(&entries, &args(false, false), "/out", "/scratch").unwrap();

    assert_eq!(plan.merges.len(), 1);
    let merge = &plan.merges[0];
    assert_eq!(merge.video_number, 1234);
    assert_eq!(
        merge.chapter_paths,
        vec!["/v/GH011234.mp4".to_string(), "/v/GH021234.mp4".to_string()]
    );
    assert_eq!(merge.output_path, "/out/GoPro_1234.mp4");
    assert_eq!(merge.demuxer_input_file, "/scratch/GoPro_1234.demux.txt");
    assert_eq!(merge.first_chapter_path, "/v/GH011234.mp4");
    assert_eq!(
        merge.demux_content,
        "file '/v/GH011234.mp4'\nfile '/v/GH021234.mp4'\n"
    );

    assert_eq!(plan.moves.len(), 1);
    assert_eq!(plan.moves[0].source_path, "/v/GH019999.mp4");
    assert_eq!(plan.moves[0].output_path, "/out/GoPro_9999.mp4");

    assert_eq!(plan.summary.recording_count, 1);
    assert_eq!(plan.summary.chapter_count, 2);
    assert_eq!(plan.summary.single_count, 1);

    assert_eq!(
        plan.remove_commands,
        vec![
            "rm '/v/GH011234.mp4'".to_string(),
            "rm '/v/GH021234.mp4'".to_string(),
        ]
    );
}

#[test]
fn run_without_recognized_files_is_refused() {
    let entries = vec![entry("/v/notes.txt"), entry("/v/GOPR0001.jpg")];
    let e = plan_run(&entries, &args(false, false), "/out", "/scratch").unwrap_err();
    assert!(matches!(e, RunError::NoRecognizedFiles));
}

#[test]
fn copy_mode_is_carried_into_the_plan() {
    let entries = vec![entry("/v/GH019999.mp4")];
    let plan = plan_run(&entries, &args(false, true), "/out", "/scratch").unwrap();
    assert!(plan.copy_single_chapter);
    let plan = plan_run(&entries, &args(false, false), "/out", "/scratch").unwrap();
    assert!(!plan.copy_single_chapter);
}
