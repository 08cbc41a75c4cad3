use gopro_chaptered_video_assembler::demux::build_demux_content;
use gopro_chaptered_video_assembler::demux::create_ffmpeg_demuxer_input_files;
use gopro_chaptered_video_assembler::demux::escape_single_quotes;
use gopro_chaptered_video_assembler::demux::ffmpeg_concat_args;
use gopro_chaptered_video_assembler::gopro::gen_output_path;
use gopro_chaptered_video_assembler::gopro::GoProChapteredVideoFile;
use gopro_chaptered_video_assembler::plan::Summary;
use gopro_chaptered_video_assembler::printing::confirmation_granted;
use gopro_chaptered_video_assembler::printing::print_box_header;
use gopro_chaptered_video_assembler::printing::print_expected_output;
use gopro_chaptered_video_assembler::printing::print_header;
use gopro_chaptered_video_assembler::printing::print_remove_commands;
use gopro_chaptered_video_assembler::grouping::RecordingGroup;
use gopro_chaptered_video_assembler::text::u16_to_decimal;
use gopro_chaptered_video_assembler::text::usize_to_decimal;

fn chapter(path: &str, video_number: u16, chapter: u16) -> GoProChapteredVideoFile {
    GoProChapteredVideoFile { abs_path: path.to_string(), video_number, chapter }
}

#[test]
fn output_path_is_unpadded_decimal() {
    assert_eq!(gen_output_path("/out", 1234, "mp4"), "/out/GoPro_1234.mp4");
    assert_eq!(gen_output_path("/out", 1, "mp4"), "/out/GoPro_1.mp4");
    assert_eq!(gen_output_path("/out", 0, "mp4"), "/out/GoPro_0.mp4");
}

#[test]
fn demux_path_keeps_compound_extension() {
    assert_eq!(
        gen_output_path("/scratch", 7, "demux.txt"),
        "/scratch/GoPro_7.demux.txt"
    );
}

#[test]
fn decimal_rendering_is_exact() {
    assert_eq!(u16_to_decimal(0), "0");
    assert_eq!(u16_to_decimal(7), "7");
    assert_eq!(u16_to_decimal(9999), "9999");
    assert_eq!(u16_to_decimal(65535), "65535");
    assert_eq!(usize_to_decimal(0), "0");
    assert_eq!(usize_to_decimal(1000000), "1000000");
}

#[test]
fn quotes_are_escaped_for_the_manifest() {
    assert_eq!(escape_single_quotes("/a/b'c.mp4"), "/a/b'\\''c.mp4");
    assert_eq!(escape_single_quotes("no quotes"), "no quotes");
    assert_eq!(escape_single_quotes("''"), "'\\'''\\''");
}

#[test]
fn manifest_line_with_quote_stays_one_line() {
    let chapters = vec![chapter("/v/it's a video/GH011234.mp4", 1234, 1)];
    let content = build_demux_content(&chapters);
    assert_eq!(content, "file '/v/it'\\''s a video/GH011234.mp4'\n");
    assert_eq!(content.lines().count(), 1);
}

#[test]
fn manifest_lists_chapters_in_order() {
    let chapters = vec![
        chapter("/v/GH011234.mp4", 1234, 1),
        chapter("/v/GH021234.mp4", 1234, 2),
        chapter("/v/GH031234.mp4", 1234, 3),
    ];
    let content = build_demux_content(&chapters);
    assert_eq!(
        content,
        "file '/v/GH011234.mp4'\nfile '/v/GH021234.mp4'\nfile '/v/GH031234.mp4'\n"
    );
}

#[test]
fn concat_arguments_follow_the_backend_contract() {
    let args = ffmpeg_concat_args("/scratch/GoPro_1.demux.txt", "/out/GoPro_1.mp4", false);
    assert_eq!(
        args,
        vec![
            "-f",
            "concat",
            "-safe",
            "0",
            "-i",
            "/scratch/GoPro_1.demux.txt",
            "-c",
            "copy",
            "/out/GoPro_1.mp4",
        ]
    );
    let args = ffmpeg_concat_args("/scratch/GoPro_1.demux.txt", "/out/GoPro_1.mp4", true);
    assert_eq!(args.len(), 10);
    assert_eq!(args[9], "-y");
}

#[test]
fn box_header_draws_the_banner() {
    assert_eq!(
        print_box_header("abc"),
        "\u{2554}\u{2550}\u{2550}\u{2550}\u{2550}\u{2550}\u{2557}\n\u{2551} abc \u{2551}\n\u{255a}\u{2550}\u{2550}\u{2550}\u{2550}\u{2550}\u{255d}"
    );
    assert_eq!(print_header("abc"), print_box_header("abc"));
}

#[test]
fn summary_lines_spell_out_the_counts() {
    let summary = Summary { recording_count: 2, chapter_count: 5, single_count: 1 };
    let lines = print_expected_output(&summary, false);
    assert_eq!(
        lines,
        vec![
            "These make up 2 video(s), with 5 total chapters to combine".to_string(),
            "And 1 single chapter video(s) to rename".to_string(),
        ]
    );
    let lines = print_expected_output(&summary, true);
    assert_eq!(
        lines[1],
        "Skipping renaming of 1 single chapter video(s)".to_string()
    );
}

#[test]
fn remove_commands_cover_every_merged_chapter() {
    let groups = vec![
        RecordingGroup {
            video_number: 1234,
            chapters: vec![
                chapter("/v/GH011234.mp4", 1234, 1),
                chapter("/v/GH021234.mp4", 1234, 2),
            ],
        },
        RecordingGroup {
            video_number: 7,
            chapters: vec![chapter("/v/GH010007.mp4", 7, 1)],
        },
    ];
    let commands = print_remove_commands(&groups);
    assert_eq!(
        commands,
        vec![
            "rm '/v/GH011234.mp4'".to_string(),
            "rm '/v/GH021234.mp4'".to_string(),
            "rm '/v/GH010007.mp4'".to_string(),
        ]
    );
}

#[test]
fn confirmation_reads_the_answer() {
    assert!(confirmation_granted(true, ""));
    assert!(confirmation_granted(false, "y\n"));
    assert!(confirmation_granted(false, "Y"));
    assert!(confirmation_granted(false, "  yes please\n"));
    assert!(!confirmation_granted(false, "n\n"));
    assert!(!confirmation_granted(false, ""));
    assert!(!confirmation_granted(false, "  \n"));
}

#[test]
fn describe_lists_the_fields() {
    let c = chapter("/v/GH011234.mp4", 1234, 1);
    assert_eq!(
        c.describe(),
        "\nabs_path: /v/GH011234.mp4\nvideo_number: 1234\nchapter: 1\n"
    );
}

#[test]
fn demux_jobs_plan_manifest_and_timestamp_source() {
    let groups = vec![RecordingGroup {
        video_number: 1234,
        chapters: vec![
            chapter("/v/GH011234.mp4", 1234, 1),
            chapter("/v/GH021234.mp4", 1234, 2),
        ],
    }];
    let jobs = create_ffmpeg_demuxer_input_files(&groups, "/scratch");
    assert_eq!(jobs.len(), 1);
    assert_eq!(jobs[0].video_number, 1234);
    assert_eq!(jobs[0].demuxer_input_file, "/scratch/GoPro_1234.demux.txt");
    assert_eq!(
        jobs[0].demux_content,
        "file '/v/GH011234.mp4'\nfile '/v/GH021234.mp4'\n"
    );
    assert_eq!(jobs[0].first_chapter_path, "/v/GH011234.mp4");
}
