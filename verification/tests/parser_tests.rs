use gopro_chaptered_video_assembler::gopro::parse_gopro_file;
use gopro_chaptered_video_assembler::gopro::parse_gopro_files_directory;
use gopro_chaptered_video_assembler::gopro::DirEntry;
use gopro_chaptered_video_assembler::gopro::GoProParseError;

fn entry(path: &str) -> DirEntry {
    DirEntry { path: path.to_string(), is_dir: false }
}

#[test]
fn parses_avc_chapter_name() {
    let v = parse_gopro_file("/videos/GH011234.mp4", false).unwrap();
    assert_eq!(v.abs_path, "/videos/GH011234.mp4");
    assert_eq!(v.video_number, 1234);
    assert_eq!(v.chapter, 1);
}

#[test]
fn parses_hevc_chapter_name() {
    let v = parse_gopro_file("/videos/GX991234.mp4", false).unwrap();
    assert_eq!(v.video_number, 1234);
    assert_eq!(v.chapter, 99);
}

#[test]
fn parses_leading_zeros_exactly() {
    let v = parse_gopro_file("GH010001.mp4", false).unwrap();
    assert_eq!(v.video_number, 1);
    assert_eq!(v.chapter, 1);
    let v = parse_gopro_file("GH070042.mp4", false).unwrap();
    assert_eq!(v.video_number, 42);
    assert_eq!(v.chapter, 7);
}

#[test]
fn parses_uppercase_extension() {
    let v = parse_gopro_file("/x/GH021234.MP4", false).unwrap();
    assert_eq!(v.video_number, 1234);
    assert_eq!(v.chapter, 2);
}

#[test]
fn rejects_directory() {
    let e = parse_gopro_file("/videos/GH011234.mp4", true).unwrap_err();
    assert!(matches!(e, GoProParseError::IsDirectory));
}

#[test]
fn rejects_gopro_image_as_likely_image() {
    let e = parse_gopro_file("/videos/GOPR1234.jpg", false).unwrap_err();
    assert!(matches!(e, GoProParseError::LikelyImage));
    let e = parse_gopro_file("/videos/G0PR1234.jpg", false).unwrap_err();
    assert!(matches!(e, GoProParseError::LikelyImage));
}

#[test]
fn rejects_unrecognized_extension() {
    let e = parse_gopro_file("/videos/GH011234.avi", false).unwrap_err();
    assert!(matches!(e, GoProParseError::UnrecognizedFormat));
}

#[test]
fn rejects_unrecognized_prefix() {
    let e = parse_gopro_file("/videos/XH011234.mp4", false).unwrap_err();
    assert!(matches!(e, GoProParseError::UnrecognizedFormat));
}

#[test]
fn rejects_name_without_extension() {
    let e = parse_gopro_file("/videos/GH011234", false).unwrap_err();
    assert!(matches!(e, GoProParseError::UnrecognizedFormat));
}

#[test]
fn rejects_non_numeric_chapter_field() {
    let e = parse_gopro_file("/videos/GHxx1234.mp4", false).unwrap_err();
    match e {
        GoProParseError::MalformedNumericField { file_name } => {
            assert_eq!(file_name, "GHxx1234.mp4");
        }
        _ => panic!("expected a malformed numeric field"),
    }
}

#[test]
fn rejects_non_numeric_video_field() {
    let e = parse_gopro_file("/videos/GH0112a4.mp4", false).unwrap_err();
    assert!(matches!(e, GoProParseError::MalformedNumericField { .. }));
}

#[test]
fn rejects_short_stem() {
    let e = parse_gopro_file("/videos/GH01.mp4", false).unwrap_err();
    assert!(matches!(e, GoProParseError::MalformedNumericField { .. }));
}

#[test]
fn directory_scan_keeps_only_chapters() {
    let entries = vec![
        entry("/v/GH011234.mp4"),
        entry("/v/GOPR0001.jpg"),
        entry("/v/notes.txt"),
        DirEntry { path: "/v/subdir".to_string(), is_dir: true },
        entry("/v/GX021234.mp4"),
    ];
    let videos = parse_gopro_files_directory(&entries);
    assert_eq!(videos.len(), 2);
    assert_eq!(videos[0].abs_path, "/v/GH011234.mp4");
    assert_eq!(videos[0].chapter, 1);
    assert_eq!(videos[1].abs_path, "/v/GX021234.mp4");
    assert_eq!(videos[1].chapter, 2);
    assert_eq!(videos[1].video_number, 1234);
}

#[test]
fn image_never_reaches_a_group() {
    let entries = vec![entry("/v/GOPR1234.jpg"), entry("/v/G0PR5678.jpg")];
    let videos = parse_gopro_files_directory(&entries);
    assert_eq!(videos.len(), 0);
}
