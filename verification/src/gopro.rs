//! The camera's file naming scheme: classifying one directory entry as a
//! chapter of a recording or as a rejection, and deriving output paths.
//!
//! A chaptered video file is named `GXccvvvv.mp4` or `GHccvvvv.mp4`, where
//! `cc` is the two-digit chapter number and `vvvv` the four-digit recording
//! number. Sidecar images start with `GO` or `G0` and end in `.jpg`.

use vstd::prelude::*;
use vstd::string::StringExecFns;

use crate::text::after_last;
use crate::text::all_digit_chars;
use crate::text::before_last;
use crate::text::contains_char;
use crate::text::dec_str;
use crate::text::dec_val;
use crate::text::eq_ignore_ascii_case;
use crate::text::is_digit_char;
use crate::text::last_index_of;
use crate::text::lemma_after_last_subrange;
use crate::text::lemma_before_last_subrange;
use crate::text::lemma_dec_val_bounds;
use crate::text::pow10;
use crate::text::str_eq_ignore_ascii_case;
use crate::text::u16_to_decimal;

verus! {

/// One chaptered video file as the camera wrote it to disk.
#[derive(Debug)]
pub struct GoProChapteredVideoFile {
    pub abs_path: String,
    pub video_number: u16,
    pub chapter: u16,
}

/// Mathematical model of a chapter reference.
#[verifier::ext_equal]
pub struct ChapterModel {
    pub abs_path: Seq<char>,
    pub video_number: u16,
    pub chapter: u16,
}

impl View for GoProChapteredVideoFile {
    type V = ChapterModel;

    open spec fn view(&self) -> ChapterModel {
        ChapterModel {
            abs_path: self.abs_path@,
            video_number: self.video_number,
            chapter: self.chapter,
        }
    }
}

impl DeepView for GoProChapteredVideoFile {
    type V = ChapterModel;

    open spec fn deep_view(&self) -> ChapterModel {
        self@
    }
}

/// The display form of a chapter reference: its path and both numbers,
/// one field per line.
pub open spec fn chapter_description_of(c: ChapterModel) -> Seq<char> {
    "\nabs_path: "@ + c.abs_path + "\nvideo_number: "@ + dec_str(c.video_number as int)
        + "\nchapter: "@ + dec_str(c.chapter as int) + "\n"@
}

impl GoProChapteredVideoFile {
    /// An identical chapter reference, sharing no storage with this one.
    pub fn duplicate(&self) -> (r: Self)
        ensures
            r@ == self@,
    {
        GoProChapteredVideoFile {
            abs_path: self.abs_path.clone(),
            video_number: self.video_number,
            chapter: self.chapter,
        }
    }

    /// Renders the chapter reference for logs and listings.
    pub fn describe(&self) -> (r: String)
        ensures
            r@ == chapter_description_of(self@),
    {
        let mut out = String::from_str("\nabs_path: ");
        out.append(self.abs_path.as_str());
        out.append("\nvideo_number: ");
        let video = u16_to_decimal(self.video_number);
        out.append(video.as_str());
        out.append("\nchapter: ");
        let chapter = u16_to_decimal(self.chapter);
        out.append(chapter.as_str());
        out.append("\n");
        proof {
            assert(out@ =~= chapter_description_of(self@));
        }
        out
    }
}

/// One entry of a directory listing, reduced to what classification needs:
/// its path (canonicalized by the caller at scan time) and whether the
/// entry is itself a directory.
#[derive(Debug)]
pub struct DirEntry {
    pub path: String,
    pub is_dir: bool,
}

/// Mathematical model of a directory entry.
#[verifier::ext_equal]
pub struct DirEntryModel {
    pub path: Seq<char>,
    pub is_dir: bool,
}

impl View for DirEntry {
    type V = DirEntryModel;

    open spec fn view(&self) -> DirEntryModel {
        DirEntryModel { path: self.path@, is_dir: self.is_dir }
    }
}

impl DeepView for DirEntry {
    type V = DirEntryModel;

    open spec fn deep_view(&self) -> DirEntryModel {
        self@
    }
}

/// Why a directory entry is not part of the batch. None of these reasons
/// is fatal: the caller logs the entry and goes on scanning.
#[derive(Debug)]
pub enum GoProParseError {
    /// The entry is a directory.
    IsDirectory,
    /// A `.jpg` whose name starts with `GO` or `G0`: a sidecar image the
    /// camera writes next to its videos.
    LikelyImage,
    /// Not an `.mp4` with a `GH` or `GX` prefix.
    UnrecognizedFormat,
    /// Prefix and extension fit, but the chapter or recording field is
    /// not numeric; carries the file name for diagnostics.
    MalformedNumericField { file_name: String },
}

/// The file name part of a path: everything after the last separator.
pub open spec fn file_name_of(path: Seq<char>) -> Seq<char> {
    after_last(path, '/')
}

/// The stem of a file name: everything before the last dot, or the whole
/// name when it has no dot.
pub open spec fn stem_of(name: Seq<char>) -> Seq<char> {
    before_last(name, '.')
}

/// The extension of a file name: everything after the last dot, or empty
/// when it has no dot.
pub open spec fn ext_of(name: Seq<char>) -> Seq<char> {
    if contains_char(name, '.') {
        after_last(name, '.')
    } else {
        Seq::empty()
    }
}

/// A `.jpg` named `GO...` or `G0...`: one of the camera's sidecar images.
pub open spec fn is_image_name(name: Seq<char>) -> bool {
    &&& eq_ignore_ascii_case(ext_of(name), "jpg"@)
    &&& name.len() >= 2
    &&& name[0] == 'G'
    &&& (name[1] == 'O' || name[1] == '0')
}

/// An `.mp4` named `GH...` (AVC) or `GX...` (HEVC).
pub open spec fn is_video_name(name: Seq<char>) -> bool {
    &&& eq_ignore_ascii_case(ext_of(name), "mp4"@)
    &&& name.len() >= 2
    &&& name[0] == 'G'
    &&& (name[1] == 'H' || name[1] == 'X')
}

/// The two-digit chapter field of a stem.
pub open spec fn chapter_field(stem: Seq<char>) -> Seq<char> {
    stem.subrange(2, 4)
}

/// The four-digit recording field of a stem.
pub open spec fn video_field(stem: Seq<char>) -> Seq<char> {
    stem.subrange(4, 8)
}

/// Both fixed-width fields are present and numeric.
pub open spec fn has_numeric_fields(stem: Seq<char>) -> bool {
    &&& stem.len() >= 8
    &&& all_digit_chars(chapter_field(stem))
    &&& all_digit_chars(video_field(stem))
}

/// The entry parses as a chapter reference.
pub open spec fn parse_accepts(path: Seq<char>, is_dir: bool) -> bool {
    let name = file_name_of(path);
    &&& !is_dir
    &&& !is_image_name(name)
    &&& is_video_name(name)
    &&& has_numeric_fields(stem_of(name))
}

/// The chapter reference an accepted path parses to.
pub open spec fn parsed_chapter(path: Seq<char>) -> ChapterModel {
    let stem = stem_of(file_name_of(path));
    ChapterModel {
        abs_path: path,
        video_number: dec_val(video_field(stem)) as u16,
        chapter: dec_val(chapter_field(stem)) as u16,
    }
}

/// The rejection reason that classification assigns to this entry.
pub open spec fn rejection_matches(path: Seq<char>, is_dir: bool, e: GoProParseError) -> bool {
    let name = file_name_of(path);
    match e {
        GoProParseError::IsDirectory => is_dir,
        GoProParseError::LikelyImage => !is_dir && is_image_name(name),
        GoProParseError::UnrecognizedFormat => !is_dir && !is_image_name(name)
            && !is_video_name(name),
        GoProParseError::MalformedNumericField { file_name } => {
            &&& !is_dir
            &&& !is_image_name(name)
            &&& is_video_name(name)
            &&& !has_numeric_fields(stem_of(name))
            &&& file_name@ == name
        },
    }
}

/// Reads the fixed-width decimal field `s[from..to]`, if it is made of
/// digits alone.
fn parse_decimal_field(s: &str, from: usize, to: usize) -> (r: Option<u16>)
    requires
        from <= to,
        to <= s@.len(),
        to - from <= 4,
    ensures
        match r {
            Some(v) => {
                &&& all_digit_chars(s@.subrange(from as int, to as int))
                &&& v == dec_val(s@.subrange(from as int, to as int))
            },
            None => !all_digit_chars(s@.subrange(from as int, to as int)),
        },
{
    let mut val: u16 = 0;
    let mut i: usize = from;
    while i < to
        invariant
            from <= i <= to,
            to <= s@.len(),
            to - from <= 4,
            all_digit_chars(s@.subrange(from as int, i as int)),
            val == dec_val(s@.subrange(from as int, i as int)),
        decreases to - i,
    {
        let c = s.get_char(i);
        if c < '0' || c > '9' {
            proof {
                assert(s@.subrange(from as int, to as int)[i - from] == s@[i as int]);
                assert(!is_digit_char(s@[i as int]));
            }
            return None;
        }
        proof {
            lemma_dec_val_bounds(s@.subrange(from as int, i as int));
            assert(pow10(0) == 1);
            assert(pow10(1) == 10);
            assert(pow10(2) == 100);
            assert(pow10(3) == 1000);
        }
        let d: u16 = (c as u32 - 48) as u16;
        val = val * 10 + d;
        proof {
            assert(s@.subrange(from as int, i + 1).drop_last() =~= s@.subrange(
                from as int,
                i as int,
            ));
        }
        i += 1;
    }
    proof {
        assert(s@.subrange(from as int, i as int) =~= s@.subrange(from as int, to as int));
    }
    Some(val)
}

/// Classifies one directory entry, given its path (canonicalized by the
/// caller) and whether it is a directory. Accepts exactly the chaptered
/// video names; every other entry gets the rejection reason the naming
/// rules assign to it.
pub fn parse_gopro_file(path: &str, is_dir: bool) -> (r: Result<
    GoProChapteredVideoFile,
    GoProParseError,
>)
    ensures
        r is Ok <==> parse_accepts(path@, is_dir),
        r is Ok ==> r->Ok_0@ == parsed_chapter(path@),
        r is Err ==> rejection_matches(path@, is_dir, r->Err_0),
{
    if is_dir {
        return Err(GoProParseError::IsDirectory);
    }
    let n = path.unicode_len();
    let name_start: usize = match last_index_of(path, '/') {
        Some(k) => k + 1,
        None => 0,
    };
    let name = path.substring_char(name_start, n);
    proof {
        lemma_after_last_subrange(path@, '/', name_start as int);
    }
    let name_len = name.unicode_len();
    let dot = last_index_of(name, '.');
    let stem: &str = match dot {
        Some(k) => name.substring_char(0, k),
        None => name,
    };
    let ext: &str = match dot {
        Some(k) => name.substring_char(k + 1, name_len),
        None => "",
    };
    proof {
        match dot {
            Some(k) => {
                lemma_before_last_subrange(name@, '.', k as int);
                lemma_after_last_subrange(name@, '.', k + 1);
                assert(contains_char(name@, '.'));
            },
            None => {
                reveal_strlit("");
                assert(""@ =~= Seq::<char>::empty());
            },
        }
        assert(stem@ == stem_of(name@));
        assert(ext@ == ext_of(name@));
    }
    let has_two = name_len >= 2;
    if str_eq_ignore_ascii_case(ext, "jpg") && has_two && name.get_char(0) == 'G' && (
    name.get_char(1) == 'O' || name.get_char(1) == '0') {
        return Err(GoProParseError::LikelyImage);
    }
    if !(str_eq_ignore_ascii_case(ext, "mp4") && has_two && name.get_char(0) == 'G' && (
    name.get_char(1) == 'H' || name.get_char(1) == 'X')) {
        return Err(GoProParseError::UnrecognizedFormat);
    }
    let stem_len = stem.unicode_len();
    if stem_len < 8 {
        return Err(GoProParseError::MalformedNumericField { file_name: name.to_owned() });
    }
    let chapter = match parse_decimal_field(stem, 2, 4) {
        Some(v) => v,
        None => {
            return Err(GoProParseError::MalformedNumericField { file_name: name.to_owned() });
        },
    };
    let video_number = match parse_decimal_field(stem, 4, 8) {
        Some(v) => v,
        None => {
            return Err(GoProParseError::MalformedNumericField { file_name: name.to_owned() });
        },
    };
    proof {
        lemma_dec_val_bounds(stem@.subrange(2, 4));
        lemma_dec_val_bounds(stem@.subrange(4, 8));
        assert(pow10(0) == 1);
        assert(pow10(1) == 10);
        assert(pow10(2) == 100);
        assert(pow10(3) == 1000);
        assert(pow10(4) == 10000);
    }
    Ok(GoProChapteredVideoFile { abs_path: path.to_owned(), video_number, chapter })
}

/// The chapter references of the accepted entries, in listing order.
pub open spec fn parsed_videos(entries: Seq<DirEntryModel>) -> Seq<ChapterModel>
    decreases entries.len(),
{
    if entries.len() == 0 {
        Seq::empty()
    } else if parse_accepts(entries.last().path, entries.last().is_dir) {
        parsed_videos(entries.drop_last()).push(parsed_chapter(entries.last().path))
    } else {
        parsed_videos(entries.drop_last())
    }
}

/// Every file named `GHccvvvv.mp4` or `GXccvvvv.mp4` — `cc` two digits,
/// `vvvv` four digits — parses as a chapter reference whose chapter and
/// recording numbers are exactly the values of those fields, leading
/// zeros and all.
pub proof fn lemma_parse_wellformed_name(path: Seq<char>)
    requires
        ({
            let name = file_name_of(path);
            &&& name.len() == 12
            &&& name[0] == 'G'
            &&& (name[1] == 'H' || name[1] == 'X')
            &&& (forall|i: int| 2 <= i < 8 ==> is_digit_char(#[trigger] name[i]))
            &&& name[8] == '.'
            &&& name[9] == 'm'
            &&& name[10] == 'p'
            &&& name[11] == '4'
        }),
    ensures
        parse_accepts(path, false),
        parsed_chapter(path).chapter == dec_val(file_name_of(path).subrange(2, 4)),
        parsed_chapter(path).video_number == dec_val(file_name_of(path).subrange(4, 8)),
{
    let name = file_name_of(path);
    assert(contains_char(name, '.'));
    lemma_after_last_subrange(name, '.', 9);
    lemma_before_last_subrange(name, '.', 8);
    let ext = ext_of(name);
    let stem = stem_of(name);
    assert(ext =~= name.subrange(9, 12));
    assert(stem =~= name.subrange(0, 8));
    reveal_strlit("mp4");
    reveal_strlit("jpg");
    assert(eq_ignore_ascii_case(ext, "mp4"@)) by {
        assert(ext[0] == 'm' && ext[1] == 'p' && ext[2] == '4');
    }
    assert(!eq_ignore_ascii_case(ext, "jpg"@)) by {
        assert(!crate::text::lower_eq_char(ext[0], "jpg"@[0]));
    }
    assert(!is_image_name(name));
    assert(is_video_name(name));
    assert(has_numeric_fields(stem)) by {
        assert(forall|i: int|
            0 <= i < 2 ==> is_digit_char(#[trigger] chapter_field(stem)[i]) && is_digit_char(
                name[i + 2],
            ));
        assert(forall|i: int|
            0 <= i < 4 ==> is_digit_char(#[trigger] video_field(stem)[i]) && is_digit_char(
                name[i + 4],
            ));
    }
    assert(chapter_field(stem) =~= name.subrange(2, 4));
    assert(video_field(stem) =~= name.subrange(4, 8));
    lemma_dec_val_bounds(chapter_field(stem));
    lemma_dec_val_bounds(video_field(stem));
    assert(pow10(0) == 1);
    assert(pow10(1) == 10);
    assert(pow10(2) == 100);
    assert(pow10(3) == 1000);
    assert(pow10(4) == 10000);
}

/// A listing yields at most one chapter reference per entry.
pub proof fn lemma_parsed_videos_len(entries: Seq<DirEntryModel>)
    ensures
        parsed_videos(entries).len() <= entries.len(),
    decreases entries.len(),
{
    if entries.len() > 0 {
        lemma_parsed_videos_len(entries.drop_last());
    }
}

/// Classifies a whole directory listing, keeping the chapter references
/// of the entries that parse and dropping the rejected ones.
pub fn parse_gopro_files_directory(input_files: &Vec<DirEntry>) -> (r: Vec<
    GoProChapteredVideoFile,
>)
    ensures
        r.deep_view() == parsed_videos(input_files.deep_view()),
{
    let mut videos: Vec<GoProChapteredVideoFile> = Vec::new();
    let n = input_files.len();
    let mut i: usize = 0;
    while i < n
        invariant
            n == input_files@.len(),
            i <= n,
            videos.deep_view() == parsed_videos(input_files.deep_view().take(i as int)),
        decreases n - i,
    {
        let entry = &input_files[i];
        match parse_gopro_file(entry.path.as_str(), entry.is_dir) {
            Ok(video) => {
                videos.push(video);
            },
            Err(_) => {},
        }
        proof {
            assert(input_files.deep_view().take(i + 1).drop_last() =~= input_files.deep_view()
                .take(i as int));
            assert(input_files.deep_view().take(i + 1).last() == input_files[i as int].deep_view());
        }
        i += 1;
    }
    proof {
        assert(input_files.deep_view().take(n as int) =~= input_files.deep_view());
    }
    videos
}

/// The output path for a recording: `GoPro_<n>.<extension>` inside
/// `output_dir`, with the recording number unpadded.
pub open spec fn output_path_for(output_dir: Seq<char>, video_number: u16, extension: Seq<char>) -> Seq<char> {
    output_dir + "/GoPro_"@ + dec_str(video_number as int) + "."@ + extension
}

/// Appends `GoPro_<video_number>.<extension>` to a normalized directory
/// path. The recording number is rendered as plain decimal, without the
/// zero padding of the camera's own four-digit field.
pub fn gen_output_path(output_dir: &str, video_number: u16, extension: &str) -> (r: String)
    ensures
        r@ == output_path_for(output_dir@, video_number, extension@),
{
    let mut r = output_dir.to_owned();
    r.append("/GoPro_");
    let num = u16_to_decimal(video_number);
    r.append(num.as_str());
    r.append(".");
    r.append(extension);
    r
}

} // verus!
