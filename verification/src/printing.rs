//! The text shown to the operator: the boxed program header, the
//! pre-flight summary lines, the removal commands printed after a merge,
//! and the reading of the confirmation answer.

use vstd::prelude::*;
use vstd::string::StringExecFns;

use crate::grouping::GroupModel;
use crate::grouping::RecordingGroup;
use crate::plan::Summary;
use crate::text::dec_str;
use crate::text::usize_to_decimal;

verus! {

/// `k` copies of one character.
pub open spec fn repeat_char(c: char, k: nat) -> Seq<char>
    decreases k,
{
    if k == 0 {
        Seq::empty()
    } else {
        repeat_char(c, (k - 1) as nat).push(c)
    }
}

/// A single-line text drawn inside a box: a top border two characters
/// wider than the text, the text between two bars, and a bottom border.
pub open spec fn box_header_of(text: Seq<char>) -> Seq<char> {
    let bar = repeat_char('\u{2550}', text.len() + 2);
    seq!['\u{2554}'] + bar + seq!['\u{2557}', '\n', '\u{2551}', ' '] + text + seq![
        ' ',
        '\u{2551}',
        '\n',
        '\u{255a}',
    ] + bar + seq!['\u{255d}']
}

/// Builds the horizontal border of `k` box-drawing characters.
fn repeat_bar(k: usize) -> (r: String)
    ensures
        r@ == repeat_char('\u{2550}', k as nat),
{
    let mut bar = String::new();
    let mut i: usize = 0;
    while i < k
        invariant
            i <= k,
            bar@ == repeat_char('\u{2550}', i as nat),
        decreases k - i,
    {
        bar.append("\u{2550}");
        proof {
            reveal_strlit("\u{2550}");
            assert("\u{2550}"@ =~= seq!['\u{2550}']);
            assert(bar@ =~= repeat_char('\u{2550}', (i + 1) as nat));
        }
        i += 1;
    }
    bar
}

/// Draws a box around one line of text.
pub fn print_box_header(text: &str) -> (r: String)
    requires
        text@.len() + 2 <= usize::MAX,
    ensures
        r@ == box_header_of(text@),
{
    let len = text.unicode_len();
    let bar = repeat_bar(len + 2);
    let mut header = String::from_str("\u{2554}");
    header.append(bar.as_str());
    header.append("\u{2557}\n\u{2551} ");
    header.append(text);
    header.append(" \u{2551}\n\u{255a}");
    header.append(bar.as_str());
    header.append("\u{255d}");
    proof {
        reveal_strlit("\u{2554}");
        reveal_strlit("\u{2557}\n\u{2551} ");
        reveal_strlit(" \u{2551}\n\u{255a}");
        reveal_strlit("\u{255d}");
        assert(header@ =~= box_header_of(text@));
    }
    header
}

/// The boxed banner that opens a run, from the program's display name.
pub fn print_header(name: &str) -> (r: String)
    requires
        name@.len() + 2 <= usize::MAX,
    ensures
        r@ == box_header_of(name@),
{
    print_box_header(name)
}

/// The summary line for the multi-chapter work.
pub open spec fn combine_line_of(recording_count: int, chapter_count: int) -> Seq<char> {
    "These make up "@ + dec_str(recording_count) + " video(s), with "@ + dec_str(chapter_count)
        + " total chapters to combine"@
}

/// The summary line for the single-chapter work.
pub open spec fn single_line_of(single_count: int, no_single_chapter_rename: bool) -> Seq<char> {
    if no_single_chapter_rename {
        "Skipping renaming of "@ + dec_str(single_count) + " single chapter video(s)"@
    } else {
        "And "@ + dec_str(single_count) + " single chapter video(s) to rename"@
    }
}

/// Renders the pre-flight summary as the two lines shown to the operator
/// before confirmation: the multi-chapter figures, then the
/// single-chapter count — worded for a skip when single-chapter files
/// are not being renamed.
pub fn print_expected_output(summary: &Summary, no_single_chapter_rename: bool) -> (r: Vec<String>)
    ensures
        r.deep_view() =~= seq![
            combine_line_of(summary.recording_count as int, summary.chapter_count as int),
            single_line_of(summary.single_count as int, no_single_chapter_rename),
        ],
{
    let mut combine_line = String::from_str("These make up ");
    let recordings = usize_to_decimal(summary.recording_count);
    combine_line.append(recordings.as_str());
    combine_line.append(" video(s), with ");
    let chapters = usize_to_decimal(summary.chapter_count);
    combine_line.append(chapters.as_str());
    combine_line.append(" total chapters to combine");
    let mut single_line = if no_single_chapter_rename {
        String::from_str("Skipping renaming of ")
    } else {
        String::from_str("And ")
    };
    let singles = usize_to_decimal(summary.single_count);
    single_line.append(singles.as_str());
    if no_single_chapter_rename {
        single_line.append(" single chapter video(s)");
    } else {
        single_line.append(" single chapter video(s) to rename");
    }
    let mut lines: Vec<String> = Vec::new();
    proof {
        assert(combine_line@ =~= combine_line_of(
            summary.recording_count as int,
            summary.chapter_count as int,
        ));
        assert(single_line@ =~= single_line_of(
            summary.single_count as int,
            no_single_chapter_rename,
        ));
    }
    lines.push(combine_line);
    lines.push(single_line);
    lines
}

/// The removal command for one chapter file.
pub open spec fn remove_command_of(path: Seq<char>) -> Seq<char> {
    "rm '"@ + path + "'"@
}

/// The removal commands for one group's chapters, in chapter order.
pub open spec fn group_remove_commands_of(chapters: Seq<crate::gopro::ChapterModel>) -> Seq<
    Seq<char>,
> {
    chapters.map_values(|c: crate::gopro::ChapterModel| remove_command_of(c.abs_path))
}

/// The removal commands for every merged group's original chapters.
pub open spec fn remove_commands_of(gs: Seq<GroupModel>) -> Seq<Seq<char>>
    decreases gs.len(),
{
    if gs.len() == 0 {
        Seq::empty()
    } else {
        remove_commands_of(gs.drop_last()) + group_remove_commands_of(gs.last().chapters)
    }
}

/// Lists one shell removal command per original chapter of the merged
/// recordings, for the operator to run by hand — the originals are never
/// deleted automatically.
pub fn print_remove_commands(multichapter_videos: &Vec<RecordingGroup>) -> (r: Vec<String>)
    ensures
        r.deep_view() == remove_commands_of(multichapter_videos.deep_view()),
{
    let mut commands: Vec<String> = Vec::new();
    let n = multichapter_videos.len();
    let mut i: usize = 0;
    while i < n
        invariant
            n == multichapter_videos@.len(),
            i <= n,
            commands.deep_view() == remove_commands_of(
                multichapter_videos.deep_view().take(i as int),
            ),
        decreases n - i,
    {
        let g = &multichapter_videos[i];
        let m = g.chapters.len();
        let mut j: usize = 0;
        while j < m
            invariant
                m == g.chapters@.len(),
                j <= m,
                g == &multichapter_videos[i as int],
                i < n == multichapter_videos@.len(),
                commands.deep_view() =~= remove_commands_of(
                    multichapter_videos.deep_view().take(i as int),
                ) + group_remove_commands_of(g.chapters.deep_view().take(j as int)),
            decreases m - j,
        {
            let mut line = String::from_str("rm '");
            line.append(g.chapters[j].abs_path.as_str());
            line.append("'");
            let ghost prev = commands.deep_view();
            proof {
                assert(line@ =~= remove_command_of(g.chapters.deep_view()[j as int].abs_path));
            }
            commands.push(line);
            proof {
                assert(commands.deep_view() =~= prev.push(
                    remove_command_of(g.chapters.deep_view()[j as int].abs_path),
                ));
                assert forall|t: int| 0 <= t < j implies #[trigger] group_remove_commands_of(
                    g.chapters.deep_view().take(j + 1),
                )[t] == group_remove_commands_of(g.chapters.deep_view().take(j as int))[t] by {
                    assert(g.chapters.deep_view().take(j + 1)[t] == g.chapters.deep_view().take(
                        j as int,
                    )[t]);
                }
                assert(group_remove_commands_of(g.chapters.deep_view().take(j + 1))[j as int]
                    == remove_command_of(g.chapters.deep_view()[j as int].abs_path));
                assert(commands.deep_view() =~= remove_commands_of(
                    multichapter_videos.deep_view().take(i as int),
                ) + group_remove_commands_of(g.chapters.deep_view().take(j + 1)));
            }
            j += 1;
        }
        proof {
            assert(g.chapters.deep_view().take(m as int) =~= g.chapters.deep_view());
            assert(multichapter_videos.deep_view().take(i + 1).drop_last()
                =~= multichapter_videos.deep_view().take(i as int));
            assert(multichapter_videos.deep_view().take(i + 1).last() == multichapter_videos
                .deep_view()[i as int]);
            assert(commands.deep_view() =~= remove_commands_of(
                multichapter_videos.deep_view().take(i + 1),
            ));
        }
        i += 1;
    }
    proof {
        assert(multichapter_videos.deep_view().take(n as int) =~= multichapter_videos.deep_view());
    }
    commands
}

/// ASCII whitespace, as typed answers carry it.
pub open spec fn is_ascii_whitespace(c: char) -> bool {
    c == ' ' || c == '\t' || c == '\n' || c == '\r'
}

/// The answer without its leading whitespace.
pub open spec fn trimmed_start(s: Seq<char>) -> Seq<char>
    decreases s.len(),
{
    if s.len() == 0 {
        s
    } else if is_ascii_whitespace(s.first()) {
        trimmed_start(s.drop_first())
    } else {
        s
    }
}

/// An answer counts as a yes when its first non-whitespace character is
/// `y`, in either case.
pub open spec fn answer_is_yes(s: Seq<char>) -> bool {
    trimmed_start(s).len() > 0 && (trimmed_start(s).first() == 'y' || trimmed_start(s).first()
        == 'Y')
}

/// Decides whether the run proceeds: always when confirmation is
/// skipped, else exactly when the operator's answer starts with a yes.
/// The caller reads the answer from its prompt and hands it in.
pub fn confirmation_granted(skip_confirmation: bool, answer: &str) -> (r: bool)
    ensures
        r == (skip_confirmation || answer_is_yes(answer@)),
{
    if skip_confirmation {
        return true;
    }
    let n = answer.unicode_len();
    let mut i: usize = 0;
    proof {
        assert(answer@.skip(0) =~= answer@);
    }
    while i < n
        invariant
            !skip_confirmation,
            n == answer@.len(),
            i <= n,
            trimmed_start(answer@) == trimmed_start(answer@.skip(i as int)),
        decreases n - i,
    {
        let c = answer.get_char(i);
        if !(c == ' ' || c == '\t' || c == '\n' || c == '\r') {
            proof {
                assert(answer@.skip(i as int).first() == answer@[i as int]);
                assert(!is_ascii_whitespace(answer@.skip(i as int).first()));
                assert(trimmed_start(answer@.skip(i as int)) == answer@.skip(i as int));
                assert(trimmed_start(answer@) == answer@.skip(i as int));
                assert(trimmed_start(answer@).len() > 0);
                assert(trimmed_start(answer@).first() == c);
            }
            return c == 'y' || c == 'Y';
        }
        proof {
            assert(answer@.skip(i as int).drop_first() =~= answer@.skip(i + 1));
        }
        i += 1;
    }
    proof {
        assert(answer@.skip(n as int) =~= Seq::<char>::empty());
    }
    false
}

} // verus!
