//! Grouping chapter references by recording number, and ordering the
//! chapters of each recording ascending by chapter number.
//!
//! Groups appear in order of each recording's first occurrence in the
//! input, so the result is a deterministic function of the input listing.
//! Within a group, chapters with equal chapter numbers keep their input
//! order (a stable sort), though the naming scheme never produces two
//! chapters of one recording with the same number.

use vstd::prelude::*;
use vstd::multiset::Multiset;

use crate::gopro::ChapterModel;
use crate::gopro::GoProChapteredVideoFile;

verus! {

/// All chapters of one recording, ordered ascending by chapter number.
#[derive(Debug)]
pub struct RecordingGroup {
    pub video_number: u16,
    pub chapters: Vec<GoProChapteredVideoFile>,
}

/// Mathematical model of a recording group.
#[verifier::ext_equal]
pub struct GroupModel {
    pub video_number: u16,
    pub chapters: Seq<ChapterModel>,
}

impl View for RecordingGroup {
    type V = GroupModel;

    open spec fn view(&self) -> GroupModel {
        GroupModel { video_number: self.video_number, chapters: self.chapters.deep_view() }
    }
}

impl DeepView for RecordingGroup {
    type V = GroupModel;

    open spec fn deep_view(&self) -> GroupModel {
        self@
    }
}

impl RecordingGroup {
    /// An identical group, sharing no storage with this one.
    pub fn duplicate(&self) -> (r: Self)
        ensures
            r@ == self@,
    {
        let mut chapters: Vec<GoProChapteredVideoFile> = Vec::new();
        let n = self.chapters.len();
        let mut i: usize = 0;
        while i < n
            invariant
                n == self.chapters@.len(),
                i <= n,
                chapters.deep_view() == self.chapters.deep_view().take(i as int),
            decreases n - i,
        {
            let c = self.chapters[i].duplicate();
            let ghost prev = chapters.deep_view();
            chapters.push(c);
            proof {
                assert(chapters.deep_view() =~= prev.push(c@));
                assert(chapters.deep_view() =~= self.chapters.deep_view().take(i + 1));
            }
            i += 1;
        }
        proof {
            assert(self.chapters.deep_view().take(n as int) =~= self.chapters.deep_view());
        }
        let r = RecordingGroup { video_number: self.video_number, chapters };
        proof {
            assert(r@ =~~= self@);
        }
        r
    }
}

/// Index of the group keyed by `n`, or `-1` when no group has that key.
pub open spec fn group_index(gs: Seq<GroupModel>, n: u16) -> int
    decreases gs.len(),
{
    if gs.len() == 0 {
        -1
    } else if gs[0].video_number == n {
        0
    } else {
        let r = group_index(gs.drop_first(), n);
        if r < 0 {
            -1
        } else {
            r + 1
        }
    }
}

/// Appends one chapter to the group of its recording, creating that group
/// at the end when the recording is new.
pub open spec fn insert_chapter(gs: Seq<GroupModel>, c: ChapterModel) -> Seq<GroupModel> {
    let i = group_index(gs, c.video_number);
    if i < 0 {
        gs.push(GroupModel { video_number: c.video_number, chapters: seq![c] })
    } else {
        gs.update(i, GroupModel { video_number: c.video_number, chapters: gs[i].chapters.push(c) })
    }
}

/// Buckets a chapter sequence by recording number; chapters stay in input
/// order within each bucket.
pub open spec fn group_by_video(s: Seq<ChapterModel>) -> Seq<GroupModel>
    decreases s.len(),
{
    if s.len() == 0 {
        Seq::empty()
    } else {
        insert_chapter(group_by_video(s.drop_last()), s.last())
    }
}

/// The chapters of recording `n`, in input order.
pub open spec fn chapters_of(s: Seq<ChapterModel>, n: u16) -> Seq<ChapterModel>
    decreases s.len(),
{
    if s.len() == 0 {
        Seq::empty()
    } else if s.last().video_number == n {
        chapters_of(s.drop_last(), n).push(s.last())
    } else {
        chapters_of(s.drop_last(), n)
    }
}

/// Ascending by chapter number.
pub open spec fn sorted_by_chapter(s: Seq<ChapterModel>) -> bool {
    forall|i: int, j: int| 0 <= i < j < s.len() ==> s[i].chapter <= s[j].chapter
}

/// Stable insertion: the new chapter goes after every chapter with a
/// number less than or equal to its own.
pub open spec fn insert_by_chapter(s: Seq<ChapterModel>, c: ChapterModel) -> Seq<ChapterModel>
    decreases s.len(),
{
    if s.len() == 0 {
        seq![c]
    } else if s.last().chapter <= c.chapter {
        s.push(c)
    } else {
        insert_by_chapter(s.drop_last(), c).push(s.last())
    }
}

/// Stable insertion sort by chapter number.
pub open spec fn sort_by_chapter(s: Seq<ChapterModel>) -> Seq<ChapterModel>
    decreases s.len(),
{
    if s.len() == 0 {
        s
    } else {
        insert_by_chapter(sort_by_chapter(s.drop_last()), s.last())
    }
}

/// Sorts the chapters of every group.
pub open spec fn sort_groups(gs: Seq<GroupModel>) -> Seq<GroupModel> {
    gs.map_values(
        |g: GroupModel| GroupModel {
            video_number: g.video_number,
            chapters: sort_by_chapter(g.chapters),
        },
    )
}

/// The full grouping: bucket by recording number, then order each bucket
/// ascending by chapter number.
pub open spec fn grouped_videos(s: Seq<ChapterModel>) -> Seq<GroupModel> {
    sort_groups(group_by_video(s))
}

/// `group_index` returns the position of the first matching group.
proof fn lemma_group_index_of_match(gs: Seq<GroupModel>, n: u16, j: int)
    requires
        0 <= j < gs.len(),
        gs[j].video_number == n,
        forall|jj: int| 0 <= jj < j ==> gs[jj].video_number != n,
    ensures
        group_index(gs, n) == j,
    decreases gs.len(),
{
    if j > 0 {
        lemma_group_index_of_match(gs.drop_first(), n, j - 1);
    }
}

/// `group_index` is `-1` exactly when no group matches.
proof fn lemma_group_index_none(gs: Seq<GroupModel>, n: u16)
    requires
        forall|j: int| 0 <= j < gs.len() ==> gs[j].video_number != n,
    ensures
        group_index(gs, n) == -1,
    decreases gs.len(),
{
    if gs.len() > 0 {
        assert(forall|j: int|
            0 <= j < gs.drop_first().len() ==> gs.drop_first()[j].video_number != n);
        lemma_group_index_none(gs.drop_first(), n);
    }
}

/// `group_index` stays within the sequence, or is `-1`.
pub proof fn lemma_group_index_range(gs: Seq<GroupModel>, n: u16)
    ensures
        -1 <= group_index(gs, n) < gs.len(),
        group_index(gs, n) >= 0 ==> gs[group_index(gs, n)].video_number == n,
    decreases gs.len(),
{
    if gs.len() > 0 && gs[0].video_number != n {
        lemma_group_index_range(gs.drop_first(), n);
    }
}

/// Inserting one chapter grows the inserted sequence by one element.
pub proof fn lemma_insert_by_chapter_len(s: Seq<ChapterModel>, c: ChapterModel)
    ensures
        insert_by_chapter(s, c).len() == s.len() + 1,
    decreases s.len(),
{
    if s.len() > 0 && s.last().chapter > c.chapter {
        lemma_insert_by_chapter_len(s.drop_last(), c);
    }
}

/// Sorting keeps the number of chapters.
pub proof fn lemma_sort_by_chapter_len(s: Seq<ChapterModel>)
    ensures
        sort_by_chapter(s).len() == s.len(),
    decreases s.len(),
{
    if s.len() > 0 {
        lemma_sort_by_chapter_len(s.drop_last());
        lemma_insert_by_chapter_len(sort_by_chapter(s.drop_last()), s.last());
    }
}

/// Positional form of stable insertion: inserting at the first position
/// (from the right) whose suffix holds only larger chapter numbers.
proof fn lemma_insert_by_chapter_at(s: Seq<ChapterModel>, c: ChapterModel, k: int)
    requires
        0 <= k <= s.len(),
        forall|j: int| k <= j < s.len() ==> s[j].chapter > c.chapter,
        k > 0 ==> s[k - 1].chapter <= c.chapter,
    ensures
        insert_by_chapter(s, c) == s.insert(k, c),
    decreases s.len(),
{
    if k == s.len() {
        if s.len() == 0 {
            assert(insert_by_chapter(s, c) =~= s.insert(k, c));
        } else {
            assert(s.last().chapter <= c.chapter);
            assert(insert_by_chapter(s, c) =~= s.insert(k, c));
        }
    } else {
        assert(s.last().chapter > c.chapter);
        lemma_insert_by_chapter_at(s.drop_last(), c, k);
        assert(insert_by_chapter(s, c) =~= s.insert(k, c));
    }
}

/// How appending a group moves `group_index`: an existing key keeps its
/// index; a fresh key is found at the end exactly when it is the new
/// group's key.
proof fn lemma_group_index_push(gs: Seq<GroupModel>, g: GroupModel, n: u16)
    ensures
        group_index(gs.push(g), n) == if group_index(gs, n) >= 0 {
            group_index(gs, n)
        } else if g.video_number == n {
            gs.len() as int
        } else {
            -1
        },
    decreases gs.len(),
{
    if gs.len() == 0 {
        assert(gs.push(g).drop_first() =~= Seq::<GroupModel>::empty());
        assert(gs.push(g)[0] == g);
        if g.video_number == n {
            assert(group_index(gs.push(g), n) == 0);
        } else {
            assert(group_index(Seq::<GroupModel>::empty(), n) == -1);
            assert(group_index(gs.push(g), n) == -1);
        }
    } else {
        assert(gs.push(g)[0] == gs[0]);
        assert(gs.push(g).drop_first() =~= gs.drop_first().push(g));
        lemma_group_index_push(gs.drop_first(), g, n);
        if gs[0].video_number != n {
            let r1 = group_index(gs.drop_first().push(g), n);
            assert(group_index(gs.push(g), n) == if r1 < 0 {
                -1
            } else {
                r1 + 1
            });
            let r0 = group_index(gs.drop_first(), n);
            assert(group_index(gs, n) == if r0 < 0 {
                -1
            } else {
                r0 + 1
            });
        }
    }
}

/// Replacing a group with one of the same key leaves every lookup where
/// it was.
proof fn lemma_group_index_update(gs: Seq<GroupModel>, i: int, g: GroupModel, n: u16)
    requires
        0 <= i < gs.len(),
        gs[i].video_number == g.video_number,
    ensures
        group_index(gs.update(i, g), n) == group_index(gs, n),
    decreases gs.len(),
{
    if i == 0 {
        assert(gs.update(i, g).drop_first() =~= gs.drop_first());
    } else {
        assert(gs.update(i, g).drop_first() =~= gs.drop_first().update(i - 1, g));
        lemma_group_index_update(gs.drop_first(), i - 1, g, n);
    }
}

/// Every bucket is keyed by a distinct recording number.
pub proof fn lemma_group_keys_unique(s: Seq<ChapterModel>)
    ensures
        forall|i: int, j: int|
            0 <= i < j < group_by_video(s).len() ==> group_by_video(s)[i].video_number
                != group_by_video(s)[j].video_number,
    decreases s.len(),
{
    if s.len() > 0 {
        lemma_group_keys_unique(s.drop_last());
        let gs = group_by_video(s.drop_last());
        let c = s.last();
        lemma_group_index_range(gs, c.video_number);
        let k = group_index(gs, c.video_number);
        if k < 0 {
            lemma_group_index_none_converse(gs, c.video_number);
        }
    }
}

/// When `group_index` misses, no group has the key.
proof fn lemma_group_index_none_converse(gs: Seq<GroupModel>, n: u16)
    requires
        group_index(gs, n) == -1,
    ensures
        forall|j: int| 0 <= j < gs.len() ==> gs[j].video_number != n,
    decreases gs.len(),
{
    if gs.len() > 0 {
        lemma_group_index_none_converse(gs.drop_first(), n);
        assert forall|j: int| 0 <= j < gs.len() implies gs[j].video_number != n by {
            if j > 0 {
                assert(gs.drop_first()[j - 1] == gs[j]);
            }
        }
    }
}

/// No bucket is empty.
pub proof fn lemma_group_nonempty(s: Seq<ChapterModel>)
    ensures
        forall|i: int|
            0 <= i < group_by_video(s).len() ==> #[trigger] group_by_video(
                s,
            )[i].chapters.len() >= 1,
    decreases s.len(),
{
    if s.len() > 0 {
        lemma_group_nonempty(s.drop_last());
        let gs = group_by_video(s.drop_last());
        lemma_group_index_range(gs, s.last().video_number);
    }
}

/// Every chapter of a recording's bucket carries that recording number.
proof fn lemma_chapters_of_key(s: Seq<ChapterModel>, n: u16)
    ensures
        forall|k: int|
            0 <= k < chapters_of(s, n).len() ==> #[trigger] chapters_of(s, n)[k].video_number
                == n,
    decreases s.len(),
{
    if s.len() > 0 {
        lemma_chapters_of_key(s.drop_last(), n);
        assert forall|k: int|
            0 <= k < chapters_of(s, n).len() implies #[trigger] chapters_of(s, n)[k].video_number
            == n by {
            if s.last().video_number == n {
                if k < chapters_of(s.drop_last(), n).len() {
                    assert(chapters_of(s, n)[k] == chapters_of(s.drop_last(), n)[k]);
                } else {
                    assert(chapters_of(s, n)[k] == s.last());
                }
            } else {
                assert(chapters_of(s, n)[k] == chapters_of(s.drop_last(), n)[k]);
            }
        }
    }
}

/// The bucket of recording `n` holds exactly that recording's chapters,
/// in input order — and exists exactly when there are any.
pub proof fn lemma_bucket_contents(s: Seq<ChapterModel>, n: u16)
    ensures
        chapters_of(s, n).len() == 0 ==> group_index(group_by_video(s), n) == -1,
        chapters_of(s, n).len() > 0 ==> {
            let i = group_index(group_by_video(s), n);
            &&& 0 <= i < group_by_video(s).len()
            &&& group_by_video(s)[i].chapters == chapters_of(s, n)
        },
    decreases s.len(),
{
    if s.len() > 0 {
        lemma_bucket_contents(s.drop_last(), n);
        let dl = s.drop_last();
        let gs = group_by_video(dl);
        let c = s.last();
        lemma_group_index_range(gs, c.video_number);
        let k = group_index(gs, c.video_number);
        if k < 0 {
            let fresh = GroupModel { video_number: c.video_number, chapters: seq![c] };
            lemma_group_index_push(gs, fresh, n);
            assert(group_by_video(s) == gs.push(fresh));
            if c.video_number == n {
                assert(chapters_of(dl, n).len() == 0);
                assert(chapters_of(s, n) =~= seq![c]);
                assert(group_index(group_by_video(s), n) == gs.len());
                assert(group_by_video(s)[gs.len() as int] == fresh);
            } else {
                assert(chapters_of(s, n) == chapters_of(dl, n));
                if chapters_of(dl, n).len() > 0 {
                    let i = group_index(gs, n);
                    assert(group_index(group_by_video(s), n) == i);
                    assert(group_by_video(s)[i] == gs[i]);
                }
            }
        } else {
            let grown = GroupModel {
                video_number: c.video_number,
                chapters: gs[k].chapters.push(c),
            };
            lemma_group_index_update(gs, k, grown, n);
            assert(group_by_video(s) == gs.update(k, grown));
            if c.video_number == n {
                assert(group_index(gs, n) == k);
                assert(chapters_of(dl, n).len() > 0);
                assert(gs[k].chapters == chapters_of(dl, n));
                assert(chapters_of(s, n) == chapters_of(dl, n).push(c));
                assert(group_by_video(s)[k] == grown);
            } else {
                assert(chapters_of(s, n) == chapters_of(dl, n));
                if chapters_of(dl, n).len() > 0 {
                    let i = group_index(gs, n);
                    lemma_group_index_range(gs, n);
                    assert(gs[i].video_number == n);
                    assert(i != k);
                    assert(group_by_video(s)[i] == gs[i]);
                }
            }
        }
    }
}

/// Stable insertion adds exactly the new chapter to the bag.
proof fn lemma_insert_by_chapter_multiset(s: Seq<ChapterModel>, c: ChapterModel)
    ensures
        insert_by_chapter(s, c).to_multiset() == s.to_multiset().insert(c),
    decreases s.len(),
{
    broadcast use vstd::seq_lib::group_to_multiset_ensures;
    broadcast use vstd::multiset::group_multiset_axioms;

    if s.len() == 0 {
        assert(insert_by_chapter(s, c) =~= s.push(c));
    } else if s.last().chapter <= c.chapter {
    } else {
        lemma_insert_by_chapter_multiset(s.drop_last(), c);
        assert(s.drop_last().push(s.last()) =~= s);
        assert(insert_by_chapter(s, c).to_multiset() =~= s.to_multiset().insert(c));
    }
}

/// Sorting keeps the bag of chapters.
pub proof fn lemma_sort_by_chapter_multiset(s: Seq<ChapterModel>)
    ensures
        sort_by_chapter(s).to_multiset() == s.to_multiset(),
    decreases s.len(),
{
    broadcast use vstd::seq_lib::group_to_multiset_ensures;

    if s.len() > 0 {
        lemma_sort_by_chapter_multiset(s.drop_last());
        lemma_insert_by_chapter_multiset(sort_by_chapter(s.drop_last()), s.last());
        assert(s.drop_last().push(s.last()) =~= s);
    }
}

/// Stable insertion into an ascending sequence stays ascending, and ends
/// in either the new chapter or the old last one.
proof fn lemma_insert_by_chapter_sorted(s: Seq<ChapterModel>, c: ChapterModel)
    requires
        sorted_by_chapter(s),
    ensures
        sorted_by_chapter(insert_by_chapter(s, c)),
        insert_by_chapter(s, c).last() == c || (s.len() > 0 && insert_by_chapter(s, c).last()
            == s.last()),
    decreases s.len(),
{
    lemma_insert_by_chapter_len(s, c);
    if s.len() == 0 {
    } else if s.last().chapter <= c.chapter {
        let r = s.push(c);
        assert forall|i: int, j: int| 0 <= i < j < r.len() implies r[i].chapter
            <= r[j].chapter by {
            if j == r.len() - 1 {
                assert(r[i] == s[i]);
                if i < s.len() - 1 {
                    assert(s[i].chapter <= s[s.len() - 1].chapter);
                }
            }
        }
    } else {
        assert forall|i: int, j: int|
            0 <= i < j < s.drop_last().len() implies s.drop_last()[i].chapter <= s.drop_last()[
            j].chapter by {
            assert(s.drop_last()[i] == s[i] && s.drop_last()[j] == s[j]);
        }
        lemma_insert_by_chapter_sorted(s.drop_last(), c);
        lemma_insert_by_chapter_len(s.drop_last(), c);
        let r0 = insert_by_chapter(s.drop_last(), c);
        let r = r0.push(s.last());
        assert forall|i: int, j: int| 0 <= i < j < r.len() implies r[i].chapter
            <= r[j].chapter by {
            if j == r.len() - 1 {
                assert(r[i] == r0[i]);
                if i < r0.len() - 1 {
                    assert(r0[i].chapter <= r0[r0.len() - 1].chapter);
                }
                if s.drop_last().len() > 0 && r0.last() == s.drop_last().last() {
                    assert(s[s.len() - 2].chapter <= s[s.len() - 1].chapter);
                }
            } else {
                assert(r[i] == r0[i] && r[j] == r0[j]);
            }
        }
    }
}

/// The full sort leaves the chapters ascending.
pub proof fn lemma_sort_by_chapter_sorted(s: Seq<ChapterModel>)
    ensures
        sorted_by_chapter(sort_by_chapter(s)),
    decreases s.len(),
{
    if s.len() > 0 {
        lemma_sort_by_chapter_sorted(s.drop_last());
        lemma_insert_by_chapter_sorted(sort_by_chapter(s.drop_last()), s.last());
    }
}

/// A recording's bucket holds, counted with multiplicity, exactly the
/// input's chapters of that recording.
proof fn lemma_chapters_of_count(s: Seq<ChapterModel>, n: u16, x: ChapterModel)
    ensures
        chapters_of(s, n).to_multiset().count(x) == if x.video_number == n {
            s.to_multiset().count(x)
        } else {
            0
        },
    decreases s.len(),
{
    broadcast use vstd::seq_lib::group_to_multiset_ensures;
    broadcast use vstd::multiset::group_multiset_axioms;

    if s.len() == 0 {
        assert(chapters_of(s, n).to_multiset().count(x) == 0);
        assert(s.to_multiset().count(x) == 0) by {
            assert(!s.contains(x));
        }
    } else {
        lemma_chapters_of_count(s.drop_last(), n, x);
        assert(s.drop_last().push(s.last()) =~= s);
    }
}

/// No chapter number repeats in the bag.
pub open spec fn distinct_chapter_numbers(m: Multiset<ChapterModel>) -> bool {
    forall|x: ChapterModel, y: ChapterModel|
        m.contains(x) && m.contains(y) && x != y ==> x.chapter != y.chapter
}

/// Two ascending sequences over the same bag of chapters, none of whose
/// distinct elements share a chapter number, are the same sequence.
proof fn lemma_sorted_multiset_equal(a: Seq<ChapterModel>, b: Seq<ChapterModel>)
    requires
        sorted_by_chapter(a),
        sorted_by_chapter(b),
        a.to_multiset() == b.to_multiset(),
        distinct_chapter_numbers(a.to_multiset()),
    ensures
        a == b,
    decreases a.len(),
{
    broadcast use vstd::seq_lib::group_to_multiset_ensures;
    broadcast use vstd::multiset::group_multiset_axioms;

    vstd::seq_lib::to_multiset_len(a);
    vstd::seq_lib::to_multiset_len(b);
    assert(a.len() == b.len());
    if a.len() == 0 {
        assert(a =~= b);
    } else {
        vstd::seq_lib::to_multiset_contains(a, a.last());
        vstd::seq_lib::to_multiset_contains(a, b.last());
        vstd::seq_lib::to_multiset_contains(b, a.last());
        vstd::seq_lib::to_multiset_contains(b, b.last());
        assert(b.contains(a.last())) by {
            assert(a.contains(a.last()));
        }
        assert(a.contains(b.last())) by {
            assert(b.contains(b.last()));
        }
        let ja = choose|j: int| 0 <= j < a.len() && a[j] == b.last();
        let jb = choose|j: int| 0 <= j < b.len() && b[j] == a.last();
        assert(a[ja].chapter <= a[a.len() - 1].chapter);
        assert(b[jb].chapter <= b[b.len() - 1].chapter);
        assert(a.last().chapter == b.last().chapter);
        assert(a.last() == b.last()) by {
            assert(a.to_multiset().contains(a.last()));
            assert(a.to_multiset().contains(b.last()));
        }
        let a1 = a.drop_last();
        let b1 = b.drop_last();
        assert(a1.push(a.last()) =~= a);
        assert(b1.push(b.last()) =~= b);
        assert(a.to_multiset() == a1.to_multiset().insert(a.last()));
        assert(b.to_multiset() == b1.to_multiset().insert(b.last()));
        assert(a1.to_multiset() =~= b1.to_multiset()) by {
            assert forall|v: ChapterModel| a1.to_multiset().count(v) == b1.to_multiset().count(
                v,
            ) by {
                assert(a.to_multiset().count(v) == a1.to_multiset().count(v) + if v == a.last() {
                    1int
                } else {
                    0int
                });
                assert(b.to_multiset().count(v) == b1.to_multiset().count(v) + if v == b.last() {
                    1int
                } else {
                    0int
                });
            }
        }
        assert forall|i: int, j: int| 0 <= i < j < a1.len() implies a1[i].chapter
            <= a1[j].chapter by {
            assert(a1[i] == a[i] && a1[j] == a[j]);
        }
        assert forall|i: int, j: int| 0 <= i < j < b1.len() implies b1[i].chapter
            <= b1[j].chapter by {
            assert(b1[i] == b[i] && b1[j] == b[j]);
        }
        assert(distinct_chapter_numbers(a1.to_multiset())) by {
            assert forall|x: ChapterModel, y: ChapterModel|
                a1.to_multiset().contains(x) && a1.to_multiset().contains(y) && x
                    != y implies x.chapter != y.chapter by {
                assert(a.to_multiset().count(x) >= a1.to_multiset().count(x));
                assert(a.to_multiset().count(y) >= a1.to_multiset().count(y));
                assert(a.to_multiset().contains(x));
                assert(a.to_multiset().contains(y));
            }
        }
        lemma_sorted_multiset_equal(a1, b1);
        assert(a =~= b);
    }
}

/// The chapters grouped under recording `n`; empty when the recording
/// does not occur.
pub open spec fn chapters_for(groups: Seq<GroupModel>, n: u16) -> Seq<ChapterModel> {
    let i = group_index(groups, n);
    if i < 0 {
        Seq::empty()
    } else {
        groups[i].chapters
    }
}

/// Ordering the buckets' chapters moves no bucket.
proof fn lemma_group_index_sort_groups(gs: Seq<GroupModel>, n: u16)
    ensures
        group_index(sort_groups(gs), n) == group_index(gs, n),
    decreases gs.len(),
{
    if gs.len() > 0 {
        assert(sort_groups(gs)[0].video_number == gs[0].video_number);
        assert(sort_groups(gs).drop_first() =~= sort_groups(gs.drop_first()));
        lemma_group_index_sort_groups(gs.drop_first(), n);
    }
}

/// What grouping yields for one recording: its chapters from the input,
/// put in ascending order.
pub proof fn lemma_grouped_chapters_for(s: Seq<ChapterModel>, n: u16)
    ensures
        chapters_for(grouped_videos(s), n) == sort_by_chapter(chapters_of(s, n)),
{
    lemma_bucket_contents(s, n);
    lemma_group_index_sort_groups(group_by_video(s), n);
    lemma_group_index_range(group_by_video(s), n);
    if chapters_of(s, n).len() == 0 {
        assert(chapters_for(grouped_videos(s), n) =~= sort_by_chapter(chapters_of(s, n)));
    } else {
        let i = group_index(group_by_video(s), n);
        assert(grouped_videos(s)[i].chapters == sort_by_chapter(group_by_video(s)[i].chapters));
    }
}

/// Within each recording, the input's chapter numbers do not repeat.
pub open spec fn chapter_numbers_distinct(s: Seq<ChapterModel>) -> bool {
    forall|i: int, j: int|
        #![trigger s[i], s[j]]
        0 <= i < j < s.len() && s[i].video_number == s[j].video_number ==> s[i].chapter
            != s[j].chapter
}

/// A recording's bucket inherits the input's distinct chapter numbers,
/// and each of its chapters comes from the input.
proof fn lemma_chapters_of_distinct(s: Seq<ChapterModel>, n: u16)
    requires
        chapter_numbers_distinct(s),
    ensures
        forall|k: int|
            0 <= k < chapters_of(s, n).len() ==> exists|i: int|
                0 <= i < s.len() && s[i] == #[trigger] chapters_of(s, n)[k],
        forall|k: int, l: int|
            #![trigger chapters_of(s, n)[k], chapters_of(s, n)[l]]
            0 <= k < l < chapters_of(s, n).len() ==> chapters_of(s, n)[k].chapter != chapters_of(
                s,
                n,
            )[l].chapter,
    decreases s.len(),
{
    if s.len() > 0 {
        let dl = s.drop_last();
        assert forall|i: int, j: int|
            #![trigger dl[i], dl[j]]
            0 <= i < j < dl.len() && dl[i].video_number == dl[j].video_number implies dl[i].chapter
            != dl[j].chapter by {
            assert(dl[i] == s[i] && dl[j] == s[j]);
        }
        lemma_chapters_of_distinct(dl, n);
        lemma_chapters_of_key(s, n);
        let co = chapters_of(s, n);
        let co0 = chapters_of(dl, n);
        assert forall|k: int| 0 <= k < co.len() implies exists|i: int|
            0 <= i < s.len() && s[i] == #[trigger] co[k] by {
            if k < co0.len() {
                assert(co[k] == co0[k]);
                let i = choose|i: int| 0 <= i < dl.len() && dl[i] == co0[k];
                assert(s[i] == co[k]);
            } else {
                assert(co[k] == s[s.len() - 1]);
            }
        }
        assert forall|k: int, l: int|
            #![trigger co[k], co[l]]
            0 <= k < l < co.len() implies co[k].chapter != co[l].chapter by {
            if l < co0.len() {
                assert(co[k] == co0[k] && co[l] == co0[l]);
            } else {
                assert(s.last().video_number == n);
                assert(co[l] == s.last());
                assert(co[k] == co0[k]);
                let i = choose|i: int| 0 <= i < dl.len() && dl[i] == co0[k];
                assert(s[i] == co[k]);
                assert(s[i].video_number == n);
                assert(s[i].chapter != s[s.len() - 1].chapter);
            }
        }
    }
}

/// Grouping is order-independent: two listings with the same chapters —
/// in whatever order — yield, for every recording whose chapter numbers
/// do not repeat, the same ascending chapter sequence.
pub proof fn lemma_grouping_order_independent(
    s1: Seq<ChapterModel>,
    s2: Seq<ChapterModel>,
    n: u16,
)
    requires
        s1.to_multiset() == s2.to_multiset(),
        chapter_numbers_distinct(s1),
    ensures
        chapters_for(grouped_videos(s1), n) == chapters_for(grouped_videos(s2), n),
        sorted_by_chapter(chapters_for(grouped_videos(s1), n)),
{
    broadcast use vstd::seq_lib::group_to_multiset_ensures;
    broadcast use vstd::multiset::group_multiset_axioms;

    lemma_grouped_chapters_for(s1, n);
    lemma_grouped_chapters_for(s2, n);
    let co1 = chapters_of(s1, n);
    let co2 = chapters_of(s2, n);
    assert(co1.to_multiset() =~= co2.to_multiset()) by {
        assert forall|v: ChapterModel| co1.to_multiset().count(v) == co2.to_multiset().count(
            v,
        ) by {
            lemma_chapters_of_count(s1, n, v);
            lemma_chapters_of_count(s2, n, v);
        }
    }
    lemma_sort_by_chapter_multiset(co1);
    lemma_sort_by_chapter_multiset(co2);
    lemma_sort_by_chapter_sorted(co1);
    lemma_sort_by_chapter_sorted(co2);
    lemma_chapters_of_distinct(s1, n);
    assert(distinct_chapter_numbers(sort_by_chapter(co1).to_multiset())) by {
        assert forall|x: ChapterModel, y: ChapterModel|
            co1.to_multiset().contains(x) && co1.to_multiset().contains(y) && x
                != y implies x.chapter != y.chapter by {
            let k = choose|k: int| 0 <= k < co1.len() && co1[k] == x;
            let l = choose|l: int| 0 <= l < co1.len() && co1[l] == y;
            assert(co1[k].chapter == x.chapter && co1[l].chapter == y.chapter);
        }
    }
    lemma_sorted_multiset_equal(sort_by_chapter(co1), sort_by_chapter(co2));
}

/// What grouping guarantees of its output: every group non-empty, every
/// recording number unique, every group's chapters ascending.
pub proof fn lemma_grouped_videos_wf(s: Seq<ChapterModel>)
    ensures
        forall|i: int|
            0 <= i < grouped_videos(s).len() ==> #[trigger] grouped_videos(
                s,
            )[i].chapters.len() >= 1,
        forall|i: int, j: int|
            0 <= i < j < grouped_videos(s).len() ==> grouped_videos(s)[i].video_number
                != grouped_videos(s)[j].video_number,
        forall|i: int|
            0 <= i < grouped_videos(s).len() ==> sorted_by_chapter(
                #[trigger] grouped_videos(s)[i].chapters,
            ),
{
    lemma_group_nonempty(s);
    lemma_group_keys_unique(s);
    let gs = group_by_video(s);
    assert forall|i: int| 0 <= i < grouped_videos(s).len() implies #[trigger] grouped_videos(
        s,
    )[i].chapters.len() >= 1 && sorted_by_chapter(grouped_videos(s)[i].chapters) by {
        assert(grouped_videos(s)[i].chapters == sort_by_chapter(gs[i].chapters));
        lemma_sort_by_chapter_len(gs[i].chapters);
        lemma_sort_by_chapter_sorted(gs[i].chapters);
    }
    assert forall|i: int, j: int|
        0 <= i < j < grouped_videos(s).len() implies grouped_videos(s)[i].video_number
        != grouped_videos(s)[j].video_number by {
        assert(grouped_videos(s)[i].video_number == gs[i].video_number);
        assert(grouped_videos(s)[j].video_number == gs[j].video_number);
    }
}

/// Builds the ascending copy of one group's chapters.
fn sort_chapters(chapters: &Vec<GoProChapteredVideoFile>) -> (r: Vec<GoProChapteredVideoFile>)
    ensures
        r.deep_view() == sort_by_chapter(chapters.deep_view()),
{
    let mut out: Vec<GoProChapteredVideoFile> = Vec::new();
    let n = chapters.len();
    let mut i: usize = 0;
    while i < n
        invariant
            n == chapters@.len(),
            i <= n,
            out.deep_view() == sort_by_chapter(chapters.deep_view().take(i as int)),
        decreases n - i,
    {
        let c = chapters[i].duplicate();
        let mut k = out.len();
        while k > 0 && out[k - 1].chapter > c.chapter
            invariant
                k <= out@.len(),
                c@ == chapters.deep_view()[i as int],
                forall|j: int| k <= j < out@.len() ==> out.deep_view()[j].chapter > c.chapter,
            decreases k,
        {
            k -= 1;
        }
        let ghost prev = out.deep_view();
        out.insert(k, c);
        proof {
            lemma_insert_by_chapter_at(prev, c@, k as int);
            assert(out.deep_view() =~= prev.insert(k as int, c@));
            assert(chapters.deep_view().take(i + 1).drop_last() =~= chapters.deep_view().take(
                i as int,
            ));
        }
        i += 1;
    }
    proof {
        assert(chapters.deep_view().take(n as int) =~= chapters.deep_view());
    }
    out
}

/// Buckets the chapter references by recording number — in order of each
/// recording's first appearance — and orders every bucket ascending by
/// chapter number.
pub fn sort_gopro_files(videos: Vec<GoProChapteredVideoFile>) -> (r: Vec<RecordingGroup>)
    ensures
        r.deep_view() == grouped_videos(videos.deep_view()),
{
    let mut buckets: Vec<RecordingGroup> = Vec::new();
    let n = videos.len();
    let mut i: usize = 0;
    while i < n
        invariant
            n == videos@.len(),
            i <= n,
            buckets.deep_view() == group_by_video(videos.deep_view().take(i as int)),
        decreases n - i,
    {
        let c = videos[i].duplicate();
        let num = c.video_number;
        let m = buckets.len();
        let mut j: usize = 0;
        while j < m && buckets[j].video_number != num
            invariant
                m == buckets@.len(),
                j <= m,
                forall|jj: int| 0 <= jj < j ==> buckets.deep_view()[jj].video_number != num,
            decreases m - j,
        {
            j += 1;
        }
        let ghost prev = buckets.deep_view();
        if j < m {
            proof {
                lemma_group_index_of_match(prev, num, j as int);
            }
            let mut g = buckets.remove(j);
            g.chapters.push(c);
            buckets.insert(j, g);
            proof {
                assert(buckets.deep_view() =~~= insert_chapter(prev, c@));
            }
        } else {
            proof {
                lemma_group_index_none(prev, num);
            }
            let mut chs: Vec<GoProChapteredVideoFile> = Vec::new();
            chs.push(c);
            buckets.push(RecordingGroup { video_number: num, chapters: chs });
            proof {
                assert(buckets.deep_view() =~~= insert_chapter(prev, c@));
            }
        }
        proof {
            assert(videos.deep_view().take(i + 1).drop_last() =~= videos.deep_view().take(i as int));
        }
        i += 1;
    }
    proof {
        assert(videos.deep_view().take(n as int) =~= videos.deep_view());
    }
    let mut out: Vec<RecordingGroup> = Vec::new();
    let m = buckets.len();
    let mut i: usize = 0;
    while i < m
        invariant
            m == buckets@.len(),
            i <= m,
            buckets.deep_view() == group_by_video(videos.deep_view()),
            out.deep_view() == sort_groups(buckets.deep_view().take(i as int)),
        decreases m - i,
    {
        let g = &buckets[i];
        let sorted = sort_chapters(&g.chapters);
        let ghost prev_out = out.deep_view();
        let fresh = RecordingGroup { video_number: g.video_number, chapters: sorted };
        proof {
            let bd = buckets.deep_view();
            assert(fresh@ =~~= sort_groups(bd.take(i + 1))[i as int]);
        }
        out.push(fresh);
        proof {
            let bd = buckets.deep_view();
            assert(out.deep_view() =~~= prev_out.push(sort_groups(bd.take(i + 1))[i as int]));
            assert forall|t: int| 0 <= t < i implies sort_groups(bd.take(i as int))[t]
                == sort_groups(bd.take(i + 1))[t] by {
                assert(bd.take(i + 1)[t] == bd.take(i as int)[t]);
            }
            assert(out.deep_view() =~~= sort_groups(bd.take(i + 1)));
        }
        i += 1;
    }
    proof {
        assert(buckets.deep_view().take(m as int) =~= buckets.deep_view());
    }
    out
}

} // verus!
