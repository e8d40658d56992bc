//! The search for a flat key in the YAML files under a directory.
//!
//! Directories are visited depth first, in the order their listing gives,
//! down to a maximum depth; symbolic links are skipped; every file whose
//! extension is exactly `yaml` or `yml` is asked for the key, and the first
//! file that answers ends the search. A directory that cannot be listed
//! contributes nothing.
//!
//! Listing directories and looking a key up in a file are done by the
//! caller: [`YamlSearch`] says which to do next and takes the answer.
use vstd::prelude::*;

use crate::paths::{extension_bounds, file_name_bounds, path_extension};
use crate::text::{chars_eq, chars_of};

verus! {

/// One entry of a directory listing.
#[derive(Debug, Clone)]
pub struct DirEntryInfo {
    pub path: String,
    pub is_symlink: bool,
    pub is_dir: bool,
}

/// Is the extension of `p` exactly `yaml` or `yml`?
pub open spec fn is_yaml_path(p: Seq<char>) -> bool {
    path_extension(p) == Some("yaml"@) || path_extension(p) == Some("yml"@)
}

/// Whether the file at `path` has the extension `yaml` or `yml` (case
/// matters).
pub fn has_yaml_extension(path: &str) -> (r: bool)
    ensures
        r == is_yaml_path(path@),
{
    let v = chars_of(path);
    match file_name_bounds(&v) {
        None => false,
        Some((a, b)) => match extension_bounds(&v, a, b) {
            None => false,
            Some((x, y)) => {
                let yaml = vec!['y', 'a', 'm', 'l'];
                let yml = vec!['y', 'm', 'l'];
                proof {
                    reveal_strlit("yaml");
                    reveal_strlit("yml");
                    assert(yaml@ =~= "yaml"@);
                    assert(yml@ =~= "yml"@);
                }
                chars_eq(&v, x, y, &yaml) || chars_eq(&v, x, y, &yml)
            },
        },
    }
}

/// What the search finds in a directory, given what listing a directory
/// gives (`list`, nothing when it cannot be listed) and what looking the
/// key up in a file gives (`look`): nothing at depth 0; otherwise what its
/// entries give, subdirectories being searched one level less deep.
pub open spec fn search_dir(
    list: spec_fn(Seq<char>) -> Option<Seq<DirEntryInfo>>,
    look: spec_fn(Seq<char>) -> Option<Seq<char>>,
    dir: Seq<char>,
    depth: nat,
) -> Option<Seq<char>>
    decreases depth, 1nat, 0nat,
{
    if depth == 0 {
        None
    } else {
        match list(dir) {
            None => None,
            Some(es) => search_entries(list, look, es, (depth - 1) as nat),
        }
    }
}

/// What the search finds in the entries `es` of a directory, in order;
/// `sub` is the depth to which subdirectories are searched.
pub open spec fn search_entries(
    list: spec_fn(Seq<char>) -> Option<Seq<DirEntryInfo>>,
    look: spec_fn(Seq<char>) -> Option<Seq<char>>,
    es: Seq<DirEntryInfo>,
    sub: nat,
) -> Option<Seq<char>>
    decreases sub + 1, 0nat, es.len(),
{
    if es.len() == 0 {
        None
    } else {
        let e = es[0];
        let here = if e.is_symlink {
            None
        } else if e.is_dir {
            search_dir(list, look, e.path@, sub)
        } else if is_yaml_path(e.path@) {
            look(e.path@)
        } else {
            None
        };
        match here {
            Some(v) => Some(v),
            None => search_entries(list, look, es.drop_first(), sub),
        }
    }
}

/// A directory being walked: its entries, the next one to visit, and the
/// depth to which its subdirectories are searched.
pub struct Frame {
    pub entries: Vec<DirEntryInfo>,
    pub next: usize,
    pub sub_depth: u32,
}

/// What the search finds in the directories being walked, innermost last.
pub open spec fn frames_result(
    list: spec_fn(Seq<char>) -> Option<Seq<DirEntryInfo>>,
    look: spec_fn(Seq<char>) -> Option<Seq<char>>,
    frames: Seq<Frame>,
) -> Option<Seq<char>>
    decreases frames.len(),
{
    if frames.len() == 0 {
        None
    } else {
        let f = frames.last();
        match search_entries(list, look, f.entries@.skip(f.next as int), f.sub_depth as nat) {
            Some(v) => Some(v),
            None => frames_result(list, look, frames.drop_last()),
        }
    }
}

/// Every frame's next entry is within its listing.
pub open spec fn frames_ok(frames: Seq<Frame>) -> bool {
    forall|i: int| 0 <= i < frames.len() ==> (#[trigger] frames[i]).next <= frames[i].entries@.len()
}

/// What the search finds once `pending` is answered and the directories
/// being walked are done.
pub open spec fn pending_outcome(
    pending: SearchAction,
    pending_sub: u32,
    frames: Seq<Frame>,
    list: spec_fn(Seq<char>) -> Option<Seq<DirEntryInfo>>,
    look: spec_fn(Seq<char>) -> Option<Seq<char>>,
) -> Option<Seq<char>> {
    let rest = frames_result(list, look, frames);
    match pending {
        SearchAction::Finished(r) => r.deep_view(),
        SearchAction::ListDir(d) => match list(d@) {
            Some(es) => match search_entries(list, look, es, pending_sub as nat) {
                Some(v) => Some(v),
                None => rest,
            },
            None => rest,
        },
        SearchAction::TryFile(f) => match look(f@) {
            Some(v) => Some(v),
            None => rest,
        },
    }
}

/// The entries still to visit in the innermost directory.
pub open spec fn top_remaining(frames: Seq<Frame>) -> int {
    if frames.len() > 0 {
        frames.last().entries@.len() - frames.last().next
    } else {
        0
    }
}

/// Element `i` of `s`, or 0 past its end.
pub open spec fn count_at(s: Seq<nat>, i: int) -> nat {
    if 0 <= i < s.len() {
        s[i]
    } else {
        0
    }
}

/// `a` and `b` agree at every position (missing positions count as 0).
pub open spec fn counts_eq(a: Seq<nat>, b: Seq<nat>) -> bool {
    forall|j: int| 0 <= j ==> #[trigger] count_at(a, j) == count_at(b, j)
}

/// `a` comes before `b` in the lexicographic order of count sequences,
/// the first position being the most significant and missing positions
/// counting as 0. On sequences no longer than a fixed bound this order is
/// well founded: it is the lexicographic order of tuples of naturals.
pub open spec fn counts_lt(a: Seq<nat>, b: Seq<nat>) -> bool {
    exists|i: int|
        #![trigger count_at(a, i), count_at(b, i)]
        0 <= i && count_at(a, i) < count_at(b, i) && forall|j: int|
            0 <= j < i ==> #[trigger] count_at(a, j) == count_at(b, j)
}

pub open spec fn counts_le(a: Seq<nat>, b: Seq<nat>) -> bool {
    counts_lt(a, b) || counts_eq(a, b)
}

proof fn lemma_counts_lt_at(a: Seq<nat>, b: Seq<nat>, i: int)
    requires
        0 <= i,
        count_at(a, i) < count_at(b, i),
        forall|j: int| 0 <= j < i ==> #[trigger] count_at(a, j) == count_at(b, j),
    ensures
        counts_lt(a, b),
{
}

proof fn lemma_counts_lt_le(a: Seq<nat>, b: Seq<nat>, c: Seq<nat>)
    requires
        counts_lt(a, b),
        counts_le(b, c),
    ensures
        counts_lt(a, c),
{
    let i = choose|i: int|
        #![trigger count_at(a, i), count_at(b, i)]
        0 <= i && count_at(a, i) < count_at(b, i) && forall|j: int|
            0 <= j < i ==> #[trigger] count_at(a, j) == count_at(b, j);
    if counts_eq(b, c) {
        assert(count_at(b, i) == count_at(c, i));
        assert forall|j: int| 0 <= j < i implies #[trigger] count_at(a, j) == count_at(c, j) by {
            assert(count_at(b, j) == count_at(c, j));
        }
        lemma_counts_lt_at(a, c, i);
    } else {
        let k = choose|k: int|
            #![trigger count_at(b, k), count_at(c, k)]
            0 <= k && count_at(b, k) < count_at(c, k) && forall|j: int|
                0 <= j < k ==> #[trigger] count_at(b, j) == count_at(c, j);
        let m = if i < k {
            i
        } else {
            k
        };
        assert forall|j: int| 0 <= j < m implies #[trigger] count_at(a, j) == count_at(c, j) by {
            assert(count_at(a, j) == count_at(b, j));
            assert(count_at(b, j) == count_at(c, j));
        }
        if i < k {
            assert(count_at(b, i) == count_at(c, i));
        } else if k < i {
            assert(count_at(a, k) == count_at(b, k));
        }
        lemma_counts_lt_at(a, c, m);
    }
}

proof fn lemma_counts_le_lt(a: Seq<nat>, b: Seq<nat>, c: Seq<nat>)
    requires
        counts_le(a, b),
        counts_lt(b, c),
    ensures
        counts_lt(a, c),
{
    if counts_eq(a, b) {
        let k = choose|k: int|
            #![trigger count_at(b, k), count_at(c, k)]
            0 <= k && count_at(b, k) < count_at(c, k) && forall|j: int|
                0 <= j < k ==> #[trigger] count_at(b, j) == count_at(c, j);
        assert(count_at(a, k) == count_at(b, k));
        assert forall|j: int| 0 <= j < k implies #[trigger] count_at(a, j) == count_at(c, j) by {
            assert(count_at(a, j) == count_at(b, j));
            assert(count_at(b, j) == count_at(c, j));
        }
        lemma_counts_lt_at(a, c, k);
    } else {
        lemma_counts_lt_le(a, b, c);
    }
}

proof fn lemma_counts_le_le(a: Seq<nat>, b: Seq<nat>, c: Seq<nat>)
    requires
        counts_le(a, b),
        counts_le(b, c),
    ensures
        counts_le(a, c),
{
    if counts_lt(b, c) {
        lemma_counts_le_lt(a, b, c);
    } else if counts_lt(a, b) {
        lemma_counts_lt_le(a, b, c);
    } else {
        assert forall|j: int| 0 <= j implies #[trigger] count_at(a, j) == count_at(c, j) by {
            assert(count_at(a, j) == count_at(b, j));
            assert(count_at(b, j) == count_at(c, j));
        }
    }
}

/// The entries of a frame not yet visited.
pub open spec fn entries_left(f: Frame) -> nat {
    (f.entries@.len() - f.next) as nat
}

/// Entries left per directory being walked, outermost first, after a
/// leading 0 that stands for the start directory itself.
pub open spec fn frame_counts(frames: Seq<Frame>) -> Seq<nat> {
    seq![0nat] + frames.map_values(|f: Frame| entries_left(f))
}

/// `s` with one more at its last position: the entry being waited for
/// still counts in the directory it was taken from.
pub open spec fn bump_last(s: Seq<nat>) -> Seq<nat> {
    s.update(s.len() - 1, s.last() + 1)
}

proof fn lemma_counts_pop_exhausted(frames: Seq<Frame>)
    requires
        frames.len() > 0,
        entries_left(frames.last()) == 0,
    ensures
        counts_le(frame_counts(frames.drop_last()), frame_counts(frames)),
{
    let a = frame_counts(frames.drop_last());
    let b = frame_counts(frames);
    assert(b =~= a.push(0nat));
    assert forall|j: int| 0 <= j implies #[trigger] count_at(a, j) == count_at(b, j) by {
        if j < a.len() {
            assert(b[j] == a[j]);
        }
    }
}

proof fn lemma_counts_visit(before: Seq<Frame>, f: Frame)
    requires
        before.len() > 0,
        before.last().next < before.last().entries@.len(),
        f.entries@ == before.last().entries@,
        f.next == before.last().next + 1,
    ensures
        counts_lt(frame_counts(before.drop_last().push(f)), frame_counts(before)),
        bump_last(frame_counts(before.drop_last().push(f))) == frame_counts(before),
{
    let after = before.drop_last().push(f);
    let a = frame_counts(after);
    let b = frame_counts(before);
    let k = before.len() as int;
    assert(a =~= b.update(k, (entries_left(before.last()) - 1) as nat));
    assert(bump_last(a) =~= b);
    assert forall|j: int| 0 <= j < k implies #[trigger] count_at(a, j) == count_at(b, j) by {}
    lemma_counts_lt_at(a, b, k);
}

proof fn lemma_counts_lt_bump(s: Seq<nat>)
    requires
        s.len() > 0,
    ensures
        counts_lt(s, bump_last(s)),
{
    let b = bump_last(s);
    let k = s.len() - 1;
    assert forall|j: int| 0 <= j < k implies #[trigger] count_at(s, j) == count_at(b, j) by {}
    lemma_counts_lt_at(s, b, k);
}

proof fn lemma_counts_push(frames: Seq<Frame>, g: Frame)
    ensures
        counts_lt(frame_counts(frames.push(g)), bump_last(frame_counts(frames))),
{
    let a = frame_counts(frames.push(g));
    let b = bump_last(frame_counts(frames));
    let k = frames.len() as int;
    assert(a =~= frame_counts(frames).push(entries_left(g)));
    assert forall|j: int| 0 <= j < k implies #[trigger] count_at(a, j) == count_at(b, j) by {}
    lemma_counts_lt_at(a, b, k);
}

/// A listing as the search sees it.
pub open spec fn listed(listing: Option<Vec<DirEntryInfo>>) -> Option<Seq<DirEntryInfo>> {
    match listing {
        Some(v) => Some(v@),
        None => None,
    }
}

/// `listing` is what `list` gives for the directory that `a` asks for.
pub open spec fn answers_listing(
    a: SearchAction,
    list: spec_fn(Seq<char>) -> Option<Seq<DirEntryInfo>>,
    listing: Option<Vec<DirEntryInfo>>,
) -> bool {
    a matches SearchAction::ListDir(d) && list(d@) == listed(listing)
}

/// `found` is what `look` gives for the file that `a` asks about.
pub open spec fn answers_lookup(
    a: SearchAction,
    look: spec_fn(Seq<char>) -> Option<Seq<char>>,
    found: Option<String>,
) -> bool {
    a matches SearchAction::TryFile(f) && look(f@) == found.deep_view()
}

/// Visits entries until one needs a listing or a lookup, or until every
/// directory is done; returns that action and, for a listing, the depth
/// for the listed directory's subdirectories.
fn advance(frames: &mut Vec<Frame>) -> (r: (SearchAction, u32))
    requires
        frames_ok(old(frames)@),
    ensures
        frames_ok(final(frames)@),
        !(r.0 matches SearchAction::Finished(Some(_))),
        forall|
            list: spec_fn(Seq<char>) -> Option<Seq<DirEntryInfo>>,
            look: spec_fn(Seq<char>) -> Option<Seq<char>>,
        |
            #[trigger] pending_outcome(r.0, r.1, final(frames)@, list, look) == frames_result(
                list,
                look,
                old(frames)@,
            ),
        final(frames)@.len() <= old(frames)@.len(),
        forall|j: int|
            0 <= j < final(frames)@.len() ==> #[trigger] final(frames)@[j].sub_depth == old(frames)@[j].sub_depth,
        r.0 is ListDir ==> final(frames)@.len() > 0 && r.1 + 1 == final(frames)@.last().sub_depth,
        !(r.0 is Finished) ==> final(frames)@.len() > 0 && counts_le(
            bump_last(frame_counts(final(frames)@)),
            frame_counts(old(frames)@),
        ),
{
    assert(counts_eq(frame_counts(frames@), frame_counts(old(frames)@)));
    loop
        invariant
            frames_ok(frames@),
            frames@.len() <= old(frames)@.len(),
            forall|j: int| 0 <= j < frames@.len() ==> #[trigger] frames@[j].sub_depth == old(frames)@[j].sub_depth,
            counts_le(frame_counts(frames@), frame_counts(old(frames)@)),
            forall|
                list: spec_fn(Seq<char>) -> Option<Seq<DirEntryInfo>>,
                look: spec_fn(Seq<char>) -> Option<Seq<char>>,
            |
                #[trigger] frames_result(list, look, frames@) == frames_result(list, look, old(frames)@),
        decreases frames@.len(), top_remaining(frames@),
    {
        let ghost before = frames@;
        match frames.pop() {
            None => {
                return (SearchAction::Finished(None), 0);
            },
            Some(mut f) => {
                assert(f == before.last());
                assert(frames@ == before.drop_last());
                assert(f.next <= f.entries@.len());
                if f.next >= f.entries.len() {
                    proof {
                        lemma_counts_pop_exhausted(before);
                        lemma_counts_le_le(frame_counts(frames@), frame_counts(before), frame_counts(old(frames)@));
                        assert(f.entries@.skip(f.next as int) =~= Seq::<DirEntryInfo>::empty());
                        assert forall|
                            list: spec_fn(Seq<char>) -> Option<Seq<DirEntryInfo>>,
                            look: spec_fn(Seq<char>) -> Option<Seq<char>>,
                        | #[trigger] frames_result(list, look, frames@) == frames_result(list, look, old(frames)@) by {
                            assert(frames_result(list, look, before) == frames_result(list, look, old(frames)@));
                        }
                    }
                    continue;
                }
                let i = f.next;
                let is_symlink = f.entries[i].is_symlink;
                let is_dir = f.entries[i].is_dir;
                let path = f.entries[i].path.clone();
                let sub = f.sub_depth;
                let ghost es = f.entries@;
                f.next = i + 1;
                frames.push(f);
                let is_yaml = has_yaml_extension(path.as_str());
                proof {
                    lemma_counts_visit(before, f);
                    assert(frames@ == before.drop_last().push(f));
                    lemma_counts_le_le(frame_counts(frames@), frame_counts(before), frame_counts(old(frames)@));
                    assert forall|j: int| 0 <= j < frames@.len() implies #[trigger] frames@[j].sub_depth
                        == old(frames)@[j].sub_depth by {
                        assert(frames@[j].sub_depth == before[j].sub_depth);
                    }
                    assert(es.skip(i as int)[0] == es[i as int]);
                    assert(es.skip(i as int).drop_first() =~= es.skip(i + 1));
                    assert(frames@.drop_last() == before.drop_last());
                    assert(frames_ok(frames@)) by {
                        assert forall|j: int| 0 <= j < frames@.len() implies (#[trigger] frames@[j]).next
                            <= frames@[j].entries@.len() by {
                            if j < frames@.len() - 1 {
                                assert(frames@[j] == before[j]);
                            }
                        }
                    }
                }
                if is_symlink || (is_dir && sub == 0) || (!is_dir && !is_yaml) {
                    proof {
                        assert forall|
                            list: spec_fn(Seq<char>) -> Option<Seq<DirEntryInfo>>,
                            look: spec_fn(Seq<char>) -> Option<Seq<char>>,
                        | #[trigger] frames_result(list, look, frames@) == frames_result(list, look, old(frames)@) by {
                            assert(frames_result(list, look, before) == frames_result(list, look, old(frames)@));
                            assert(search_dir(list, look, path@, 0) is None);
                            assert(search_entries(list, look, es.skip(i as int), sub as nat) == search_entries(
                                list,
                                look,
                                es.skip(i + 1),
                                sub as nat,
                            ));
                        }
                    }
                    continue;
                }
                if is_dir {
                    proof {
                        assert forall|
                            list: spec_fn(Seq<char>) -> Option<Seq<DirEntryInfo>>,
                            look: spec_fn(Seq<char>) -> Option<Seq<char>>,
                        |
                            #[trigger] pending_outcome(SearchAction::ListDir(path), (sub - 1) as u32, frames@, list, look)
                                == frames_result(list, look, old(frames)@) by {
                            assert(frames_result(list, look, before) == frames_result(list, look, old(frames)@));
                            assert(search_dir(list, look, path@, sub as nat) == match list(path@) {
                                None => None,
                                Some(ds) => search_entries(list, look, ds, (sub - 1) as nat),
                            });
                        }
                    }
                    return (SearchAction::ListDir(path), sub - 1);
                }
                proof {
                    assert forall|
                        list: spec_fn(Seq<char>) -> Option<Seq<DirEntryInfo>>,
                        look: spec_fn(Seq<char>) -> Option<Seq<char>>,
                    |
                        #[trigger] pending_outcome(SearchAction::TryFile(path), 0, frames@, list, look)
                            == frames_result(list, look, old(frames)@) by {
                        assert(frames_result(list, look, before) == frames_result(list, look, old(frames)@));
                    }
                }
                return (SearchAction::TryFile(path), 0);
            },
        }
    }
}

/// What the search asks for next, or its outcome.
#[derive(Debug, Clone)]
pub enum SearchAction {
    /// List this directory and hand the listing to [`YamlSearch::on_listing`].
    ListDir(String),
    /// Look the key up in this file and hand the value found, if any, to
    /// [`YamlSearch::on_lookup`].
    TryFile(String),
    /// The search is over: the value found, if any.
    Finished(Option<String>),
}

/// A search in progress.
pub struct YamlSearch {
    frames: Vec<Frame>,
    pending: SearchAction,
    /// For a pending listing: the depth to which the listed directory's
    /// subdirectories are searched.
    pending_sub: u32,
    /// The depth the search was started with.
    max_depth: Ghost<nat>,
}

impl YamlSearch {
    pub closed spec fn well_formed(&self) -> bool {
        &&& frames_ok(self.frames@)
        &&& forall|i: int|
            0 <= i < self.frames@.len() ==> (#[trigger] self.frames@[i]).sub_depth + i + 1 == self.max_depth@
        &&& self.pending is ListDir ==> self.pending_sub + self.frames@.len() + 1 == self.max_depth@
    }

    /// The depth the search was started with, which bounds how many
    /// directories are walked at once.
    pub closed spec fn bound(&self) -> nat {
        self.max_depth@
    }

    /// How much is left to do: the entries not yet visited in each
    /// directory being walked, outermost first, the entry being waited for
    /// still counting as not visited. Every step that does not finish the
    /// search makes this smaller in the order [`counts_lt`], and it is never
    /// longer than [`YamlSearch::bound`] plus one, so the search ends.
    pub closed spec fn progress(&self) -> Seq<nat> {
        if self.pending is Finished {
            frame_counts(self.frames@)
        } else {
            bump_last(frame_counts(self.frames@))
        }
    }

    /// What the search waits for, or its outcome.
    pub closed spec fn action(&self) -> SearchAction {
        self.pending
    }

    /// What the search will find from here on, if every listing and lookup
    /// still to come is answered by `list` and `look`.
    pub closed spec fn outcome(
        &self,
        list: spec_fn(Seq<char>) -> Option<Seq<DirEntryInfo>>,
        look: spec_fn(Seq<char>) -> Option<Seq<char>>,
    ) -> Option<Seq<char>> {
        pending_outcome(self.pending, self.pending_sub, self.frames@, list, look)
    }

    /// The next action, visible to the caller.
    pub fn next_action(&self) -> (r: SearchAction)
        ensures
            r.deep_view_eq(self.action()),
    {
        match &self.pending {
            SearchAction::ListDir(d) => SearchAction::ListDir(d.clone()),
            SearchAction::TryFile(f) => SearchAction::TryFile(f.clone()),
            SearchAction::Finished(r) => SearchAction::Finished(
                match r {
                    Some(v) => Some(v.clone()),
                    None => None,
                },
            ),
        }
    }

    /// Starts a search of `dir`, descending at most `max_depth` levels
    /// (the files directly in `dir` are at the first level).
    pub fn start(dir: &str, max_depth: u32) -> (r: YamlSearch)
        ensures
            r.well_formed(),
            forall|
                list: spec_fn(Seq<char>) -> Option<Seq<DirEntryInfo>>,
                look: spec_fn(Seq<char>) -> Option<Seq<char>>,
            | #[trigger] r.outcome(list, look) == search_dir(list, look, dir@, max_depth as nat),
            r.bound() == max_depth,
            r.progress().len() <= r.bound() + 1,
    {
        let frames: Vec<Frame> = Vec::new();
        if max_depth == 0 {
            YamlSearch {
                frames,
                pending: SearchAction::Finished(None),
                pending_sub: 0,
                max_depth: Ghost(max_depth as nat),
            }
        } else {
            YamlSearch {
                frames,
                pending: SearchAction::ListDir(dir.to_string()),
                pending_sub: max_depth - 1,
                max_depth: Ghost(max_depth as nat),
            }
        }
    }

    /// Hands the search the listing of the directory it asked for
    /// (`None` when the directory could not be listed).
    pub fn on_listing(&mut self, listing: Option<Vec<DirEntryInfo>>) -> (r: SearchAction)
        requires
            old(self).well_formed(),
            old(self).action() is ListDir,
        ensures
            final(self).well_formed(),
            r.deep_view_eq(final(self).action()),
            !(final(self).action() matches SearchAction::Finished(Some(_))),
            forall|
                list: spec_fn(Seq<char>) -> Option<Seq<DirEntryInfo>>,
                look: spec_fn(Seq<char>) -> Option<Seq<char>>,
            |
                answers_listing(old(self).action(), list, listing) ==> #[trigger] final(self).outcome(
                    list,
                    look,
                ) == old(self).outcome(list, look),
            final(self).bound() == old(self).bound(),
            final(self).progress().len() <= final(self).bound() + 1,
            !(final(self).action() is Finished) ==> counts_lt(final(self).progress(), old(self).progress()),
    {
        let ghost frames0 = self.frames@;
        let ghost sub = self.pending_sub;
        match listing {
            None => {},
            Some(entries) => {
                let ghost es = entries@;
                self.frames.push(Frame { entries, next: 0, sub_depth: self.pending_sub });
                proof {
                    assert(es.skip(0) =~= es);
                    assert(self.frames@.drop_last() == frames0);
                    assert forall|j: int| 0 <= j < self.frames@.len() implies (#[trigger] self.frames@[j]).next
                        <= self.frames@[j].entries@.len() by {
                        if j < frames0.len() {
                            assert(self.frames@[j] == frames0[j]);
                        }
                    }
                }
            },
        }
        let ghost mid = self.frames@;
        proof {
            if mid.len() == frames0.len() {
                assert(mid == frames0);
                lemma_counts_lt_bump(frame_counts(frames0));
            } else {
                lemma_counts_push(frames0, mid.last());
                assert(mid == frames0.push(mid.last()));
            }
            assert(counts_lt(frame_counts(mid), old(self).progress()));
            assert forall|i: int| 0 <= i < mid.len() implies (#[trigger] mid[i]).sub_depth + i + 1
                == self.max_depth@ by {
                if i < frames0.len() {
                    assert(mid[i] == frames0[i]);
                }
            }
        }
        let (a, s) = advance(&mut self.frames);
        self.pending = a;
        self.pending_sub = s;
        proof {
            assert forall|
                list: spec_fn(Seq<char>) -> Option<Seq<DirEntryInfo>>,
                look: spec_fn(Seq<char>) -> Option<Seq<char>>,
            |
                answers_listing(old(self).action(), list, listing) implies #[trigger] self.outcome(list, look)
                    == old(self).outcome(list, look) by {
                assert(pending_outcome(a, s, self.frames@, list, look) == frames_result(list, look, mid));
            }
            self.lemma_steps_bounded(mid);
            if !(a is Finished) {
                lemma_counts_le_lt(self.progress(), frame_counts(mid), old(self).progress());
            }
        }
        self.next_action()
    }

    /// Hands the search the value that the file it asked about holds for
    /// the key (`None` when the lookup failed).
    pub fn on_lookup(&mut self, found: Option<String>) -> (r: SearchAction)
        requires
            old(self).well_formed(),
            old(self).action() is TryFile,
        ensures
            final(self).well_formed(),
            r.deep_view_eq(final(self).action()),
            found is Some ==> final(self).action() matches SearchAction::Finished(Some(_)),
            forall|
                list: spec_fn(Seq<char>) -> Option<Seq<DirEntryInfo>>,
                look: spec_fn(Seq<char>) -> Option<Seq<char>>,
            |
                answers_lookup(old(self).action(), look, found) ==> #[trigger] final(self).outcome(list, look)
                    == old(self).outcome(list, look),
            final(self).bound() == old(self).bound(),
            final(self).progress().len() <= final(self).bound() + 1,
            !(final(self).action() is Finished) ==> counts_lt(final(self).progress(), old(self).progress()),
    {
        match found {
            Some(v) => {
                self.pending = SearchAction::Finished(Some(v));
                proof {
                    self.lemma_steps_bounded(self.frames@);
                }
            },
            None => {
                let ghost mid = self.frames@;
                proof {
                    lemma_counts_lt_bump(frame_counts(mid));
                }
                let (a, s) = advance(&mut self.frames);
                self.pending = a;
                self.pending_sub = s;
                proof {
                    self.lemma_steps_bounded(mid);
                    if !(a is Finished) {
                        lemma_counts_le_lt(self.progress(), frame_counts(mid), old(self).progress());
                    }
                    assert forall|
                        list: spec_fn(Seq<char>) -> Option<Seq<DirEntryInfo>>,
                        look: spec_fn(Seq<char>) -> Option<Seq<char>>,
                    |
                        answers_lookup(old(self).action(), look, found) implies #[trigger] self.outcome(
                            list,
                            look,
                        ) == old(self).outcome(list, look) by {
                        assert(pending_outcome(a, s, self.frames@, list, look) == frames_result(list, look, mid));
                    }
                }
            },
        }
        self.next_action()
    }

    /// The depth facts survive an `advance` from `mid`, and they bound how
    /// many directories are walked at once.
    proof fn lemma_steps_bounded(&self, mid: Seq<Frame>)
        requires
            frames_ok(self.frames@),
            forall|i: int| 0 <= i < mid.len() ==> (#[trigger] mid[i]).sub_depth + i + 1 == self.max_depth@,
            self.frames@.len() <= mid.len(),
            forall|j: int| 0 <= j < self.frames@.len() ==> #[trigger] self.frames@[j].sub_depth == mid[j].sub_depth,
            self.pending is ListDir ==> self.frames@.len() > 0 && self.pending_sub + 1
                == self.frames@.last().sub_depth,
        ensures
            self.well_formed(),
            self.progress().len() <= self.bound() + 1,
    {
        assert forall|i: int| 0 <= i < self.frames@.len() implies (#[trigger] self.frames@[i]).sub_depth + i + 1
            == self.max_depth@ by {
            assert(self.frames@[i].sub_depth == mid[i].sub_depth);
        }
        let n = self.frames@.len();
        if n > 0 {
            assert(self.frames@[n - 1].sub_depth + (n - 1) + 1 == self.max_depth@);
        }
        assert(frame_counts(self.frames@).len() == n + 1);
    }

    /// Once the search is over, what it will find is what it found.
    pub proof fn lemma_finished_outcome(
        &self,
        list: spec_fn(Seq<char>) -> Option<Seq<DirEntryInfo>>,
        look: spec_fn(Seq<char>) -> Option<Seq<char>>,
    )
        requires
            self.action() is Finished,
        ensures
            self.outcome(list, look) == self.action()->Finished_0.deep_view(),
    {
    }
}

impl SearchAction {
    /// Both actions are the same.
    pub open spec fn deep_view_eq(&self, other: SearchAction) -> bool {
        match (*self, other) {
            (SearchAction::ListDir(a), SearchAction::ListDir(b)) => a@ == b@,
            (SearchAction::TryFile(a), SearchAction::TryFile(b)) => a@ == b@,
            (SearchAction::Finished(a), SearchAction::Finished(b)) => a.deep_view() == b.deep_view(),
            _ => false,
        }
    }
}

} // verus!
