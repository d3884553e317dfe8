//! Lexical paths and the path guard.
//!
//! A path is read as a sequence of segments separated by `/`. Nothing here
//! touches the file system: a path is resolved against the served directory
//! by its text alone, so a symbolic link below the directory is taken at its
//! word.

use vstd::prelude::*;

use crate::error::ErrorKind;
use crate::text::{chars_of, string_of};

verus! {

/// The segment `.`, which names the directory it stands in.
pub open spec fn is_dot(seg: Seq<char>) -> bool {
    seg.len() == 1 && seg[0] == '.'
}

/// The segment `..`, which names the parent directory.
pub open spec fn is_dotdot(seg: Seq<char>) -> bool {
    seg.len() == 2 && seg[0] == '.' && seg[1] == '.'
}

/// A segment that a stored path may hold: not empty, free of separators, and
/// not `.`.
pub open spec fn is_segment(seg: Seq<char>) -> bool {
    seg.len() > 0 && !seg.contains('/') && !is_dot(seg)
}

/// A segment that names an entry of a directory: a segment other than `..`.
pub open spec fn is_name(seg: Seq<char>) -> bool {
    is_segment(seg) && !is_dotdot(seg)
}

/// Every element of `segs` names a directory entry.
pub open spec fn all_names(segs: Seq<Seq<char>>) -> bool {
    forall|i: int| 0 <= i < segs.len() ==> is_name(#[trigger] segs[i])
}

/// Whether the text begins with a separator.
pub open spec fn starts_at_root(s: Seq<char>) -> bool {
    s.len() > 0 && s[0] == '/'
}

/// The pieces of `s` between its separators, empty pieces included. A text
/// with `n` separators has `n + 1` pieces.
pub open spec fn split(s: Seq<char>) -> Seq<Seq<char>>
    decreases s.len(),
{
    if s.len() == 0 {
        seq![Seq::<char>::empty()]
    } else {
        let before = split(s.drop_last());
        if s.last() == '/' {
            before.push(Seq::<char>::empty())
        } else {
            before.drop_last().push(before.last().push(s.last()))
        }
    }
}

/// The segments written one after the other with a separator between each two.
pub open spec fn join(segs: Seq<Seq<char>>) -> Seq<char>
    decreases segs.len(),
{
    if segs.len() == 0 {
        Seq::<char>::empty()
    } else if segs.len() == 1 {
        segs[0]
    } else {
        join(segs.drop_last()) + seq!['/'] + segs.last()
    }
}

/// The stack of segments after one more piece of a path has been read.
/// Empty pieces and `.` change nothing. Where `follow_parent` holds, `..`
/// removes the top of the stack, if there is one; elsewhere it is kept like
/// any other segment.
pub open spec fn apply(stack: Seq<Seq<char>>, seg: Seq<char>, follow_parent: bool) -> Seq<Seq<char>> {
    if seg.len() == 0 || is_dot(seg) {
        stack
    } else if follow_parent && is_dotdot(seg) {
        if stack.len() > 0 {
            stack.drop_last()
        } else {
            stack
        }
    } else {
        stack.push(seg)
    }
}

/// The stack of segments after the pieces `segs` have been read in order.
pub open spec fn walk(stack: Seq<Seq<char>>, segs: Seq<Seq<char>>, follow_parent: bool) -> Seq<Seq<char>>
    decreases segs.len(),
{
    if segs.len() == 0 {
        stack
    } else {
        apply(walk(stack, segs.drop_last(), follow_parent), segs.last(), follow_parent)
    }
}

/// What a lexical path is: whether it starts at the root of the file system,
/// and the segments that lead from there, or from the working directory, to
/// its target.
pub struct PathModel {
    pub absolute: bool,
    pub segments: Seq<Seq<char>>,
}

impl PathModel {
    /// Every segment may stand in a stored path.
    pub open spec fn wf(self) -> bool {
        forall|i: int| 0 <= i < self.segments.len() ==> is_segment(#[trigger] self.segments[i])
    }

    /// The path that `rel` leads to from here. A `rel` that begins with a
    /// separator starts over at the root of the file system. Then each
    /// segment of `rel` is taken in turn: `.` stays, `..` goes up one level,
    /// and stays where there is no level left, and a name goes down.
    pub open spec fn descend(self, rel: Seq<char>) -> PathModel {
        if starts_at_root(rel) {
            PathModel { absolute: true, segments: walk(Seq::empty(), split(rel), true) }
        } else {
            PathModel { absolute: self.absolute, segments: walk(self.segments, split(rel), true) }
        }
    }

    /// Whether this path is `root` or lies below it: both start at the same
    /// place, and the segments of `root` are the first segments of this path.
    pub open spec fn is_within(self, root: PathModel) -> bool {
        self.absolute == root.absolute && root.segments.is_prefix_of(self.segments)
    }

    /// This path followed by `tail`.
    pub open spec fn extend(self, tail: Seq<Seq<char>>) -> PathModel {
        PathModel { absolute: self.absolute, segments: self.segments + tail }
    }

    /// The text of the path: `/` or `.` where there are no segments, else the
    /// segments joined by separators, after a leading one where the path is
    /// absolute.
    pub open spec fn render(self) -> Seq<char> {
        if self.segments.len() == 0 {
            if self.absolute {
                seq!['/']
            } else {
                seq!['.']
            }
        } else if self.absolute {
            seq!['/'] + join(self.segments)
        } else {
            join(self.segments)
        }
    }
}

/// The path that the text `s` denotes. Repeated separators and `.` segments
/// are dropped; `..` segments are kept as they are written.
pub open spec fn parse(s: Seq<char>) -> PathModel {
    PathModel { absolute: starts_at_root(s), segments: walk(Seq::empty(), split(s), false) }
}

/// The text `path` denotes `root` or something below it: it is the text of
/// `root` followed by zero or more names, none of which is `.` or `..`.
pub open spec fn lies_under(root: PathModel, path: Seq<char>) -> bool {
    exists|tail: Seq<Seq<char>>| all_names(tail) && path == #[trigger] root.extend(tail).render()
}

/// What resolving `rel` against `root` gives: the text of the path that
/// `rel` leads to, where that path is `root` or lies below it, and
/// `Forbidden` where it does not.
pub open spec fn resolved(root: PathModel, rel: Seq<char>) -> Result<Seq<char>, ErrorKind> {
    if root.descend(rel).is_within(root) {
        Ok(root.descend(rel).render())
    } else {
        Err(ErrorKind::Forbidden)
    }
}

/// The characters of a path that was resolved, and the failure of one that
/// was not.
pub open spec fn text_of(r: Result<String, ErrorKind>) -> Result<Seq<char>, ErrorKind> {
    match r {
        Ok(path) => Ok(path@),
        Err(e) => Err(e),
    }
}

/// No piece of a split text holds a separator.
pub proof fn lemma_split_pieces(s: Seq<char>)
    ensures
        split(s).len() >= 1,
        forall|i: int| 0 <= i < split(s).len() ==> !(#[trigger] split(s)[i]).contains('/'),
    decreases s.len(),
{
    if s.len() > 0 {
        lemma_split_pieces(s.drop_last());
        let before = split(s.drop_last());
        if s.last() != '/' {
            let grown = before.last().push(s.last());
            assert forall|j: int| 0 <= j < grown.len() implies grown[j] != '/' by {
                if j < before.last().len() {
                    assert(before.last()[j] == grown[j]);
                }
            }
        }
    }
}

/// Reading pieces without separators onto a well-formed stack leaves it
/// well-formed.
proof fn lemma_walk_wf(stack: Seq<Seq<char>>, segs: Seq<Seq<char>>, follow_parent: bool)
    requires
        forall|i: int| 0 <= i < stack.len() ==> is_segment(#[trigger] stack[i]),
        forall|i: int| 0 <= i < segs.len() ==> !(#[trigger] segs[i]).contains('/'),
    ensures
        forall|i: int|
            0 <= i < walk(stack, segs, follow_parent).len() ==> is_segment(
                #[trigger] walk(stack, segs, follow_parent)[i],
            ),
    decreases segs.len(),
{
    if segs.len() > 0 {
        lemma_walk_wf(stack, segs.drop_last(), follow_parent);
        let before = walk(stack, segs.drop_last(), follow_parent);
        let seg = segs.last();
        let after = apply(before, seg, follow_parent);
        assert(walk(stack, segs, follow_parent) == after);
        assert(!segs[segs.len() - 1].contains('/'));
        assert forall|i: int| 0 <= i < after.len() implies is_segment(#[trigger] after[i]) by {
            if i < before.len() {
                assert(is_segment(before[i]));
            }
        }
    }
}

/// The stack shares its first `k` segments with `base`, and holds only names
/// above them.
spec fn rooted(stack: Seq<Seq<char>>, base: Seq<Seq<char>>, k: int) -> bool {
    &&& 0 <= k <= base.len()
    &&& k <= stack.len()
    &&& forall|i: int| 0 <= i < k ==> #[trigger] stack[i] == base[i]
    &&& forall|i: int| k <= i < stack.len() ==> is_name(#[trigger] stack[i])
}

/// A walk that follows `..` never brings anything but names on top of what
/// is left of the stack it started from.
proof fn lemma_walk_rooted(stack: Seq<Seq<char>>, base: Seq<Seq<char>>, k: int, segs: Seq<Seq<char>>)
    requires
        rooted(stack, base, k),
        forall|i: int| 0 <= i < segs.len() ==> !(#[trigger] segs[i]).contains('/'),
    ensures
        exists|m: int| rooted(walk(stack, segs, true), base, m),
    decreases segs.len(),
{
    if segs.len() == 0 {
        assert(rooted(walk(stack, segs, true), base, k));
    } else {
        lemma_walk_rooted(stack, base, k, segs.drop_last());
        let before = walk(stack, segs.drop_last(), true);
        let m = choose|m: int| rooted(before, base, m);
        let seg = segs.last();
        let after = apply(before, seg, true);
        assert(walk(stack, segs, true) == after);
        assert(!segs[segs.len() - 1].contains('/'));
        if seg.len() == 0 || is_dot(seg) {
            assert(rooted(after, base, m));
        } else if is_dotdot(seg) {
            if before.len() > m {
                assert(rooted(after, base, m));
            } else if before.len() > 0 {
                assert(rooted(after, base, m - 1));
            } else {
                assert(rooted(after, base, m));
            }
        } else {
            assert(is_name(seg));
            assert(rooted(after, base, m));
        }
    }
}

/// A directory lies under itself.
pub proof fn lemma_root_lies_under_itself(root: PathModel)
    ensures
        lies_under(root, root.render()),
{
    let tail = Seq::<Seq<char>>::empty();
    assert(root.segments + tail =~= root.segments);
    assert(root.extend(tail) == root);
    assert(all_names(tail));
}

/// Whatever `rel` holds, a path reached from `root` that is still within
/// `root` is `root` followed by names alone: no `..` is left in it, and its
/// text lies under `root`.
pub proof fn lemma_descend_stays_under(root: PathModel, rel: Seq<char>)
    requires
        root.descend(rel).is_within(root),
    ensures
        all_names(root.descend(rel).segments.skip(root.segments.len() as int)),
        root.descend(rel) == root.extend(root.descend(rel).segments.skip(root.segments.len() as int)),
        lies_under(root, root.descend(rel).render()),
{
    let target = root.descend(rel);
    let tail = target.segments.skip(root.segments.len() as int);
    lemma_split_pieces(rel);
    if starts_at_root(rel) {
        assert(rooted(Seq::<Seq<char>>::empty(), root.segments, 0));
        lemma_walk_rooted(Seq::empty(), root.segments, 0, split(rel));
    } else {
        assert(rooted(root.segments, root.segments, root.segments.len() as int));
        lemma_walk_rooted(root.segments, root.segments, root.segments.len() as int, split(rel));
    }
    let m = choose|m: int| rooted(target.segments, root.segments, m);
    assert forall|i: int| 0 <= i < tail.len() implies is_name(#[trigger] tail[i]) by {
        assert(tail[i] == target.segments[i + root.segments.len()]);
    }
    assert(target.segments =~= root.segments + tail);
    assert(target == root.extend(tail));
}

/// Segments joined after `base` begin with the text of `base`, and go on
/// with a separator where anything follows.
proof fn lemma_join_prefix(base: Seq<Seq<char>>, tail: Seq<Seq<char>>)
    requires
        base.len() > 0,
    ensures
        tail.len() == 0 ==> join(base + tail) == join(base),
        tail.len() > 0 ==> (join(base) + seq!['/']).is_prefix_of(join(base + tail)),
    decreases tail.len(),
{
    let whole = base + tail;
    if tail.len() == 0 {
        assert(whole =~= base);
    } else {
        let shorter = tail.drop_last();
        assert(whole.drop_last() =~= base + shorter);
        assert(join(whole) == join(base + shorter) + seq!['/'] + whole.last());
        lemma_join_prefix(base, shorter);
        let head = join(base) + seq!['/'];
        if shorter.len() == 0 {
            assert(head =~= join(whole).subrange(0, head.len() as int));
        } else {
            let inner = join(base + shorter);
            assert(head =~= inner.subrange(0, head.len() as int));
            assert(head =~= join(whole).subrange(0, head.len() as int));
        }
    }
}

/// A text that lies under a root with at least one segment is the text of
/// the root, or begins with the text of the root and a separator.
pub proof fn lemma_under_begins_with_root(root: PathModel, path: Seq<char>)
    requires
        lies_under(root, path),
        root.segments.len() > 0,
    ensures
        path == root.render() || (root.render() + seq!['/']).is_prefix_of(path),
{
    let tail = choose|tail: Seq<Seq<char>>| all_names(tail) && path == #[trigger] root.extend(tail).render();
    lemma_join_prefix(root.segments, tail);
    if tail.len() > 0 {
        let head = join(root.segments) + seq!['/'];
        let whole = join(root.segments + tail);
        assert(head =~= whole.subrange(0, head.len() as int));
        if root.absolute {
            let lead = seq!['/'];
            assert(root.render() + seq!['/'] =~= lead + head);
            assert(lead + head =~= (lead + whole).subrange(0, (lead + head).len() as int));
        }
    }
}

/// The views of the segments held in a vector.
pub open spec fn seg_views(v: Seq<Vec<char>>) -> Seq<Seq<char>> {
    v.map_values(|seg: Vec<char>| seg@)
}

/// A lexical path: the served directory, or something reached from it.
pub struct LexPath {
    absolute: bool,
    segments: Vec<Vec<char>>,
}

impl View for LexPath {
    type V = PathModel;

    closed spec fn view(&self) -> PathModel {
        PathModel { absolute: self.absolute, segments: seg_views(self.segments@) }
    }
}

fn seg_is_dot(seg: &Vec<char>) -> (r: bool)
    ensures
        r == is_dot(seg@),
{
    seg.len() == 1 && seg[0] == '.'
}

fn seg_is_dotdot(seg: &Vec<char>) -> (r: bool)
    ensures
        r == is_dotdot(seg@),
{
    seg.len() == 2 && seg[0] == '.' && seg[1] == '.'
}

fn same_chars(a: &Vec<char>, b: &Vec<char>) -> (r: bool)
    ensures
        r == (a@ == b@),
{
    if a.len() != b.len() {
        return false;
    }
    let mut i: usize = 0;
    while i < a.len()
        invariant
            a.len() == b.len(),
            i <= a.len(),
            a@.take(i as int) == b@.take(i as int),
        decreases a.len() - i,
    {
        if a[i] != b[i] {
            return false;
        }
        assert(a@.take(i + 1) == a@.take(i as int).push(a@[i as int]));
        assert(b@.take(i + 1) == b@.take(i as int).push(b@[i as int]));
        i += 1;
    }
    assert(a@ == a@.take(a.len() as int));
    assert(b@ == b@.take(b.len() as int));
    true
}

fn copy_chars(seg: &Vec<char>) -> (r: Vec<char>)
    ensures
        r@ == seg@,
{
    let mut r: Vec<char> = Vec::new();
    let mut i: usize = 0;
    while i < seg.len()
        invariant
            i <= seg.len(),
            r@ == seg@.take(i as int),
        decreases seg.len() - i,
    {
        r.push(seg[i]);
        i += 1;
    }
    r
}

fn copy_segments(segs: &Vec<Vec<char>>) -> (r: Vec<Vec<char>>)
    ensures
        seg_views(r@) == seg_views(segs@),
{
    let mut r: Vec<Vec<char>> = Vec::new();
    let mut i: usize = 0;
    while i < segs.len()
        invariant
            i <= segs.len(),
            seg_views(r@) == seg_views(segs@).take(i as int),
        decreases segs.len() - i,
    {
        let seg = copy_chars(&segs[i]);
        let ghost copied = seg_views(r@);
        r.push(seg);
        assert(seg_views(r@) =~= copied.push(seg@));
        assert(seg_views(segs@).take(i + 1) =~= seg_views(segs@).take(i as int).push(segs@[i as int]@));
        i += 1;
    }
    assert(seg_views(segs@).take(segs.len() as int) =~= seg_views(segs@));
    r
}

/// Takes one piece of a path onto the stack.
fn apply_segment(stack: &mut Vec<Vec<char>>, seg: Vec<char>, follow_parent: bool)
    ensures
        seg_views(final(stack)@) == apply(seg_views(old(stack)@), seg@, follow_parent),
{
    if seg.len() == 0 || seg_is_dot(&seg) {
    } else if follow_parent && seg_is_dotdot(&seg) {
        if stack.len() > 0 {
            stack.pop();
            assert(seg_views(stack@) =~= seg_views(old(stack)@).drop_last());
        }
    } else {
        stack.push(seg);
        assert(seg_views(stack@) =~= seg_views(old(stack)@).push(seg@));
    }
}

/// Reads the text `s` piece by piece onto the stack.
fn walk_text(stack: Vec<Vec<char>>, s: &str, follow_parent: bool) -> (r: Vec<Vec<char>>)
    ensures
        seg_views(r@) == walk(seg_views(stack@), split(s@), follow_parent),
{
    let mut stack = stack;
    let ghost start = seg_views(stack@);
    let ghost done: Seq<Seq<char>> = Seq::empty();
    let mut piece: Vec<char> = Vec::new();
    for c in it: s.chars()
        invariant
            it.seq() == s@,
            split(s@.take(it.index() as int)) == done.push(piece@),
            seg_views(stack@) == walk(start, done, follow_parent),
    {
        let ghost read = s@.take(it.index() as int);
        assert(s@.take(it.index() + 1).drop_last() == read);
        if c == '/' {
            proof {
                assert(done.push(piece@).drop_last() == done);
                done = done.push(piece@);
            }
            apply_segment(&mut stack, piece, follow_parent);
            piece = Vec::new();
        } else {
            assert(done.push(piece@).drop_last() == done);
            piece.push(c);
        }
    }
    assert(s@.take(s@.len() as int) == s@);
    assert(done.push(piece@).drop_last() == done);
    apply_segment(&mut stack, piece, follow_parent);
    stack
}

/// Tells whether the text begins with a separator, which makes it an
/// absolute path.
pub fn is_absolute(s: &str) -> (r: bool)
    ensures
        r == starts_at_root(s@),
{
    let mut it = s.chars();
    match it.next() {
        Some(c) => c == '/',
        None => false,
    }
}

/// Tells whether the characters name a directory entry.
fn names_entry(seg: &Vec<char>) -> (r: bool)
    ensures
        r == is_name(seg@),
{
    if seg.len() == 0 || seg_is_dot(seg) || seg_is_dotdot(seg) {
        return false;
    }
    let mut i: usize = 0;
    while i < seg.len()
        invariant
            i <= seg.len(),
            forall|j: int| 0 <= j < i ==> seg@[j] != '/',
        decreases seg.len() - i,
    {
        if seg[i] == '/' {
            return false;
        }
        i += 1;
    }
    true
}

impl LexPath {
    /// Reads a path from its text.
    pub fn parse(s: &str) -> (p: LexPath)
        ensures
            p@ == parse(s@),
            p@.wf(),
    {
        let absolute = is_absolute(s);
        let segments = walk_text(Vec::new(), s, false);
        proof {
            lemma_split_pieces(s@);
            lemma_walk_wf(Seq::empty(), split(s@), false);
            assert(seg_views(Seq::<Vec<char>>::empty()) =~= Seq::<Seq<char>>::empty());
        }
        LexPath { absolute, segments }
    }

    /// Returns the path that `rel` leads to from here.
    pub fn descend(&self, rel: &str) -> (p: LexPath)
        ensures
            p@ == self@.descend(rel@),
            self@.wf() ==> p@.wf(),
    {
        proof {
            lemma_split_pieces(rel@);
            assert(seg_views(Seq::<Vec<char>>::empty()) =~= Seq::<Seq<char>>::empty());
        }
        if is_absolute(rel) {
            let segments = walk_text(Vec::new(), rel, true);
            proof {
                lemma_walk_wf(Seq::empty(), split(rel@), true);
            }
            LexPath { absolute: true, segments }
        } else {
            let start = copy_segments(&self.segments);
            let segments = walk_text(start, rel, true);
            proof {
                if self@.wf() {
                    lemma_walk_wf(self@.segments, split(rel@), true);
                }
            }
            LexPath { absolute: self.absolute, segments }
        }
    }

    /// Returns the entry `name` of this directory, where `name` names one:
    /// a text that is not empty, holds no separator and is neither `.` nor
    /// `..`.
    pub fn child(&self, name: &str) -> (r: Option<LexPath>)
        ensures
            match r {
                Some(p) => is_name(name@) && p@ == self@.extend(seq![name@]) && p@.is_within(self@),
                None => !is_name(name@),
            },
    {
        let seg = chars_of(name);
        if !names_entry(&seg) {
            return None;
        }
        let mut segments = copy_segments(&self.segments);
        segments.push(seg);
        assert(seg_views(segments@) =~= self@.segments + seq![name@]);
        assert(self@.segments =~= (self@.segments + seq![name@]).subrange(
            0,
            self@.segments.len() as int,
        ));
        Some(LexPath { absolute: self.absolute, segments })
    }

    /// Tells whether this path is `root` or lies below it.
    pub fn is_within(&self, root: &LexPath) -> (r: bool)
        ensures
            r == self@.is_within(root@),
    {
        if self.absolute != root.absolute || root.segments.len() > self.segments.len() {
            return false;
        }
        let mut i: usize = 0;
        while i < root.segments.len()
            invariant
                root.segments.len() <= self.segments.len(),
                i <= root.segments.len(),
                forall|j: int| 0 <= j < i ==> self@.segments[j] == root@.segments[j],
            decreases root.segments.len() - i,
        {
            if !same_chars(&self.segments[i], &root.segments[i]) {
                assert(self@.segments[i as int] != root@.segments[i as int]);
                assert(self@.segments.subrange(0, root@.segments.len() as int)[i as int]
                    == self@.segments[i as int]);
                return false;
            }
            i += 1;
        }
        assert(root@.segments =~= self@.segments.subrange(0, root@.segments.len() as int));
        true
    }

    /// Writes the path out as text.
    pub fn render(&self) -> (s: String)
        ensures
            s@ == self@.render(),
    {
        let mut out: Vec<char> = Vec::new();
        if self.segments.len() == 0 {
            if self.absolute {
                out.push('/');
            } else {
                out.push('.');
            }
            assert(out@ =~= self@.render());
            return string_of(&out);
        }
        if self.absolute {
            out.push('/');
        }
        let ghost lead = out@;
        let mut i: usize = 0;
        while i < self.segments.len()
            invariant
                i <= self.segments.len(),
                out@ == lead + join(self@.segments.take(i as int)),
            decreases self.segments.len() - i,
        {
            let ghost before = self@.segments.take(i as int);
            assert(self@.segments.take(i + 1).drop_last() == before);
            if i > 0 {
                out.push('/');
            }
            let seg = &self.segments[i];
            let mut j: usize = 0;
            while j < seg.len()
                invariant
                    j <= seg.len(),
                    seg@ == self@.segments[i as int],
                    out@ == lead + join(before) + (if i > 0 {
                        seq!['/']
                    } else {
                        Seq::<char>::empty()
                    }) + seg@.take(j as int),
                decreases seg.len() - j,
            {
                out.push(seg[j]);
                assert(seg@.take(j + 1) == seg@.take(j as int).push(seg@[j as int]));
                j += 1;
            }
            assert(seg@.take(seg.len() as int) == seg@);
            assert(out@ =~= lead + join(self@.segments.take(i + 1)));
            i += 1;
        }
        assert(self@.segments.take(self.segments.len() as int) == self@.segments);
        assert(out@ =~= self@.render());
        string_of(&out)
    }

    /// Resolves `rel` against this directory. The result is the text of the
    /// path that `rel` leads to, where that path is this directory or lies
    /// below it, and `Forbidden` where it does not.
    pub fn resolve(&self, rel: &str) -> (r: Result<String, ErrorKind>)
        ensures
            text_of(r) == resolved(self@, rel@),
            r matches Ok(path) ==> lies_under(self@, path@),
    {
        let target = self.descend(rel);
        if target.is_within(self) {
            proof {
                lemma_descend_stays_under(self@, rel@);
            }
            Ok(target.render())
        } else {
            Err(ErrorKind::Forbidden)
        }
    }
}

} // verus!
