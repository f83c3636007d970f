//! Path expressions: how a behavior names objects of the world.

use vstd::prelude::*;
use vstd::string::{StrSliceExecFns, StringExecFns};

verus! {

/// One step of a path: from an object to some of the objects right below
/// it.
#[derive(Debug, PartialEq, Eq)]
pub enum Segment {
    /// The children with this name.
    Name(String),
    /// Every child.
    Wildcard,
}

/// Mathematical value of a `Segment`.
pub enum SegmentView {
    Name(Seq<char>),
    Wildcard,
}

impl View for Segment {
    type V = SegmentView;

    open spec fn view(&self) -> SegmentView {
        match self {
            Segment::Name(n) => SegmentView::Name(n@),
            Segment::Wildcard => SegmentView::Wildcard,
        }
    }
}

impl Clone for Segment {
    fn clone(&self) -> (res: Self)
        ensures
            res@ == self@,
    {
        match self {
            Segment::Name(n) => Segment::Name(n.clone()),
            Segment::Wildcard => Segment::Wildcard,
        }
    }
}

/// Whether an object called `name` is one that the step `segment` leads
/// to.
pub open spec fn segment_matches(segment: SegmentView, name: Seq<char>) -> bool {
    match segment {
        SegmentView::Name(n) => n == name,
        SegmentView::Wildcard => true,
    }
}

impl Segment {
    /// Whether an object called `name` is one that this step leads to.
    pub fn matches(&self, name: &String) -> (yes: bool)
        ensures
            yes == segment_matches(self@, name@),
    {
        match self {
            Segment::Name(n) => *n == *name,
            Segment::Wildcard => true,
        }
    }
}

/// A path: steps to take one after the other, each one level down.
#[derive(Debug, PartialEq, Eq)]
pub struct PathExpression {
    pub segments: Vec<Segment>,
}

impl View for PathExpression {
    type V = Seq<SegmentView>;

    open spec fn view(&self) -> Seq<SegmentView> {
        Seq::new(self.segments@.len(), |i: int| self.segments@[i]@)
    }
}

impl Clone for PathExpression {
    fn clone(&self) -> (res: Self)
        ensures
            res@ == self@,
    {
        let mut segments: Vec<Segment> = Vec::new();
        let n: usize = self.segments.len();
        let mut i: usize = 0;
        while i < n
            invariant
                n == self.segments@.len(),
                i <= n,
                segments@.len() == i,
                forall|j: int| 0 <= j < i ==> segments@[j]@ == self.segments@[j]@,
            decreases n - i,
        {
            segments.push(self.segments[i].clone());
            i += 1;
        }
        let res = PathExpression { segments };
        assert(res@ =~= self@);
        res
    }
}

impl PathExpression {
    /// The empty path, which leads from an object to itself.
    pub fn new() -> (path: PathExpression)
        ensures
            path@ == Seq::<SegmentView>::empty(),
    {
        let path = PathExpression { segments: Vec::new() };
        assert(path@ =~= Seq::<SegmentView>::empty());
        path
    }

    /// This path and then one step to the children called `name`.
    pub fn child(self, name: &str) -> (path: PathExpression)
        ensures
            path@ == self@.push(SegmentView::Name(name@)),
    {
        let mut segments = self.segments;
        segments.push(Segment::Name(name.to_owned()));
        let path = PathExpression { segments };
        assert(path@ =~= self@.push(SegmentView::Name(name@)));
        path
    }

    /// This path and then one step to every child.
    pub fn any_child(self) -> (path: PathExpression)
        ensures
            path@ == self@.push(SegmentView::Wildcard),
    {
        let mut segments = self.segments;
        segments.push(Segment::Wildcard);
        let path = PathExpression { segments };
        assert(path@ =~= self@.push(SegmentView::Wildcard));
        path
    }

    /// Number of steps.
    pub fn len(&self) -> (n: usize)
        ensures
            n == self@.len(),
    {
        self.segments.len()
    }
}

/// Why a text is no path.
#[derive(Clone, Copy, PartialEq, Eq, Structural, Debug)]
pub enum PathError {
    /// Two separators follow each other, or the text begins or ends with
    /// one.
    EmptySegment,
}

/// Where the first separator of `text` stands; the length of `text` if
/// it holds none.
pub open spec fn first_separator(text: Seq<char>) -> int
    decreases text.len(),
{
    if text.len() == 0 || text[0] == '/' {
        0
    } else {
        1 + first_separator(text.skip(1))
    }
}

/// The pieces of `text` between its separators, in their order. A text
/// with n separators has n + 1 pieces, of which some may be empty.
pub open spec fn pieces(text: Seq<char>) -> Seq<Seq<char>>
    decreases text.len(),
{
    let k = first_separator(text);
    if 0 <= k < text.len() {
        seq![text.take(k)] + pieces(text.skip(k + 1))
    } else {
        seq![text]
    }
}

/// The step that the piece `piece` stands for: every child for a lone
/// star, and the children of that name for anything else.
pub open spec fn segment_of(piece: Seq<char>) -> SegmentView {
    if piece == seq!['*'] {
        SegmentView::Wildcard
    } else {
        SegmentView::Name(piece)
    }
}

/// The steps that the pieces `parts` stand for.
pub open spec fn segments_of(parts: Seq<Seq<char>>) -> Seq<SegmentView> {
    Seq::new(parts.len(), |i: int| segment_of(parts[i]))
}

/// The path that `text` stands for. The empty text is the empty path.
/// Any other text is a list of steps with a `/` between every two of
/// them; it is no path if one of its pieces is empty.
pub open spec fn parsed(text: Seq<char>) -> Result<Seq<SegmentView>, PathError> {
    if text.len() == 0 {
        Ok(Seq::empty())
    } else if exists|i: int| 0 <= i < pieces(text).len() && #[trigger] pieces(text)[i].len() == 0 {
        Err(PathError::EmptySegment)
    } else {
        Ok(segments_of(pieces(text)))
    }
}

/// The first separator stands where a separator stands and none stands
/// before.
pub proof fn lemma_first_separator(text: Seq<char>, k: int)
    requires
        0 <= k <= text.len(),
        forall|j: int| 0 <= j < k ==> text[j] != '/',
        k < text.len() ==> text[k] == '/',
    ensures
        first_separator(text) == k,
    decreases text.len(),
{
    if k > 0 {
        lemma_first_separator(text.skip(1), k - 1);
    }
}

impl PathExpression {
    /// Reads a path from its text.
    pub fn parse(text: &str) -> (result: Result<PathExpression, PathError>)
        ensures
            match result {
                Ok(path) => parsed(text@) == Ok::<Seq<SegmentView>, PathError>(path@),
                Err(e) => parsed(text@) == Err::<Seq<SegmentView>, PathError>(e),
            },
    {
        let n: usize = text.unicode_len();
        let mut segments: Vec<Segment> = Vec::new();
        if n == 0 {
            let path = PathExpression { segments };
            assert(path@ =~= Seq::<SegmentView>::empty());
            return Ok(path);
        }
        let ghost mut done: Seq<Seq<char>> = Seq::empty();
        let mut start: usize = 0;
        let mut i: usize = 0;
        assert(text@.skip(0) =~= text@);
        while i < n
            invariant
                n == text@.len(),
                start <= i <= n,
                forall|j: int| start <= j < i ==> text@[j] != '/',
                pieces(text@) == done + pieces(text@.skip(start as int)),
                forall|j: int| 0 <= j < done.len() ==> (#[trigger] done[j]).len() > 0,
                segments@.len() == done.len(),
                forall|j: int|
                    0 <= j < done.len() ==> (#[trigger] segments@[j])@ == segment_of(done[j]),
            decreases n - i,
        {
            if text.get_char(i) == '/' {
                let ghost rest = text@.skip(start as int);
                proof {
                    assert forall|j: int| 0 <= j < i - start implies rest[j] != '/' by {
                        assert(rest[j] == text@[start + j]);
                    }
                    assert(rest[i - start] == text@[i as int]);
                    lemma_first_separator(rest, i - start);
                    assert(rest.take(i - start) =~= text@.subrange(start as int, i as int));
                    assert(rest.skip(i - start + 1) =~= text@.skip(i + 1));
                    assert(pieces(text@) =~= done.push(text@.subrange(start as int, i as int))
                        + pieces(text@.skip(i + 1)));
                }
                if i == start {
                    proof {
                        let k = done.len() as int;
                        assert(pieces(text@)[k] == text@.subrange(start as int, i as int));
                        assert(pieces(text@)[k].len() == 0);
                    }
                    return Err(PathError::EmptySegment);
                }
                let piece = text.substring_char(start, i);
                segments.push(Self::segment(piece));
                proof {
                    done = done.push(text@.subrange(start as int, i as int));
                }
                start = i + 1;
            }
            i += 1;
        }
        let ghost rest = text@.skip(start as int);
        proof {
            assert forall|j: int| 0 <= j < n - start implies rest[j] != '/' by {
                assert(rest[j] == text@[start + j]);
            }
            lemma_first_separator(rest, n - start);
            assert(rest =~= text@.subrange(start as int, n as int));
            assert(pieces(text@) =~= done.push(rest));
        }
        if start == n {
            proof {
                let k = done.len() as int;
                assert(pieces(text@)[k].len() == 0);
            }
            return Err(PathError::EmptySegment);
        }
        let piece = text.substring_char(start, n);
        segments.push(Self::segment(piece));
        let path = PathExpression { segments };
        proof {
            let all = done.push(rest);
            assert forall|j: int| 0 <= j < all.len() implies (#[trigger] all[j]).len() > 0 by {
                if j < done.len() {
                    assert(all[j] == done[j]);
                }
            }
            assert(path@ =~= segments_of(all));
        }
        Ok(path)
    }

    /// The step that `piece` stands for.
    fn segment(piece: &str) -> (segment: Segment)
        ensures
            segment@ == segment_of(piece@),
    {
        if piece.unicode_len() == 1 && piece.get_char(0) == '*' {
            assert(piece@ =~= seq!['*']);
            Segment::Wildcard
        } else {
            proof {
                if piece@ == seq!['*'] {
                    assert(seq!['*'].len() == 1);
                    assert(seq!['*'][0] == '*');
                }
            }
            Segment::Name(piece.to_owned())
        }
    }
}

/// The text of one step.
pub open spec fn segment_text(segment: SegmentView) -> Seq<char> {
    match segment {
        SegmentView::Name(n) => n,
        SegmentView::Wildcard => seq!['*'],
    }
}

/// The text of a path: the texts of its steps, with a `/` between every
/// two of them.
pub open spec fn written(path: Seq<SegmentView>) -> Seq<char>
    decreases path.len(),
{
    if path.len() == 0 {
        Seq::empty()
    } else if path.len() == 1 {
        segment_text(path[0])
    } else {
        written(path.drop_last()) + seq!['/'] + segment_text(path.last())
    }
}

/// The step `segment` can be read back from its text: a name is not
/// empty, holds no separator and is no lone star.
pub open spec fn readable(segment: SegmentView) -> bool {
    match segment {
        SegmentView::Name(n) => n.len() > 0 && n != seq!['*'] && forall|j: int|
            0 <= j < n.len() ==> n[j] != '/',
        SegmentView::Wildcard => true,
    }
}

/// What stands before the first separator is no separator, and at it
/// stands one, if it stands inside the text.
pub proof fn lemma_first_separator_stands(text: Seq<char>)
    ensures
        0 <= first_separator(text) <= text.len(),
        forall|j: int| 0 <= j < first_separator(text) ==> text[j] != '/',
        first_separator(text) < text.len() ==> text[first_separator(text)] == '/',
    decreases text.len(),
{
    if !(text.len() == 0 || text[0] == '/') {
        let rest = text.skip(1);
        lemma_first_separator_stands(rest);
        let k = first_separator(rest);
        assert forall|j: int| 0 <= j < k + 1 implies text[j] != '/' by {
            if j > 0 {
                assert(rest[j - 1] == text[j]);
            }
        }
        if k + 1 < text.len() {
            assert(rest[k] == text[k + 1]);
        }
    }
}

/// A text, a separator and a piece without separator: the pieces of the
/// text, and the piece.
pub proof fn lemma_pieces_append(text: Seq<char>, piece: Seq<char>)
    requires
        forall|j: int| 0 <= j < piece.len() ==> piece[j] != '/',
    ensures
        pieces(text + seq!['/'] + piece) == pieces(text).push(piece),
    decreases text.len(),
{
    let whole = text + seq!['/'] + piece;
    let k = first_separator(text);
    lemma_first_separator_stands(text);
    assert forall|j: int| 0 <= j < k implies whole[j] != '/' by {
        assert(whole[j] == text[j]);
    }
    lemma_first_separator(whole, k);
    if k < text.len() {
        // the first separator of the text is the first of the whole
        assert(whole.take(k) =~= text.take(k));
        assert(whole.skip(k + 1) =~= text.skip(k + 1) + seq!['/'] + piece);
        lemma_pieces_append(text.skip(k + 1), piece);
    } else {
        // the text holds no separator: the added one is the first
        assert(whole.take(k) =~= text);
        assert(whole.skip(k + 1) =~= piece);
        lemma_first_separator(piece, piece.len() as int);
        assert(pieces(piece) =~= seq![piece]);
    }
}

/// The pieces of the text of a path are the texts of its steps.
pub proof fn lemma_pieces_of_written(path: Seq<SegmentView>)
    requires
        path.len() > 0,
        forall|i: int| 0 <= i < path.len() ==> readable(#[trigger] path[i]),
    ensures
        pieces(written(path)) == Seq::new(path.len(), |i: int| segment_text(path[i])),
    decreases path.len(),
{
    let last = segment_text(path.last());
    assert(readable(path[path.len() - 1]));
    if path.len() == 1 {
        lemma_first_separator(last, last.len() as int);
    } else {
        let front = path.drop_last();
        assert forall|i: int| 0 <= i < front.len() implies readable(#[trigger] front[i]) by {
            assert(front[i] == path[i]);
        }
        lemma_pieces_of_written(front);
        lemma_pieces_append(written(front), last);
    }
}

/// What was written is read back: the text of a path whose steps are
/// readable stands for that path.
pub proof fn lemma_parse_reads_what_was_written(path: Seq<SegmentView>)
    requires
        forall|i: int| 0 <= i < path.len() ==> readable(#[trigger] path[i]),
    ensures
        parsed(written(path)) == Ok::<Seq<SegmentView>, PathError>(path),
{
    if path.len() > 0 {
        lemma_pieces_of_written(path);
        let parts = pieces(written(path));
        assert forall|i: int| 0 <= i < parts.len() implies (#[trigger] parts[i]).len() > 0
            && segment_of(parts[i]) == path[i] by {
            assert(readable(path[i]));
        }
        assert(readable(path[path.len() - 1]));
        assert(written(path).len() > 0);
        assert(segments_of(parts) =~= path);
    } else {
        assert(path =~= Seq::<SegmentView>::empty());
    }
}

impl PathExpression {
    /// Writes the path as text.
    pub fn to_text(&self) -> (text: String)
        ensures
            text@ == written(self@),
    {
        let mut text = String::new();
        let n: usize = self.segments.len();
        let mut i: usize = 0;
        proof {
            reveal_strlit("/");
            reveal_strlit("*");
        }
        while i < n
            invariant
                n == self.segments@.len(),
                n == self@.len(),
                i <= n,
                "/"@ == seq!['/'],
                "*"@ == seq!['*'],
                text@ == written(self@.take(i as int)),
            decreases n - i,
        {
            if i > 0 {
                text.append("/");
            }
            match &self.segments[i] {
                Segment::Name(name) => {
                    text.append(name.as_str());
                },
                Segment::Wildcard => {
                    text.append("*");
                },
            }
            proof {
                let next = self@.take(i + 1);
                assert(next.drop_last() =~= self@.take(i as int));
                assert(next.last() == self.segments@[i as int]@);
            }
            i += 1;
        }
        assert(self@.take(n as int) =~= self@);
        text
    }
}

} // verus!
