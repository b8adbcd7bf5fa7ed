use vstd::prelude::*;
use vstd::string::{StrSliceExecFns, StringExecFns};

verus! {

/// One piece of a formatting template.
#[derive(Debug, PartialEq, Eq)]
pub enum Segment {
    /// A run of literal text, possibly empty.
    Text(String),
    /// A `{`…`}` span, both braces included.
    Placeholder(String),
}

/// The mathematical form of a [`Segment`].
pub enum SegmentView {
    Text(Seq<char>),
    Placeholder(Seq<char>),
}

impl View for Segment {
    type V = SegmentView;

    open spec fn view(&self) -> SegmentView {
        match self {
            Segment::Text(s) => SegmentView::Text(s@),
            Segment::Placeholder(s) => SegmentView::Placeholder(s@),
        }
    }
}

impl SegmentView {
    pub open spec fn text(self) -> Seq<char> {
        match self {
            SegmentView::Text(s) => s,
            SegmentView::Placeholder(s) => s,
        }
    }
}

/// The first index at or after `from` that holds `c`.
pub open spec fn find_spec(s: Seq<char>, c: char, from: int) -> Option<int>
    decreases s.len() - from,
{
    if from < 0 || from >= s.len() {
        None
    } else if s[from] == c {
        Some(from)
    } else {
        find_spec(s, c, from + 1)
    }
}

pub proof fn lemma_find_bounds(s: Seq<char>, c: char, from: int)
    ensures
        find_spec(s, c, from) matches Some(i) ==> from <= i < s.len() && s[i] == c,
    decreases s.len() - from,
{
    if 0 <= from < s.len() && s[from] != c {
        lemma_find_bounds(s, c, from + 1);
    }
}

/// What is left of `s` from `start` on, as one text run, unless it is empty.
pub open spec fn trailing_spec(s: Seq<char>, start: int) -> Seq<SegmentView> {
    if start < s.len() {
        seq![SegmentView::Text(s.subrange(start, s.len() as int))]
    } else {
        Seq::empty()
    }
}

/// The segments of `s` from `start` on: before each `{` that a later `}`
/// closes, a text run (possibly empty) and then the placeholder up to that
/// `}`; the rest after the last such placeholder, if any, as a final run.
pub open spec fn segments_from(s: Seq<char>, start: int) -> Seq<SegmentView>
    decreases s.len() - start,
    when 0 <= start <= s.len()
    via segments_from_decreases
{
    match find_spec(s, '{', start) {
        Some(o) => match find_spec(s, '}', o) {
            Some(c) => seq![
                SegmentView::Text(s.subrange(start, o)),
                SegmentView::Placeholder(s.subrange(o, c + 1)),
            ] + segments_from(s, c + 1),
            None => trailing_spec(s, start),
        },
        None => trailing_spec(s, start),
    }
}

#[via_fn]
proof fn segments_from_decreases(s: Seq<char>, start: int) {
    lemma_find_bounds(s, '{', start);
    if let Some(o) = find_spec(s, '{', start) {
        lemma_find_bounds(s, '}', o);
    }
}

/// The number of `{` in `s` from `start` on that a later `}` closes, counted
/// left to right, each count resuming after the closing `}`.
pub open spec fn closed_brace_count(s: Seq<char>, start: int) -> nat
    decreases s.len() - start,
    when 0 <= start <= s.len()
    via closed_brace_count_decreases
{
    match find_spec(s, '{', start) {
        Some(o) => match find_spec(s, '}', o) {
            Some(c) => 1 + closed_brace_count(s, c + 1),
            None => 0,
        },
        None => 0,
    }
}

#[via_fn]
proof fn closed_brace_count_decreases(s: Seq<char>, start: int) {
    lemma_find_bounds(s, '{', start);
    if let Some(o) = find_spec(s, '{', start) {
        lemma_find_bounds(s, '}', o);
    }
}

/// All segment texts joined in order.
pub open spec fn concat_segments(segs: Seq<SegmentView>) -> Seq<char>
    decreases segs.len(),
{
    if segs.len() == 0 {
        Seq::empty()
    } else {
        segs[0].text() + concat_segments(segs.drop_first())
    }
}

/// The number of placeholders among `segs`.
pub open spec fn placeholder_count(segs: Seq<SegmentView>) -> nat
    decreases segs.len(),
{
    if segs.len() == 0 {
        0
    } else {
        (if segs[0] is Placeholder { 1nat } else { 0nat }) + placeholder_count(segs.drop_first())
    }
}

fn find_char(text: &str, n: usize, c: char, from: usize) -> (r: Option<usize>)
    requires
        n == text@.len(),
        from <= n,
    ensures
        r matches Some(i) ==> find_spec(text@, c, from as int) == Some(i as int),
        r is None ==> find_spec(text@, c, from as int) is None,
        r matches Some(i) ==> from <= i < n,
{
    let mut i = from;
    while i < n
        invariant
            n == text@.len(),
            from <= i <= n,
            find_spec(text@, c, from as int) == find_spec(text@, c, i as int),
        decreases n - i,
    {
        if text.get_char(i) == c {
            return Some(i);
        }
        i += 1;
    }
    None
}

/// Splits a formatting template into text runs and placeholders.
///
/// A `{` with no `}` after it ends the scan: it and all that follows form the
/// final text run.
pub fn segment(text: &str) -> (r: Vec<Segment>)
    ensures
        r@.map_values(|x: Segment| x@) == segments_from(text@, 0),
{
    let n = text.unicode_len();
    let mut out: Vec<Segment> = Vec::new();
    let mut start: usize = 0;
    loop
        invariant_except_break
            out@.map_values(|x: Segment| x@) + segments_from(text@, start as int)
                == segments_from(text@, 0),
        invariant
            n == text@.len(),
            start <= n,
        ensures
            out@.map_values(|x: Segment| x@) == segments_from(text@, 0),
        decreases n - start,
    {
        let ghost before = out@.map_values(|x: Segment| x@);
        let open = find_char(text, n, '{', start);
        let close = match open {
            Some(o) => find_char(text, n, '}', o),
            None => None,
        };
        match (open, close) {
            (Some(o), Some(c)) => {
                let run = String::from_str(text.substring_char(start, o));
                let span = String::from_str(text.substring_char(o, c + 1));
                out.push(Segment::Text(run));
                out.push(Segment::Placeholder(span));
                assert(out@.map_values(|x: Segment| x@) =~= before + seq![
                    SegmentView::Text(text@.subrange(start as int, o as int)),
                    SegmentView::Placeholder(text@.subrange(o as int, c + 1)),
                ]);
                let ghost head = seq![
                    SegmentView::Text(text@.subrange(start as int, o as int)),
                    SegmentView::Placeholder(text@.subrange(o as int, c + 1)),
                ];
                assert(before + head + segments_from(text@, c + 1) =~= before + (head
                    + segments_from(text@, c + 1)));
                start = c + 1;
            },
            _ => {
                if start < n {
                    let run = String::from_str(text.substring_char(start, n));
                    out.push(Segment::Text(run));
                }
                assert(out@.map_values(|x: Segment| x@) =~= before + trailing_spec(
                    text@,
                    start as int,
                ));
                break ;
            },
        }
    }
    out
}

proof fn lemma_concat_append(a: Seq<SegmentView>, b: Seq<SegmentView>)
    ensures
        concat_segments(a + b) == concat_segments(a) + concat_segments(b),
    decreases a.len(),
{
    if a.len() > 0 {
        assert((a + b).drop_first() =~= a.drop_first() + b);
        lemma_concat_append(a.drop_first(), b);
    } else {
        assert(a + b =~= b);
    }
}

proof fn lemma_count_append(a: Seq<SegmentView>, b: Seq<SegmentView>)
    ensures
        placeholder_count(a + b) == placeholder_count(a) + placeholder_count(b),
    decreases a.len(),
{
    if a.len() > 0 {
        assert((a + b).drop_first() =~= a.drop_first() + b);
        lemma_count_append(a.drop_first(), b);
    } else {
        assert(a + b =~= b);
    }
}

/// Joining the segments of a text in order gives the text back.
pub proof fn lemma_segments_cover(s: Seq<char>, start: int)
    requires
        0 <= start <= s.len(),
    ensures
        concat_segments(segments_from(s, start)) == s.subrange(start, s.len() as int),
    decreases s.len() - start,
{
    reveal_with_fuel(concat_segments, 3);
    lemma_find_bounds(s, '{', start);
    let tail = trailing_spec(s, start);
    assert(concat_segments(tail) =~= s.subrange(start, s.len() as int)) by {
        if start < s.len() {
            assert(tail.drop_first() =~= Seq::<SegmentView>::empty());
        }
    }
    if let Some(o) = find_spec(s, '{', start) {
        lemma_find_bounds(s, '}', o);
        if let Some(c) = find_spec(s, '}', o) {
            let head = seq![
                SegmentView::Text(s.subrange(start, o)),
                SegmentView::Placeholder(s.subrange(o, c + 1)),
            ];
            lemma_segments_cover(s, c + 1);
            lemma_concat_append(head, segments_from(s, c + 1));
            assert(head.drop_first().drop_first() =~= Seq::<SegmentView>::empty());
            assert(concat_segments(head) =~= s.subrange(start, c + 1));
            assert(s.subrange(start, c + 1) + s.subrange(c + 1, s.len() as int) =~= s.subrange(
                start,
                s.len() as int,
            ));
        }
    }
}

/// The placeholders among the segments of a text are exactly its `{` that a
/// later `}` closes.
pub proof fn lemma_placeholder_count(s: Seq<char>, start: int)
    requires
        0 <= start <= s.len(),
    ensures
        placeholder_count(segments_from(s, start)) == closed_brace_count(s, start),
    decreases s.len() - start,
{
    reveal_with_fuel(placeholder_count, 3);
    lemma_find_bounds(s, '{', start);
    let tail = trailing_spec(s, start);
    assert(placeholder_count(tail) == 0) by {
        if start < s.len() {
            assert(tail.drop_first() =~= Seq::<SegmentView>::empty());
        }
    }
    if let Some(o) = find_spec(s, '{', start) {
        lemma_find_bounds(s, '}', o);
        if let Some(c) = find_spec(s, '}', o) {
            let head = seq![
                SegmentView::Text(s.subrange(start, o)),
                SegmentView::Placeholder(s.subrange(o, c + 1)),
            ];
            lemma_placeholder_count(s, c + 1);
            lemma_count_append(head, segments_from(s, c + 1));
            assert(head.drop_first().drop_first() =~= Seq::<SegmentView>::empty());
        }
    }
}

} // verus!
