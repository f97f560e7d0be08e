//! Path patterns: compilation from text and matching against concrete paths.
//!
//! A pattern is `/` followed by segments separated by `/`. A segment is a
//! literal, a parameter `:name` that captures one non-empty path segment, or,
//! as the last segment only, a catch-all `*name` that captures the non-empty
//! rest of the path.
use vstd::prelude::*;
use vstd::string::StrSliceExecFns;

use crate::http::Params;

verus! {

/// One segment of a pattern, over character sequences.
pub enum SegView {
    Literal(Seq<char>),
    Param(Seq<char>),
    CatchAll(Seq<char>),
}

/// Why a pattern text was refused.
#[derive(Clone, Copy, Debug, PartialEq, Eq, Structural)]
pub enum PatternError {
    /// The text does not start with `/`.
    MissingLeadingSlash,
    /// Two slashes in a row, or a trailing slash.
    EmptySegment,
    /// A `:` or `*` with no name after it.
    UnnamedParameter,
    /// A catch-all that is not the last segment.
    CatchAllNotLast,
    /// Two parameters of one pattern share a name.
    DuplicateParameter,
}

/// Splits `s` at every `/`; there is always at least one piece.
pub open spec fn split_slash(s: Seq<char>) -> Seq<Seq<char>>
    decreases s.len(),
{
    if s.len() == 0 {
        seq![Seq::empty()]
    } else {
        let r = split_slash(s.drop_last());
        if s.last() == '/' {
            r.push(Seq::empty())
        } else {
            r.update(r.len() - 1, r.last().push(s.last()))
        }
    }
}

/// The segment texts of a pattern: none for `/` alone.
pub open spec fn pattern_pieces(t: Seq<char>) -> Seq<Seq<char>> {
    if t.len() <= 1 {
        Seq::empty()
    } else {
        split_slash(t.subrange(1, t.len() as int))
    }
}

pub open spec fn is_dynamic(piece: Seq<char>) -> bool {
    piece.len() > 0 && (piece[0] == ':' || piece[0] == '*')
}

pub open spec fn is_catch_all(piece: Seq<char>) -> bool {
    piece.len() > 0 && piece[0] == '*'
}

/// What a segment text compiles to.
pub open spec fn piece_segment(piece: Seq<char>) -> SegView {
    if piece.len() > 0 && piece[0] == ':' {
        SegView::Param(piece.drop_first())
    } else if is_catch_all(piece) {
        SegView::CatchAll(piece.drop_first())
    } else {
        SegView::Literal(piece)
    }
}

/// Whether pattern text `t` has the defect that `e` names.
pub open spec fn pattern_defect(t: Seq<char>, e: PatternError) -> bool {
    let p = pattern_pieces(t);
    match e {
        PatternError::MissingLeadingSlash => t.len() == 0 || t[0] != '/',
        PatternError::EmptySegment => exists|k: int| 0 <= k < p.len() && #[trigger] p[k].len() == 0,
        PatternError::UnnamedParameter => exists|k: int|
            0 <= k < p.len() && is_dynamic(#[trigger] p[k]) && p[k].len() == 1,
        PatternError::CatchAllNotLast => exists|k: int|
            0 <= k < p.len() - 1 && is_catch_all(#[trigger] p[k]),
        PatternError::DuplicateParameter => exists|a: int, b: int|
            0 <= a < b < p.len() && is_dynamic(#[trigger] p[a]) && is_dynamic(#[trigger] p[b])
                && p[a].drop_first() == p[b].drop_first(),
    }
}

/// A pattern text that compiles.
pub open spec fn valid_pattern(t: Seq<char>) -> bool {
    forall|e: PatternError| !#[trigger] pattern_defect(t, e)
}

/// The segments that a valid pattern text compiles to.
pub open spec fn pattern_segments(t: Seq<char>) -> Seq<SegView> {
    pattern_pieces(t).map_values(|piece: Seq<char>| piece_segment(piece))
}


/// Index of the first `/` at or after `i`, or the length when there is none.
pub open spec fn seg_end(p: Seq<char>, i: int) -> int
    decreases p.len() - i,
{
    if i < 0 || i >= p.len() || p[i] == '/' {
        i
    } else {
        seg_end(p, i + 1)
    }
}

/// Captures already taken, put in front of what the rest of a match captures.
pub open spec fn prepend(
    acc: Seq<(Seq<char>, Seq<char>)>,
    o: Option<Seq<(Seq<char>, Seq<char>)>>,
) -> Option<Seq<(Seq<char>, Seq<char>)>> {
    match o {
        Some(r) => Some(acc + r),
        None => None,
    }
}

/// Matches segments `k..` against the path from position `i`, the start of a
/// path segment; on success, the captures in segment order.
pub open spec fn match_from(segs: Seq<SegView>, k: int, p: Seq<char>, i: int) -> Option<
    Seq<(Seq<char>, Seq<char>)>,
>
    decreases segs.len() - k,
{
    if k < 0 || k >= segs.len() {
        None
    } else {
        match segs[k] {
            SegView::CatchAll(n) => if i < p.len() {
                Some(seq![(n, p.subrange(i, p.len() as int))])
            } else {
                None
            },
            _ => {
                let e = seg_end(p, i);
                let text = p.subrange(i, e);
                let ok = match segs[k] {
                    SegView::Literal(l) => text == l,
                    _ => text.len() > 0,
                };
                let here: Seq<(Seq<char>, Seq<char>)> = match segs[k] {
                    SegView::Param(n) => seq![(n, text)],
                    _ => Seq::empty(),
                };
                if !ok {
                    None
                } else if k + 1 == segs.len() {
                    if e == p.len() {
                        Some(here)
                    } else {
                        None
                    }
                } else if e < p.len() {
                    prepend(here, match_from(segs, k + 1, p, e + 1))
                } else {
                    None
                }
            },
        }
    }
}

/// Matches a whole path against pattern segments: `Some` with the captures
/// when the path satisfies the pattern, `None` otherwise.
pub open spec fn match_path(segs: Seq<SegView>, p: Seq<char>) -> Option<
    Seq<(Seq<char>, Seq<char>)>,
> {
    if p.len() == 0 || p[0] != '/' {
        None
    } else if segs.len() == 0 {
        if p.len() == 1 {
            Some(Seq::empty())
        } else {
            None
        }
    } else {
        match_from(segs, 0, p, 1)
    }
}

/// Specificity of one segment kind: literal, then parameter, then catch-all.
pub open spec fn seg_rank(s: SegView) -> int {
    match s {
        SegView::Literal(_) => 0,
        SegView::Param(_) => 1,
        SegView::CatchAll(_) => 2,
    }
}

/// Whether pattern `a` is strictly more specific than pattern `b`: at the
/// first position where their segment kinds differ, `a` has the more specific
/// kind.
pub open spec fn more_specific(a: Seq<SegView>, b: Seq<SegView>) -> bool
    decreases a.len(),
{
    if a.len() == 0 || b.len() == 0 {
        a.len() == 0 && b.len() > 0
    } else if seg_rank(a[0]) != seg_rank(b[0]) {
        seg_rank(a[0]) < seg_rank(b[0])
    } else {
        more_specific(a.drop_first(), b.drop_first())
    }
}

/// Whether two patterns have the same segment kinds, position by position.
pub open spec fn same_shape(a: Seq<SegView>, b: Seq<SegView>) -> bool {
    a.len() == b.len() && forall|i: int| 0 <= i < a.len() ==> seg_rank(#[trigger] a[i]) == seg_rank(
        b[i],
    )
}

/// Specificity is asymmetric, hence irreflexive.
pub proof fn lemma_more_specific_asymmetric(a: Seq<SegView>, b: Seq<SegView>)
    ensures
        more_specific(a, b) ==> !more_specific(b, a),
    decreases a.len(),
{
    if a.len() > 0 && b.len() > 0 && seg_rank(a[0]) == seg_rank(b[0]) {
        lemma_more_specific_asymmetric(a.drop_first(), b.drop_first());
    }
}

/// Specificity is transitive.
pub proof fn lemma_more_specific_transitive(a: Seq<SegView>, b: Seq<SegView>, c: Seq<SegView>)
    ensures
        more_specific(a, b) && more_specific(b, c) ==> more_specific(a, c),
    decreases a.len(),
{
    if a.len() > 0 && b.len() > 0 && c.len() > 0 {
        lemma_more_specific_transitive(a.drop_first(), b.drop_first(), c.drop_first());
    }
}

/// Of two patterns, one is more specific than the other or both have the
/// same shape.
pub proof fn lemma_more_specific_total(a: Seq<SegView>, b: Seq<SegView>)
    ensures
        more_specific(a, b) || more_specific(b, a) || same_shape(a, b),
    decreases a.len(),
{
    if a.len() > 0 && b.len() > 0 && seg_rank(a[0]) == seg_rank(b[0]) {
        lemma_more_specific_total(a.drop_first(), b.drop_first());
        if same_shape(a.drop_first(), b.drop_first()) {
            assert forall|i: int| 0 <= i < a.len() implies seg_rank(#[trigger] a[i]) == seg_rank(
                b[i],
            ) by {
                if i > 0 {
                    assert(a[i] == a.drop_first()[i - 1]);
                    assert(b[i] == b.drop_first()[i - 1]);
                }
            }
        }
    }
}

/// Patterns of the same shape compare alike against any third.
pub proof fn lemma_same_shape_compare(a: Seq<SegView>, b: Seq<SegView>, c: Seq<SegView>)
    requires
        same_shape(a, b),
    ensures
        more_specific(a, c) == more_specific(b, c),
        more_specific(c, a) == more_specific(c, b),
    decreases a.len(),
{
    if a.len() > 0 {
        assert(seg_rank(a[0]) == seg_rank(b[0]));
        assert forall|i: int| 0 <= i < a.drop_first().len() implies seg_rank(
            #[trigger] a.drop_first()[i],
        ) == seg_rank(b.drop_first()[i]) by {
            assert(seg_rank(a[i + 1]) == seg_rank(b[i + 1]));
        }
        if c.len() > 0 {
            lemma_same_shape_compare(a.drop_first(), b.drop_first(), c.drop_first());
        }
    }
}

/// One compiled segment.
pub enum Segment {
    Literal(String),
    Param(String),
    CatchAll(String),
}

impl View for Segment {
    type V = SegView;

    open spec fn view(&self) -> SegView {
        match self {
            Segment::Literal(s) => SegView::Literal(s@),
            Segment::Param(s) => SegView::Param(s@),
            Segment::CatchAll(s) => SegView::CatchAll(s@),
        }
    }
}

/// A compiled path pattern.
pub struct Pattern {
    text: String,
    segments: Vec<Segment>,
}

impl Pattern {
    /// The text the pattern was compiled from.
    pub closed spec fn source(&self) -> Seq<char> {
        self.text@
    }

    /// The compiled segments.
    pub open spec fn segs(&self) -> Seq<SegView> {
        pattern_segments(self.source())
    }

    #[verifier::type_invariant]
    closed spec fn inv(&self) -> bool {
        &&& valid_pattern(self.text@)
        &&& self.segments@.map_values(|s: Segment| s@) == pattern_segments(self.text@)
    }

    /// The text the pattern was compiled from.
    pub fn text(&self) -> (r: &str)
        ensures
            r@ == self.source(),
            valid_pattern(self.source()),
    {
        proof {
            use_type_invariant(self);
        }
        self.text.as_str()
    }

    /// Matches `path` against the pattern, capturing its parameters.
    pub fn captures(&self, path: &str) -> (r: Option<Params>)
        ensures
            match r {
                Some(ps) => match_path(self.segs(), path@) == Some(ps@),
                None => match_path(self.segs(), path@) is None,
            },
    {
        proof {
            use_type_invariant(self);
        }
        let ghost segs = self.segs();
        let ghost p = path@;
        let n = path.unicode_len();
        if n == 0 || path.get_char(0) != '/' {
            return None;
        }
        let nseg = self.segments.len();
        assert(segs.len() == nseg) by {
            assert(self.segments@.map_values(|s: Segment| s@).len() == nseg);
        }
        if nseg == 0 {
            if n == 1 {
                return Some(Params::new());
            } else {
                return None;
            }
        }
        let mut params = Params::new();
        let mut k: usize = 0;
        let mut i: usize = 1;
        assert(params@ + match_from(segs, 0, p, 1)->0 =~= match_from(segs, 0, p, 1)->0);
        loop
            invariant
                n == p.len(),
                p == path@,
                segs == self.segs(),
                segs.len() == nseg,
                nseg == self.segments@.len(),
                forall|j: int| 0 <= j < nseg ==> (#[trigger] self.segments@[j])@ == segs[j],
                1 <= i <= n,
                k < nseg,
                match_path(segs, p) == prepend(params@, match_from(segs, k as int, p, i as int)),
            decreases nseg - k,
        {
            assert(self.segments@[k as int]@ == segs[k as int]);
            match &self.segments[k] {
                Segment::CatchAll(name) => {
                    if i < n {
                        let ghost before = params@;
                        let value = path.substring_char(i, n).to_owned();
                        params.push(name.clone(), value);
                        assert(before + seq![(name@, p.subrange(i as int, n as int))] =~= params@);
                        return Some(params);
                    } else {
                        return None;
                    }
                },
                seg => {
                    let e = next_slash(path, i);
                    let ghost text = p.subrange(i as int, e as int);
                    let ghost before = params@;
                    match seg {
                        Segment::Literal(lit) => {
                            if !region_eq(lit.as_str(), path, i, e) {
                                return None;
                            }
                            assert(before + Seq::empty() =~= before);
                        },
                        Segment::Param(name) => {
                            if e == i {
                                return None;
                            }
                            let value = path.substring_char(i, e).to_owned();
                            params.push(name.clone(), value);
                        },
                        Segment::CatchAll(_) => {},
                    }
                    if k + 1 == nseg {
                        if e == n {
                            return Some(params);
                        } else {
                            return None;
                        }
                    }
                    if e < n {
                        proof {
                            let rest = match_from(segs, k + 1, p, e + 1);
                            if rest is Some {
                                assert(before + (match segs[k as int] {
                                    SegView::Param(nm) => seq![(nm, text)],
                                    _ => Seq::empty(),
                                } + rest->0) =~= params@ + rest->0);
                            }
                        }
                        k += 1;
                        i = e + 1;
                    } else {
                        return None;
                    }
                },
            }
        }
    }

    /// Whether this pattern is strictly more specific than `other`.
    pub fn more_specific_than(&self, other: &Pattern) -> (r: bool)
        ensures
            r == more_specific(self.segs(), other.segs()),
    {
        proof {
            use_type_invariant(self);
            use_type_invariant(other);
        }
        let ghost a = self.segs();
        let ghost b = other.segs();
        let na = self.segments.len();
        let nb = other.segments.len();
        assert(a.len() == na && b.len() == nb) by {
            assert(self.segments@.map_values(|s: Segment| s@).len() == na);
            assert(other.segments@.map_values(|s: Segment| s@).len() == nb);
        }
        let mut i: usize = 0;
        assert(a.skip(0) =~= a && b.skip(0) =~= b);
        while i < na && i < nb
            invariant
                a == self.segs(),
                b == other.segs(),
                na == a.len(),
                nb == b.len(),
                na == self.segments@.len(),
                nb == other.segments@.len(),
                forall|j: int| 0 <= j < na ==> (#[trigger] self.segments@[j])@ == a[j],
                forall|j: int| 0 <= j < nb ==> (#[trigger] other.segments@[j])@ == b[j],
                i <= na,
                i <= nb,
                more_specific(a, b) == more_specific(a.skip(i as int), b.skip(i as int)),
            decreases na - i,
        {
            assert(self.segments@[i as int]@ == a[i as int]);
            assert(other.segments@[i as int]@ == b[i as int]);
            assert(a.skip(i as int)[0] == a[i as int]);
            assert(b.skip(i as int)[0] == b[i as int]);
            let ra = segment_rank(&self.segments[i]);
            let rb = segment_rank(&other.segments[i]);
            if ra != rb {
                return ra < rb;
            }
            assert(a.skip(i as int).drop_first() =~= a.skip(i + 1));
            assert(b.skip(i as int).drop_first() =~= b.skip(i + 1));
            i += 1;
        }
        i == na && i < nb
    }

    /// Compiles pattern text, refusing malformed text.
    pub fn compile(t: &str) -> (r: Result<Pattern, PatternError>)
        ensures
            r is Ok <==> valid_pattern(t@),
            r matches Ok(p) ==> p.source() == t@,
            r matches Err(e) ==> pattern_defect(t@, e),
    {
        let n = t.unicode_len();
        if n == 0 || t.get_char(0) != '/' {
            assert(pattern_defect(t@, PatternError::MissingLeadingSlash));
            return Err(PatternError::MissingLeadingSlash);
        }
        let ranges = piece_ranges(t);
        let ghost pieces = pattern_pieces(t@);
        let mut segments: Vec<Segment> = Vec::new();
        let mut k: usize = 0;
        while k < ranges.len()
            invariant
                n == t@.len(),
                pieces == pattern_pieces(t@),
                pieces.len() == ranges@.len(),
                forall|j: int|
                    0 <= j < ranges@.len() ==> 1 <= (#[trigger] ranges@[j]).0 <= ranges@[j].1 <= n
                        && pieces[j] == t@.subrange(ranges@[j].0 as int, ranges@[j].1 as int),
                k <= ranges@.len(),
                segments@.len() == k,
                forall|j: int| 0 <= j < k ==> (#[trigger] segments@[j])@ == piece_segment(pieces[j]),
                forall|j: int| 0 <= j < k ==> (#[trigger] pieces[j]).len() > 0,
                forall|j: int| 0 <= j < k ==> !(is_dynamic(#[trigger] pieces[j]) && pieces[j].len() == 1),
                forall|j: int| 0 <= j < k && j < pieces.len() - 1 ==> !is_catch_all(#[trigger] pieces[j]),
            decreases ranges@.len() - k,
        {
            let (a, b) = ranges[k];
            let ghost piece = pieces[k as int];
            assert(ranges@[k as int] == (a, b));
            assert(piece == t@.subrange(a as int, b as int));
            if a == b {
                assert(pieces[k as int].len() == 0);
                assert(pattern_defect(t@, PatternError::EmptySegment));
                return Err(PatternError::EmptySegment);
            }
            let c = t.get_char(a);
            assert(piece[0] == c);
            if (c == ':' || c == '*') && b == a + 1 {
                assert(pattern_defect(t@, PatternError::UnnamedParameter));
                return Err(PatternError::UnnamedParameter);
            }
            if c == '*' && k + 1 < ranges.len() {
                assert(is_catch_all(pieces[k as int]));
                assert(pattern_defect(t@, PatternError::CatchAllNotLast));
                return Err(PatternError::CatchAllNotLast);
            }
            let seg = if c == ':' {
                let name = t.substring_char(a + 1, b);
                assert(name@ =~= piece.drop_first());
                Segment::Param(name.to_owned())
            } else if c == '*' {
                let name = t.substring_char(a + 1, b);
                assert(name@ =~= piece.drop_first());
                Segment::CatchAll(name.to_owned())
            } else {
                Segment::Literal(t.substring_char(a, b).to_owned())
            };
            segments.push(seg);
            k += 1;
        }
        if let Some((a, b)) = first_duplicate_name(&segments) {
            proof {
                let (ia, ib) = (a as int, b as int);
                assert(is_dynamic(pieces[ia]) && is_dynamic(pieces[ib]));
                assert(pattern_defect(t@, PatternError::DuplicateParameter));
            }
            return Err(PatternError::DuplicateParameter);
        }
        proof {
            assert(segments@.map_values(|s: Segment| s@) =~= pattern_segments(t@));
            assert forall|e: PatternError| !#[trigger] pattern_defect(t@, e) by {
                if e == PatternError::DuplicateParameter && pattern_defect(t@, e) {
                    let (a, b) = choose|a: int, b: int|
                        0 <= a < b < pieces.len() && is_dynamic(#[trigger] pieces[a]) && is_dynamic(
                            #[trigger] pieces[b],
                        ) && pieces[a].drop_first() == pieces[b].drop_first();
                    assert(dyn_name(segments@[a]@) == Some(pieces[a].drop_first()));
                    assert(dyn_name(segments@[b]@) == Some(pieces[b].drop_first()));
                }
            }
        }
        let p = Pattern { text: t.to_owned(), segments };
        Ok(p)
    }
}

fn segment_rank(s: &Segment) -> (r: u8)
    ensures
        r == seg_rank(s@),
{
    match s {
        Segment::Literal(_) => 0,
        Segment::Param(_) => 1,
        Segment::CatchAll(_) => 2,
    }
}

/// The name of a parameter or catch-all segment.
pub open spec fn dyn_name(s: SegView) -> Option<Seq<char>> {
    match s {
        SegView::Literal(_) => None,
        SegView::Param(n) => Some(n),
        SegView::CatchAll(n) => Some(n),
    }
}

fn segment_name(s: &Segment) -> (r: Option<&String>)
    ensures
        match r {
            Some(n) => dyn_name(s@) == Some(n@),
            None => dyn_name(s@) is None,
        },
{
    match s {
        Segment::Literal(_) => None,
        Segment::Param(n) => Some(n),
        Segment::CatchAll(n) => Some(n),
    }
}

/// The first pair of segments, in order, that share a parameter name.
fn first_duplicate_name(segs: &Vec<Segment>) -> (r: Option<(usize, usize)>)
    ensures
        match r {
            Some((a, b)) => a < b < segs@.len() && dyn_name(segs@[a as int]@) is Some
                && dyn_name(segs@[a as int]@) == dyn_name(segs@[b as int]@),
            None => forall|a: int, b: int|
                0 <= a < b < segs@.len() && dyn_name(#[trigger] segs@[a]@) is Some ==> dyn_name(
                    segs@[a]@,
                ) != dyn_name(#[trigger] segs@[b]@),
        },
{
    let mut a: usize = 0;
    while a < segs.len()
        invariant
            a <= segs@.len(),
            forall|x: int, y: int|
                0 <= x < a && x < y < segs@.len() && dyn_name(#[trigger] segs@[x]@) is Some
                    ==> dyn_name(segs@[x]@) != dyn_name(#[trigger] segs@[y]@),
        decreases segs@.len() - a,
    {
        if let Some(na) = segment_name(&segs[a]) {
            let mut b: usize = a + 1;
            while b < segs.len()
                invariant
                    a < b <= segs@.len(),
                    dyn_name(segs@[a as int]@) == Some(na@),
                    forall|y: int| a < y < b ==> dyn_name(segs@[a as int]@) != dyn_name(#[trigger] segs@[y]@),
                decreases segs@.len() - b,
            {
                if let Some(nb) = segment_name(&segs[b]) {
                    if *na == *nb {
                        return Some((a, b));
                    }
                }
                b += 1;
            }
        }
        a += 1;
    }
    None
}

/// The end of the path segment that starts at `i`.
fn next_slash(p: &str, i: usize) -> (e: usize)
    requires
        i <= p@.len(),
    ensures
        e == seg_end(p@, i as int),
        i <= e <= p@.len(),
{
    let n = p.unicode_len();
    let mut j: usize = i;
    while j < n && p.get_char(j) != '/'
        invariant
            n == p@.len(),
            i <= j <= n,
            seg_end(p@, j as int) == seg_end(p@, i as int),
        decreases n - j,
    {
        j += 1;
    }
    j
}

/// Whether `a` equals the characters of `s` from `from` to `to`.
fn region_eq(a: &str, s: &str, from: usize, to: usize) -> (r: bool)
    requires
        from <= to <= s@.len(),
    ensures
        r == (a@ == s@.subrange(from as int, to as int)),
{
    let n = a.unicode_len();
    if n != to - from {
        return false;
    }
    let mut j: usize = 0;
    while j < n
        invariant
            n == a@.len(),
            n == to - from,
            to <= s@.len(),
            j <= n,
            forall|m: int| 0 <= m < j ==> a@[m] == s@[from + m],
        decreases n - j,
    {
        if a.get_char(j) != s.get_char(from + j) {
            return false;
        }
        j += 1;
    }
    assert(a@ =~= s@.subrange(from as int, to as int));
    true
}

/// The character ranges of the pieces of pattern text that starts with `/`.
fn piece_ranges(t: &str) -> (r: Vec<(usize, usize)>)
    requires
        t@.len() >= 1,
    ensures
        r@.len() == pattern_pieces(t@).len(),
        forall|j: int|
            0 <= j < r@.len() ==> 1 <= (#[trigger] r@[j]).0 <= r@[j].1 <= t@.len()
                && pattern_pieces(t@)[j] == t@.subrange(r@[j].0 as int, r@[j].1 as int),
{
    let n = t.unicode_len();
    let mut ranges: Vec<(usize, usize)> = Vec::new();
    if n == 1 {
        return ranges;
    }
    let mut start: usize = 1;
    let mut i: usize = 1;
    proof {
        assert(t@.subrange(1, 1) =~= Seq::<char>::empty());
        assert(split_slash(Seq::<char>::empty()) == seq![Seq::<char>::empty()]);
        assert(ranges@.map_values(|r: (usize, usize)| t@.subrange(r.0 as int, r.1 as int))
            =~= Seq::<Seq<char>>::empty());
    }
    while i < n
        invariant
            n == t@.len(),
            n > 1,
            1 <= start <= i <= n,
            split_slash(t@.subrange(1, i as int)) == ranges@.map_values(
                |r: (usize, usize)| t@.subrange(r.0 as int, r.1 as int),
            ).push(t@.subrange(start as int, i as int)),
            forall|j: int|
                0 <= j < ranges@.len() ==> 1 <= (#[trigger] ranges@[j]).0 <= ranges@[j].1 <= i,
        decreases n - i,
    {
        let ghost before = ranges@;
        proof {
            let s = t@.subrange(1, i + 1);
            assert(s.drop_last() =~= t@.subrange(1, i as int));
            assert(s.last() == t@[i as int]);
        }
        if t.get_char(i) == '/' {
            ranges.push((start, i));
            proof {
                assert(ranges@.map_values(|r: (usize, usize)| t@.subrange(r.0 as int, r.1 as int))
                    =~= before.map_values(|r: (usize, usize)| t@.subrange(r.0 as int, r.1 as int)).push(
                    t@.subrange(start as int, i as int),
                ));
                assert(t@.subrange(i + 1, i + 1) =~= Seq::<char>::empty());
            }
            start = i + 1;
        } else {
            assert(t@.subrange(start as int, i + 1) =~= t@.subrange(start as int, i as int).push(
                t@[i as int],
            ));
        }
        i += 1;
    }
    ranges.push((start, n));
    proof {
        let m = ranges@.map_values(|r: (usize, usize)| t@.subrange(r.0 as int, r.1 as int));
        assert(t@.subrange(1, n as int) == t@.subrange(1, t@.len() as int));
        assert forall|j: int| 0 <= j < ranges@.len() implies pattern_pieces(t@)[j] == t@.subrange(
            (#[trigger] ranges@[j]).0 as int,
            ranges@[j].1 as int,
        ) by {
            assert(m[j] == t@.subrange(ranges@[j].0 as int, ranges@[j].1 as int));
        }
    }
    ranges
}

} // verus!
