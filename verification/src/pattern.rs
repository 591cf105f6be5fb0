//! Route-template compilation and path matching.
//!
//! A template is a `/`-delimited sequence of segments: a literal word, a
//! named capture `{name}` matching one non-empty word-character segment,
//! or the wildcard `**` which must come last and matches the remainder of
//! the path. A compiled pattern is anchored: it matches whole paths only.
use vstd::prelude::*;
use crate::strutil::{
    all_word_chars, find_from, is_word_char, spec_find, spec_split, split_str, str_eq,
};
use crate::kv::{kv_contains, kv_get, kv_views};

verus! {

/// Spec-level model of one compiled segment.
pub enum SegmentView {
    Literal(Seq<char>),
    Named(Seq<char>),
    Wildcard,
}

/// One compiled segment of a route pattern.
pub enum Segment {
    Literal(String),
    Named(String),
    Wildcard,
}

impl View for Segment {
    type V = SegmentView;

    open spec fn view(&self) -> SegmentView {
        match self {
            Segment::Literal(t) => SegmentView::Literal(t@),
            Segment::Named(n) => SegmentView::Named(n@),
            Segment::Wildcard => SegmentView::Wildcard,
        }
    }
}

pub open spec fn seg_views(v: Seq<Segment>) -> Seq<SegmentView> {
    v.map_values(|s: Segment| s@)
}

pub proof fn lemma_seg_views_index(v: Seq<Segment>, i: int)
    requires
        0 <= i < v.len(),
    ensures
        seg_views(v)[i] == v[i]@,
{
}

/// The name of a named segment (meaningful only for `Named`).
pub open spec fn named_id(s: SegmentView) -> Seq<char> {
    match s {
        SegmentView::Named(n) => n,
        SegmentView::Literal(t) => t,
        SegmentView::Wildcard => Seq::empty(),
    }
}

/// How a template segment token compiles, if it is well-formed.
pub open spec fn classify_segment(t: Seq<char>) -> Option<SegmentView> {
    if t.len() == 0 {
        Some(SegmentView::Literal(t))
    } else if t == seq!['*', '*'] {
        Some(SegmentView::Wildcard)
    } else if t[0] == '{' {
        if t.len() >= 3 && t[t.len() - 1] == '}' && all_word_chars(t.subrange(1, t.len() - 1)) {
            Some(SegmentView::Named(t.subrange(1, t.len() - 1)))
        } else {
            None
        }
    } else if all_word_chars(t) {
        Some(SegmentView::Literal(t))
    } else {
        None
    }
}

/// The `/`-delimited tokens of a template (after the leading `/`).
pub open spec fn template_tokens(t: Seq<char>) -> Seq<Seq<char>> {
    spec_split(t.skip(1), '/')
}

/// The compiled segments of a template (meaningful when it is valid).
pub open spec fn template_segments(t: Seq<char>) -> Seq<SegmentView> {
    Seq::new(template_tokens(t).len(), |i: int| classify_segment(template_tokens(t)[i]).unwrap())
}

/// The wildcard may stand only as the final segment.
pub open spec fn wildcard_only_last(segs: Seq<SegmentView>) -> bool {
    forall|i: int| 0 <= i < segs.len() - 1 ==> !((#[trigger] segs[i]) is Wildcard)
}

/// No two named segments share a name.
pub open spec fn distinct_names(segs: Seq<SegmentView>) -> bool {
    forall|i: int, j: int|
        0 <= i < j < segs.len() && (#[trigger] segs[i]) is Named && (#[trigger] segs[j]) is Named
            ==> named_id(segs[i]) != named_id(segs[j])
}

/// A template is valid when it starts with `/`, every token compiles, the
/// wildcard (if any) comes last, and capture names are distinct.
pub open spec fn valid_template(t: Seq<char>) -> bool {
    &&& t.len() > 0
    &&& t[0] == '/'
    &&& forall|i: int|
        0 <= i < template_tokens(t).len() ==> classify_segment(
            #[trigger] template_tokens(t)[i],
        ) is Some
    &&& wildcard_only_last(template_segments(t))
    &&& distinct_names(template_segments(t))
}

/// Whether `segs` matches `path` in full. The path must consist of one
/// `/`-led part per segment; a final wildcard instead swallows everything
/// after its `/`.
pub open spec fn pattern_matches(segs: Seq<SegmentView>, path: Seq<char>) -> bool
    decreases segs.len(),
{
    if segs.len() == 0 {
        path.len() == 0
    } else if path.len() == 0 || path[0] != '/' {
        false
    } else if segs[0] is Wildcard {
        segs.len() == 1
    } else {
        let rest = path.skip(1);
        match spec_find(rest, '/') {
            None => segs.len() == 1 && seg_matches(segs[0], rest),
            Some(j) => seg_matches(segs[0], rest.take(j)) && pattern_matches(
                segs.drop_first(),
                rest.skip(j),
            ),
        }
    }
}

/// Whether one non-wildcard segment accepts one path part.
pub open spec fn seg_matches(seg: SegmentView, part: Seq<char>) -> bool {
    match seg {
        SegmentView::Literal(t) => part == t,
        SegmentView::Named(_) => part.len() >= 1 && all_word_chars(part),
        SegmentView::Wildcard => false,
    }
}

/// The named captures of a successful match, in segment order.
pub open spec fn pattern_captures(segs: Seq<SegmentView>, path: Seq<char>) -> Seq<
    (Seq<char>, Seq<char>),
>
    decreases segs.len(),
{
    if segs.len() == 0 || path.len() == 0 || path[0] != '/' {
        Seq::empty()
    } else if segs[0] is Wildcard {
        Seq::empty()
    } else {
        let rest = path.skip(1);
        match spec_find(rest, '/') {
            None => match segs[0] {
                SegmentView::Named(n) => seq![(n, rest)],
                _ => Seq::empty(),
            },
            Some(j) => (match segs[0] {
                SegmentView::Named(n) => seq![(n, rest.take(j))],
                _ => Seq::empty(),
            }) + pattern_captures(segs.drop_first(), rest.skip(j)),
        }
    }
}

/// Literal segments hold word characters only (true of every compiled
/// pattern; `named_id` is the literal's text for `Literal`).
pub open spec fn literals_word(segs: Seq<SegmentView>) -> bool {
    forall|i: int|
        0 <= i < segs.len() && (#[trigger] segs[i]) is Literal ==> all_word_chars(
            named_id(segs[i]),
        )
}

/// The number of named segments.
pub open spec fn named_count(segs: Seq<SegmentView>) -> nat
    decreases segs.len(),
{
    if segs.len() == 0 {
        0
    } else {
        (if segs[0] is Named {
            1nat
        } else {
            0nat
        }) + named_count(segs.drop_first())
    }
}

/// The path obtained from a pattern by substituting, in order, one value
/// for each named segment and the empty string for the wildcard.
pub open spec fn subst_path(segs: Seq<SegmentView>, vals: Seq<Seq<char>>) -> Seq<char>
    decreases segs.len(),
{
    if segs.len() == 0 {
        Seq::empty()
    } else {
        let head = match segs[0] {
            SegmentView::Literal(t) => t,
            SegmentView::Named(_) => vals[0],
            SegmentView::Wildcard => Seq::empty(),
        };
        let tail_vals = if segs[0] is Named {
            vals.drop_first()
        } else {
            vals
        };
        seq!['/'] + head + subst_path(segs.drop_first(), tail_vals)
    }
}

/// The capture pairs such a substitution should produce.
pub open spec fn named_pairs(segs: Seq<SegmentView>, vals: Seq<Seq<char>>) -> Seq<
    (Seq<char>, Seq<char>),
>
    decreases segs.len(),
{
    if segs.len() == 0 {
        Seq::empty()
    } else {
        match segs[0] {
            SegmentView::Named(n) => seq![(n, vals[0])] + named_pairs(
                segs.drop_first(),
                vals.drop_first(),
            ),
            _ => named_pairs(segs.drop_first(), vals),
        }
    }
}

/// Whether some segment is a named capture under `k`.
pub open spec fn has_named(segs: Seq<SegmentView>, k: Seq<char>) -> bool
    decreases segs.len(),
{
    if segs.len() == 0 {
        false
    } else {
        (segs[0] is Named && named_id(segs[0]) == k) || has_named(segs.drop_first(), k)
    }
}

proof fn lemma_has_named_index(segs: Seq<SegmentView>, k: Seq<char>)
    requires
        has_named(segs, k),
    ensures
        exists|j: int|
            0 <= j < segs.len() && (#[trigger] segs[j]) is Named && named_id(segs[j]) == k,
    decreases segs.len(),
{
    if segs[0] is Named && named_id(segs[0]) == k {
        assert(0 <= 0 < segs.len() && segs[0] is Named && named_id(segs[0]) == k);
    } else {
        lemma_has_named_index(segs.drop_first(), k);
        let j = choose|j: int|
            0 <= j < segs.drop_first().len() && (#[trigger] segs.drop_first()[j]) is Named
                && named_id(segs.drop_first()[j]) == k;
        assert(segs[j + 1] == segs.drop_first()[j]);
        assert(0 <= j + 1 < segs.len() && segs[j + 1] is Named && named_id(segs[j + 1]) == k);
    }
}

/// The substituted capture pairs of a distinct-named pattern have unique
/// keys, each the identifier of one of its named segments: every
/// substituted value is retrievable under its own name (see
/// `crate::kv::lemma_kv_get_at_unique`).
pub proof fn lemma_named_pairs_unique(segs: Seq<SegmentView>, vals: Seq<Seq<char>>)
    requires
        distinct_names(segs),
    ensures
        crate::kv::kv_unique(named_pairs(segs, vals)),
        forall|k: Seq<char>|
            kv_contains(#[trigger] named_pairs(segs, vals), k) ==> has_named(segs, k),
    decreases segs.len(),
{
    if segs.len() == 0 {
        assert(named_pairs(segs, vals) =~= Seq::<(Seq<char>, Seq<char>)>::empty());
        assert forall|k: Seq<char>|
            kv_contains(#[trigger] named_pairs(segs, vals), k) implies has_named(segs, k) by {
            assert(kv_get(named_pairs(segs, vals), k) is None);
        }
        return ;
    }
    let tail = segs.drop_first();
    assert(distinct_names(tail)) by {
        assert(forall|w: int| 0 <= w < tail.len() ==> #[trigger] tail[w] == segs[w + 1]);
    }
    match segs[0] {
        SegmentView::Named(n) => {
            lemma_named_pairs_unique(tail, vals.drop_first());
            let t = named_pairs(tail, vals.drop_first());
            let r = seq![(n, vals[0])] + t;
            assert(named_pairs(segs, vals) == r);
            assert(r.drop_first() =~= t);
            assert(r[0] == (n, vals[0]));
            // the head name is not among the tail's names
            assert(!has_named(tail, n)) by {
                if has_named(tail, n) {
                    lemma_has_named_index(tail, n);
                    let j = choose|j: int|
                        0 <= j < tail.len() && (#[trigger] tail[j]) is Named && named_id(tail[j])
                            == n;
                    assert(segs[j + 1] == tail[j]);
                    assert(segs[0] is Named && segs[j + 1] is Named);
                    assert(named_id(segs[0]) != named_id(segs[j + 1]));
                }
            }
            assert forall|k: Seq<char>| kv_contains(#[trigger] named_pairs(segs, vals), k) implies
                has_named(segs, k) by {
                if k == n {
                } else {
                    assert(kv_get(r, k) == kv_get(t, k));
                    assert(has_named(tail, k));
                }
            }
            assert forall|i: int, w: int| 0 <= i < w < r.len() implies (#[trigger] r[i]).0 != (
            #[trigger] r[w]).0 by {
                if i == 0 {
                    assert(r[w] == t[w - 1]);
                    if t[w - 1].0 == n {
                        crate::kv::lemma_kv_get_of_index(t, w - 1);
                        assert(kv_contains(t, n));
                        assert(has_named(tail, n));
                    }
                } else {
                    assert(r[i] == t[i - 1] && r[w] == t[w - 1]);
                }
            }
        },
        _ => {
            lemma_named_pairs_unique(tail, vals);
            let t = named_pairs(tail, vals);
            assert(named_pairs(segs, vals) == t);
            assert forall|k: Seq<char>| kv_contains(#[trigger] named_pairs(segs, vals), k) implies
                has_named(segs, k) by {
                assert(has_named(tail, k));
            }
        },
    }
}

/// Substituting any non-empty word-character value for each named segment
/// and the empty string for the wildcard yields a path that the pattern
/// matches, and the match captures exactly the substituted values under
/// their names. (A named segment matches one or more word characters, so
/// the values must be non-empty.)
pub proof fn lemma_substitution_matches(segs: Seq<SegmentView>, vals: Seq<Seq<char>>)
    requires
        wildcard_only_last(segs),
        literals_word(segs),
        vals.len() == named_count(segs),
        forall|i: int|
            0 <= i < vals.len() ==> (#[trigger] vals[i]).len() >= 1 && all_word_chars(vals[i]),
    ensures
        pattern_matches(segs, subst_path(segs, vals)),
        pattern_captures(segs, subst_path(segs, vals)) == named_pairs(segs, vals),
    decreases segs.len(),
{
    if segs.len() == 0 {
        return ;
    }
    let path = subst_path(segs, vals);
    let head = match segs[0] {
        SegmentView::Literal(t) => t,
        SegmentView::Named(_) => vals[0],
        SegmentView::Wildcard => Seq::<char>::empty(),
    };
    let tail_vals: Seq<Seq<char>> = if segs[0] is Named {
        vals.drop_first()
    } else {
        vals
    };
    let tail = subst_path(segs.drop_first(), tail_vals);
    assert(path == seq!['/'] + head + tail);
    assert(path[0] == '/');
    let rest = path.skip(1);
    assert(rest =~= head + tail);
    if segs[0] is Wildcard {
        // the wildcard stands last, so this is the only segment
        assert(segs.len() == 1) by {
            if segs.len() > 1 {
                assert(segs[0] is Wildcard && 0 < segs.len() - 1);
            }
        }
        assert(pattern_matches(segs, path));
        assert(named_pairs(segs, vals) == named_pairs(segs.drop_first(), vals));
        assert(named_pairs(segs.drop_first(), vals) =~= Seq::<(Seq<char>, Seq<char>)>::empty());
        assert(pattern_captures(segs, path) =~= named_pairs(segs, vals));
        return ;
    }
    // the head part holds no separator
    assert(head.len() >= 0);
    assert(forall|j: int| 0 <= j < head.len() ==> #[trigger] head[j] != '/') by {
        match segs[0] {
            SegmentView::Literal(t) => {
                assert(segs[0] is Literal);
                assert(all_word_chars(t));
                assert(forall|j: int|
                    0 <= j < t.len() ==> is_word_char(#[trigger] t[j]) && t[j] != '/');
            },
            SegmentView::Named(_) => {
                assert(all_word_chars(vals[0]));
                assert(forall|j: int|
                    0 <= j < vals[0].len() ==> is_word_char(#[trigger] vals[0][j]) && vals[0][j]
                        != '/');
            },
            SegmentView::Wildcard => {},
        }
    }
    assert(seg_matches(segs[0], head));
    // the induction hypothesis applies to the remaining segments
    assert(wildcard_only_last(segs.drop_first())) by {
        assert(forall|i: int|
            0 <= i < segs.drop_first().len() - 1 ==> segs.drop_first()[i] == segs[i + 1]
                && !((#[trigger] segs.drop_first()[i]) is Wildcard));
    }
    assert(literals_word(segs.drop_first())) by {
        assert(forall|i: int|
            0 <= i < segs.drop_first().len() ==> #[trigger] segs.drop_first()[i] == segs[i + 1]);
    }
    assert(tail_vals.len() == named_count(segs.drop_first()));
    assert(forall|i: int|
        0 <= i < tail_vals.len() ==> (#[trigger] tail_vals[i]).len() >= 1 && all_word_chars(
            tail_vals[i],
        )) by {
        if segs[0] is Named {
            assert(forall|i: int|
                0 <= i < tail_vals.len() ==> #[trigger] tail_vals[i] == vals[i + 1]);
        }
    }
    lemma_substitution_matches(segs.drop_first(), tail_vals);
    if segs.len() == 1 {
        // the whole remainder of the path is the head part
        assert(segs.drop_first().len() == 0);
        assert(tail =~= Seq::<char>::empty());
        assert(rest =~= head);
        crate::strutil::lemma_spec_find_none(rest, '/');
        assert(pattern_matches(segs, path));
        match segs[0] {
            SegmentView::Named(n) => {
                assert(pattern_captures(segs, path) =~= named_pairs(segs, vals));
            },
            _ => {
                assert(pattern_captures(segs, path) =~= named_pairs(segs, vals));
            },
        }
    } else {
        // the separator of the next segment ends the head part
        assert(segs.drop_first().len() > 0);
        assert(tail == seq!['/'] + (match segs.drop_first()[0] {
            SegmentView::Literal(t) => t,
            SegmentView::Named(_) => tail_vals[0],
            SegmentView::Wildcard => Seq::<char>::empty(),
        }) + subst_path(segs.drop_first().drop_first(), (if segs.drop_first()[0] is Named {
            tail_vals.drop_first()
        } else {
            tail_vals
        })));
        assert(tail.len() >= 1 && tail[0] == '/');
        assert(rest[head.len() as int] == '/') by {
            assert(rest[head.len() as int] == tail[0]);
        }
        assert forall|j: int| 0 <= j < head.len() implies rest[j] != '/' by {
            assert(rest[j] == head[j]);
        }
        crate::strutil::lemma_spec_find_at(rest, '/', head.len() as int);
        assert(rest.take(head.len() as int) =~= head);
        assert(rest.skip(head.len() as int) =~= tail);
        assert(pattern_matches(segs, path));
        assert(pattern_captures(segs, path) =~= named_pairs(segs, vals));
    }
}

/// Failure to compile a route template.
#[derive(Clone, Copy, PartialEq, Eq, Structural, Debug)]
pub enum PatternError {
    InvalidPattern,
}

/// A compiled route template.
pub struct RoutePattern {
    segments: Vec<Segment>,
}

impl View for RoutePattern {
    type V = Seq<SegmentView>;

    closed spec fn view(&self) -> Seq<SegmentView> {
        seg_views(self.segments@)
    }
}

/// The named captures of one successful match, retrievable by name.
pub struct CaptureMap {
    entries: Vec<(String, String)>,
}

impl View for CaptureMap {
    type V = Seq<(Seq<char>, Seq<char>)>;

    closed spec fn view(&self) -> Seq<(Seq<char>, Seq<char>)> {
        kv_views(self.entries@)
    }
}

impl CaptureMap {
    /// An empty capture map.
    pub fn new() -> (r: CaptureMap)
        ensures
            r@ == Seq::<(Seq<char>, Seq<char>)>::empty(),
    {
        CaptureMap { entries: Vec::new() }
    }

    /// The captured value under `name`, if any.
    pub fn get(&self, name: &str) -> (r: Option<String>)
        ensures
            crate::strutil::opt_view(r) == kv_get(self@, name@),
    {
        crate::kv::kv_lookup(&self.entries, name)
    }

    /// The number of captures.
    pub fn len(&self) -> (r: usize)
        ensures
            r == self@.len(),
    {
        self.entries.len()
    }
}

fn all_word_chars_exec(s: &str) -> (r: bool)
    ensures
        r == all_word_chars(s@),
{
    let n = s.unicode_len();
    let mut i: usize = 0;
    while i < n
        invariant
            0 <= i <= n,
            n == s@.len(),
            forall|j: int| 0 <= j < i ==> is_word_char(#[trigger] s@[j]),
        decreases n - i,
    {
        let c = s.get_char(i);
        let ok = ('a' <= c && c <= 'z') || ('A' <= c && c <= 'Z') || ('0' <= c && c <= '9') || c
            == '_';
        if !ok {
            return false;
        }
        i = i + 1;
    }
    true
}

/// Compiles one template token into a segment.
fn classify_exec(tok: &str) -> (r: Option<Segment>)
    ensures
        match r {
            Some(seg) => classify_segment(tok@) == Some(seg@),
            None => classify_segment(tok@) is None,
        },
{
    let n = tok.unicode_len();
    if n == 0 {
        let empty = String::new();
        proof {
            assert(empty@ =~= tok@);
        }
        return Some(Segment::Literal(empty));
    }
    if str_eq(tok, "**") {
        proof {
            reveal_strlit("**");
            assert("**"@ =~= seq!['*', '*']);
        }
        return Some(Segment::Wildcard);
    }
    proof {
        reveal_strlit("**");
        assert("**"@ =~= seq!['*', '*']);
        assert(tok@ != seq!['*', '*']);
    }
    if tok.get_char(0) == '{' {
        if n >= 3 && tok.get_char(n - 1) == '}' {
            let mid = tok.substring_char(1, n - 1);
            if all_word_chars_exec(mid) {
                return Some(Segment::Named(mid.to_owned()));
            }
        }
        return None;
    }
    if all_word_chars_exec(tok) {
        return Some(Segment::Literal(tok.to_owned()));
    }
    None
}

impl RoutePattern {
    /// A compiled pattern's shape: the wildcard last, capture names
    /// distinct, literals made of word characters. Every compiled pattern
    /// satisfies it.
    pub open spec fn wf(&self) -> bool {
        wildcard_only_last(self@) && distinct_names(self@) && literals_word(self@)
    }

    /// Compiles `template`, failing on any malformed segment, a wildcard
    /// in a non-final position, a repeated capture name, or a missing
    /// leading `/`.
    pub fn compile(template: &str) -> (r: Result<RoutePattern, PatternError>)
        ensures
            r is Ok <==> valid_template(template@),
            match r {
                Ok(p) => p@ == template_segments(template@) && p.wf(),
                Err(e) => e == PatternError::InvalidPattern,
            },
    {
        let n = template.unicode_len();
        if n == 0 || template.get_char(0) != '/' {
            return Err(PatternError::InvalidPattern);
        }
        let rest = template.substring_char(1, n);
        proof {
            assert(rest@ =~= template@.skip(1));
        }
        let toks = split_str(rest, '/');
        let tn = toks.len();
        let ghost toks_v = template_tokens(template@);
        proof {
            assert(crate::strutil::views_of(toks@) == toks_v);
        }
        let mut segments: Vec<Segment> = Vec::new();
        let mut i: usize = 0;
        while i < tn
            invariant
                0 <= i <= tn,
                tn == toks@.len(),
                toks_v == crate::strutil::views_of(toks@),
                toks_v == template_tokens(template@),
                segments@.len() == i,
                forall|j: int| 0 <= j < i ==> classify_segment(#[trigger] toks_v[j]) is Some,
                forall|j: int|
                    0 <= j < i ==> classify_segment(toks_v[j]) == Some(
                        (#[trigger] segments@[j])@,
                    ),
                forall|j: int|
                    0 <= j < i && j < tn - 1 ==> !((#[trigger] segments@[j])@ is Wildcard),
            decreases tn - i,
        {
            proof {
                assert(crate::strutil::views_of(toks@)[i as int] == toks@[i as int]@);
            }
            match classify_exec(toks[i].as_str()) {
                Some(seg) => {
                    let is_wild = match &seg {
                        Segment::Wildcard => true,
                        _ => false,
                    };
                    if is_wild && i != tn - 1 {
                        proof {
                            assert(template_segments(template@)[i as int] == classify_segment(
                                template_tokens(template@)[i as int],
                            ).unwrap());
                            assert(template_segments(template@)[i as int] is Wildcard);
                            assert(!wildcard_only_last(template_segments(template@)));
                        }
                        return Err(PatternError::InvalidPattern);
                    }
                    segments.push(seg);
                },
                None => {
                    proof {
                        assert(classify_segment(template_tokens(template@)[i as int]) is None);
                    }
                    return Err(PatternError::InvalidPattern);
                },
            }
            i = i + 1;
        }
        proof {
            assert(seg_views(segments@) =~= template_segments(template@)) by {
                assert forall|j: int| 0 <= j < tn implies seg_views(segments@)[j]
                    == template_segments(template@)[j] by {
                    lemma_seg_views_index(segments@, j);
                }
            }
        }
        // every token compiled and the wildcard is last; now reject
        // repeated capture names
        let mut i: usize = 0;
        while i < tn
            invariant
                0 <= i <= tn,
                tn == segments@.len(),
                seg_views(segments@) == template_segments(template@),
                valid_template(template@) <==> distinct_names(seg_views(segments@)),
                forall|a: int, b: int|
                    0 <= a < i && a < b < tn && (#[trigger] seg_views(segments@)[a]) is Named && (
                    #[trigger] seg_views(segments@)[b]) is Named ==> named_id(
                        seg_views(segments@)[a],
                    ) != named_id(seg_views(segments@)[b]),
            decreases tn - i,
        {
            let mut j: usize = i + 1;
            while j < tn
                invariant
                    0 <= i < j <= tn,
                    tn == segments@.len(),
                    seg_views(segments@) == template_segments(template@),
                    valid_template(template@) <==> distinct_names(seg_views(segments@)),
                    forall|b: int|
                        i < b < j && (#[trigger] seg_views(segments@)[i as int]) is Named && (
                        #[trigger] seg_views(segments@)[b]) is Named ==> named_id(
                            seg_views(segments@)[i as int],
                        ) != named_id(seg_views(segments@)[b]),
                decreases tn - j,
            {
                proof {
                    lemma_seg_views_index(segments@, i as int);
                    lemma_seg_views_index(segments@, j as int);
                }
                let dup = match (&segments[i], &segments[j]) {
                    (Segment::Named(a), Segment::Named(b)) => str_eq(a.as_str(), b.as_str()),
                    _ => false,
                };
                if dup {
                    return Err(PatternError::InvalidPattern);
                }
                j = j + 1;
            }
            i = i + 1;
        }
        proof {
            assert forall|j: int|
                0 <= j < seg_views(segments@).len() && (#[trigger] seg_views(
                    segments@,
                )[j]) is Literal implies all_word_chars(named_id(seg_views(segments@)[j])) by {
                assert(seg_views(segments@)[j] == classify_segment(
                    template_tokens(template@)[j],
                ).unwrap());
                let t = template_tokens(template@)[j];
                if t.len() == 0 {
                    assert(all_word_chars(t));
                }
            }
        }
        Ok(RoutePattern { segments })
    }

    /// Matches `path` against the pattern, returning the named captures on
    /// success.
    pub fn matches(&self, path: &str) -> (r: Option<CaptureMap>)
        ensures
            r is Some <==> pattern_matches(self@, path@),
            match r {
                Some(c) => c@ == pattern_captures(self@, path@),
                None => true,
            },
    {
        let mut caps: Vec<(String, String)> = Vec::new();
        proof {
            assert(seg_views(self.segments@).skip(0) =~= self@);
            assert(path@.skip(0) =~= path@);
        }
        let ok = match_rec(&self.segments, 0, path, 0, &mut caps);
        if ok {
            proof {
                assert(kv_views(caps@) =~= Seq::<(Seq<char>, Seq<char>)>::empty() + kv_views(
                    caps@,
                ));
            }
            Some(CaptureMap { entries: caps })
        } else {
            None
        }
    }
}

/// Matches the segments from `si` on against the path from position `pos`
/// on, appending captures to `caps`.
fn match_rec(
    segments: &Vec<Segment>,
    si: usize,
    path: &str,
    pos: usize,
    caps: &mut Vec<(String, String)>,
) -> (r: bool)
    requires
        si <= segments@.len(),
        pos <= path@.len(),
    ensures
        r == pattern_matches(seg_views(segments@).skip(si as int), path@.skip(pos as int)),
        r ==> kv_views(final(caps)@) == kv_views(old(caps)@) + pattern_captures(
            seg_views(segments@).skip(si as int),
            path@.skip(pos as int),
        ),
    decreases segments@.len() - si,
{
    let ghost gsegs = seg_views(segments@).skip(si as int);
    let ghost gpath = path@.skip(pos as int);
    let n = segments.len();
    let plen = path.unicode_len();
    if si == n {
        proof {
            assert(gsegs.len() == 0);
            if pos == plen {
                assert(gpath.len() == 0);
                assert(kv_views(caps@) =~= kv_views(caps@) + pattern_captures(gsegs, gpath));
            } else {
                assert(gpath.len() > 0);
            }
        }
        return pos == plen;
    }
    proof {
        lemma_seg_views_index(segments@, si as int);
        assert(gsegs[0] == segments@[si as int]@);
        assert(gsegs.drop_first() =~= seg_views(segments@).skip(si + 1));
    }
    if pos == plen {
        return false;
    }
    if path.get_char(pos) != '/' {
        proof {
            assert(gpath[0] == path@[pos as int]);
        }
        return false;
    }
    proof {
        assert(gpath[0] == path@[pos as int]);
    }
    let is_wild = match &segments[si] {
        Segment::Wildcard => true,
        _ => false,
    };
    if is_wild {
        proof {
            if si + 1 == n {
                assert(pattern_matches(gsegs, gpath));
                assert(pattern_captures(gsegs, gpath) =~= Seq::<(Seq<char>, Seq<char>)>::empty());
                assert(kv_views(caps@) =~= kv_views(caps@) + pattern_captures(gsegs, gpath));
            }
        }
        return si + 1 == n;
    }
    // find the end of this path part
    let end = match find_from(path, pos + 1, '/') {
        Some(j) => j,
        None => plen,
    };
    let ghost rest = gpath.skip(1);
    proof {
        assert(rest =~= path@.skip(pos + 1));
        assert forall|j: int| 0 <= j < end - (pos + 1) implies rest[j] != '/' by {
            assert(rest[j] == path@[pos + 1 + j]);
        }
        if end < plen {
            assert(rest[end - (pos + 1)] == path@[end as int]);
            crate::strutil::lemma_spec_find_at(rest, '/', end - (pos + 1));
        } else {
            crate::strutil::lemma_spec_find_none(rest, '/');
        }
        assert(rest.take(end - (pos + 1)) =~= path@.subrange(pos + 1, end as int));
        assert(rest.skip(end - (pos + 1)) =~= path@.skip(end as int));
    }
    let part = path.substring_char(pos + 1, end);
    let seg_ok: bool = match &segments[si] {
        Segment::Literal(t) => str_eq(part, t.as_str()),
        Segment::Named(_) => {
            let w = all_word_chars_exec(part);
            w && part.unicode_len() >= 1
        },
        Segment::Wildcard => false,
    };
    if !seg_ok {
        proof {
            if end < plen {
                assert(!seg_matches(gsegs[0], rest.take(end - (pos + 1))));
            } else {
                assert(!seg_matches(gsegs[0], rest));
            }
        }
        return false;
    }
    match &segments[si] {
        Segment::Named(nm) => {
            let pair = (nm.clone(), part.to_owned());
            let ghost before = kv_views(caps@);
            caps.push(pair);
            proof {
                assert(kv_views(caps@) =~= before.push((nm@, part@)));
            }
        },
        _ => {},
    }
    let ghost mid = kv_views(caps@);
    let r = match_rec(segments, si + 1, path, end, caps);
    proof {
        let tailsegs = seg_views(segments@).skip(si + 1);
        let tailpath = path@.skip(end as int);
        if end < plen {
            assert(spec_find(rest, '/') == Some(end - (pos + 1)));
            assert(pattern_matches(gsegs, gpath) == (seg_matches(gsegs[0], rest.take(end - (pos
                + 1))) && pattern_matches(tailsegs, tailpath)));
            if r {
                let head = match gsegs[0] {
                    SegmentView::Named(nn) => seq![(nn, rest.take(end - (pos + 1)))],
                    _ => Seq::<(Seq<char>, Seq<char>)>::empty(),
                };
                assert(pattern_captures(gsegs, gpath) == head + pattern_captures(
                    tailsegs,
                    tailpath,
                ));
                assert(kv_views(final(caps)@) =~= kv_views(old(caps)@) + pattern_captures(
                    gsegs,
                    gpath,
                ));
            }
        } else {
            assert(spec_find(rest, '/') is None);
            // the remainder of the path is empty, so the remaining
            // segments match exactly when there are none
            assert(tailpath.len() == 0);
            assert(pattern_matches(tailsegs, tailpath) == (tailsegs.len() == 0));
            assert(pattern_matches(gsegs, gpath) == (gsegs.len() == 1 && seg_matches(
                gsegs[0],
                rest,
            )));
            if r {
                let head = match gsegs[0] {
                    SegmentView::Named(nn) => seq![(nn, rest)],
                    _ => Seq::<(Seq<char>, Seq<char>)>::empty(),
                };
                assert(pattern_captures(gsegs, gpath) == head);
                assert(pattern_captures(tailsegs, tailpath) =~= Seq::<
                    (Seq<char>, Seq<char>),
                >::empty());
                assert(kv_views(final(caps)@) =~= kv_views(old(caps)@) + pattern_captures(
                    gsegs,
                    gpath,
                ));
            }
        }
    }
    r
}

} // verus!
