//! Parses the user-facing logit-bias specification string
//! ("<tokenID>:<bias>[,<tokenID>:<bias>...]") into token/bias pairs. The
//! bias number itself is read by a parser the caller supplies.

use vstd::prelude::*;
use vstd::utf8::encode_utf8;
use crate::text::{parse_i64, spec_parse_i64};

verus! {

/// One parsed token-bias pair.
#[derive(Debug, Clone, Copy, PartialEq)]
pub struct Entry<B> {
    pub token: i32,
    pub bias: B,
}

/// A malformed segment of a logit-bias specification (the segment, with
/// surrounding whitespace removed).
#[derive(Debug, Clone, PartialEq, Eq)]
pub enum LogitBiasError {
    /// The segment has no `:`.
    NotAPair(String),
    /// The token before the `:` is not an `i32`.
    BadToken(String),
    /// The bias after the `:` was refused by the bias parser.
    BadBias(String),
}

/// Mathematical form of a `LogitBiasError`.
pub enum LogitBiasErrorView {
    NotAPair(Seq<char>),
    BadToken(Seq<char>),
    BadBias(Seq<char>),
}

impl View for LogitBiasError {
    type V = LogitBiasErrorView;

    open spec fn view(&self) -> LogitBiasErrorView {
        match self {
            LogitBiasError::NotAPair(s) => LogitBiasErrorView::NotAPair(s@),
            LogitBiasError::BadToken(s) => LogitBiasErrorView::BadToken(s@),
            LogitBiasError::BadBias(s) => LogitBiasErrorView::BadBias(s@),
        }
    }
}

/// Unicode `White_Space`, the characters `char::is_whitespace` accepts.
pub open spec fn is_ws(c: char) -> bool {
    let u = c as u32;
    ||| 9 <= u <= 13
    ||| u == 32
    ||| u == 0x85
    ||| u == 0xA0
    ||| u == 0x1680
    ||| 0x2000 <= u <= 0x200A
    ||| u == 0x2028
    ||| u == 0x2029
    ||| u == 0x202F
    ||| u == 0x205F
    ||| u == 0x3000
}

/// Whether `c` is Unicode whitespace.
pub fn is_whitespace(c: char) -> (r: bool)
    ensures
        r == is_ws(c),
{
    let u = c as u32;
    (9 <= u && u <= 13) || u == 32 || u == 0x85 || u == 0xA0 || u == 0x1680 || (0x2000 <= u && u <= 0x200A)
        || u == 0x2028 || u == 0x2029 || u == 0x202F || u == 0x205F || u == 0x3000
}

/// `s` without its leading whitespace.
pub open spec fn trim_start(s: Seq<char>) -> Seq<char>
    decreases s.len(),
{
    if s.len() > 0 && is_ws(s[0]) {
        trim_start(s.drop_first())
    } else {
        s
    }
}

/// `s` without its trailing whitespace.
pub open spec fn trim_end(s: Seq<char>) -> Seq<char>
    decreases s.len(),
{
    if s.len() > 0 && is_ws(s.last()) {
        trim_end(s.drop_last())
    } else {
        s
    }
}

/// `s` without surrounding whitespace, as `str::trim` gives it.
pub open spec fn trim(s: Seq<char>) -> Seq<char> {
    trim_end(trim_start(s))
}

/// Position of the first `c` in `s`.
pub open spec fn char_index(s: Seq<char>, c: char) -> Option<int>
    decreases s.len(),
{
    if s.len() == 0 {
        None
    } else if s[0] == c {
        Some(0)
    } else {
        match char_index(s.drop_first(), c) {
            Some(i) => Some(i + 1),
            None => None,
        }
    }
}

/// `s` cut at every `sep`, as `str::split` gives it (always at least one
/// piece).
pub open spec fn split_on(s: Seq<char>, sep: char) -> Seq<Seq<char>>
    decreases s.len(),
{
    if s.len() == 0 {
        seq![Seq::empty()]
    } else {
        let r = split_on(s.drop_last(), sep);
        if s.last() == sep {
            r.push(Seq::empty())
        } else {
            r.update(r.len() - 1, r.last().push(s.last()))
        }
    }
}

/// The `i32` a token text denotes, as `str::parse::<i32>` reads it.
pub open spec fn token_of(t: Seq<char>) -> Option<i32> {
    match spec_parse_i64(encode_utf8(t)) {
        Some(v) => if i32::MIN <= v <= i32::MAX {
            Some(v as i32)
        } else {
            None
        },
        None => None,
    }
}

/// A trimmed, non-empty segment split at its first `:` into the trimmed
/// token and bias texts.
pub open spec fn pair_of(t: Seq<char>) -> Option<(Seq<char>, Seq<char>)> {
    match char_index(t, ':') {
        Some(c) => Some((trim(t.subrange(0, c)), trim(t.subrange(c + 1, t.len() as int)))),
        None => None,
    }
}

/// The bias parser is consulted for this segment (given that every segment
/// before it was well formed): it is a pair with a valid token.
pub open spec fn asks_bias(seg: Seq<char>) -> bool {
    let t = trim(seg);
    &&& t.len() > 0
    &&& pair_of(t) is Some
    &&& token_of(pair_of(t).unwrap().0) is Some
}

/// The text handed to the bias parser for a segment.
pub open spec fn bias_text(seg: Seq<char>) -> Seq<char> {
    pair_of(trim(seg)).unwrap().1
}

/// `es` with the entry for `tok` set to `b`: replaced in place when the
/// token is already there, appended otherwise.
pub open spec fn upsert<B>(es: Seq<(i32, B)>, tok: i32, b: B) -> Seq<(i32, B)> {
    if exists|i: int| 0 <= i < es.len() && es[i].0 == tok {
        let i = choose|i: int| 0 <= i < es.len() && es[i].0 == tok;
        es.update(i, (tok, b))
    } else {
        es.push((tok, b))
    }
}

/// The outcome of one segment on the entries so far, with `rb` what the
/// bias parser gave for it.
pub open spec fn segment_step<B>(
    es: Seq<(i32, B)>,
    seg: Seq<char>,
    rb: Option<B>,
) -> Result<Seq<(i32, B)>, LogitBiasErrorView> {
    let t = trim(seg);
    if t.len() == 0 {
        Ok(es)
    } else {
        match pair_of(t) {
            None => Err(LogitBiasErrorView::NotAPair(t)),
            Some((tok, _)) => match token_of(tok) {
                None => Err(LogitBiasErrorView::BadToken(t)),
                Some(k) => match rb {
                    None => Err(LogitBiasErrorView::BadBias(t)),
                    Some(b) => Ok(upsert(es, k, b)),
                },
            },
        }
    }
}

/// The outcome after the first `k` segments, with `res[i]` what the bias
/// parser gave for segment `i`: the first malformed segment is the error.
pub open spec fn parse_outcome<B>(
    segs: Seq<Seq<char>>,
    res: Seq<Option<B>>,
    k: nat,
) -> Result<Seq<(i32, B)>, LogitBiasErrorView>
    decreases k,
{
    if k == 0 {
        Ok(Seq::empty())
    } else {
        match parse_outcome(segs, res, (k - 1) as nat) {
            Err(e) => Err(e),
            Ok(es) => segment_step(es, segs[k - 1], res[k - 1]),
        }
    }
}

/// The entries as (token, bias) pairs.
pub open spec fn entries_view<B>(v: Seq<Entry<B>>) -> Seq<(i32, B)> {
    v.map_values(|e: Entry<B>| (e.token, e.bias))
}

/// `r` is the outcome `o` describes.
pub open spec fn outcome_is<B>(
    r: Result<Vec<Entry<B>>, LogitBiasError>,
    o: Result<Seq<(i32, B)>, LogitBiasErrorView>,
) -> bool {
    match o {
        Ok(es) => r matches Ok(v) && entries_view(v@) == es,
        Err(e) => r matches Err(x) && x@ == e,
    }
}

/// The characters of `s`.
fn chars_of(s: &str) -> (r: Vec<char>)
    ensures
        r@ == s@,
{
    let n = s.unicode_len();
    let mut out: Vec<char> = Vec::new();
    let mut i: usize = 0;
    while i < n
        invariant
            i <= n,
            n == s@.len(),
            out@ == s@.subrange(0, i as int),
        decreases n - i,
    {
        out.push(s.get_char(i));
        i = i + 1;
        assert(out@ =~= s@.subrange(0, i as int));
    }
    assert(s@.subrange(0, n as int) =~= s@);
    out
}

proof fn lemma_trim_start_step(c: Seq<char>, i: int, hi: int)
    requires
        0 <= i < hi <= c.len(),
        is_ws(c[i]),
    ensures
        trim_start(c.subrange(i, hi)) == trim_start(c.subrange(i + 1, hi)),
{
    assert(c.subrange(i, hi).drop_first() =~= c.subrange(i + 1, hi));
}

proof fn lemma_trim_end_step(c: Seq<char>, lo: int, j: int)
    requires
        0 <= lo < j <= c.len(),
        is_ws(c[j - 1]),
    ensures
        trim_end(c.subrange(lo, j)) == trim_end(c.subrange(lo, j - 1)),
{
    assert(c.subrange(lo, j).drop_last() =~= c.subrange(lo, j - 1));
}

/// The part of `c[lo..hi]` left after trimming surrounding whitespace.
fn trim_range(c: &Vec<char>, lo: usize, hi: usize) -> (r: (usize, usize))
    requires
        lo <= hi <= c@.len(),
    ensures
        lo <= r.0 <= r.1 <= hi,
        c@.subrange(r.0 as int, r.1 as int) == trim(c@.subrange(lo as int, hi as int)),
{
    let mut i = lo;
    while i < hi && is_whitespace(c[i])
        invariant
            lo <= i <= hi <= c@.len(),
            trim_start(c@.subrange(lo as int, hi as int)) == trim_start(c@.subrange(i as int, hi as int)),
        decreases hi - i,
    {
        proof {
            lemma_trim_start_step(c@, i as int, hi as int);
        }
        i = i + 1;
    }
    assert(trim_start(c@.subrange(i as int, hi as int)) == c@.subrange(i as int, hi as int));
    let mut j = hi;
    while j > i && is_whitespace(c[j - 1])
        invariant
            lo <= i <= j <= hi <= c@.len(),
            trim_end(c@.subrange(i as int, hi as int)) == trim_end(c@.subrange(i as int, j as int)),
        decreases j - i,
    {
        proof {
            lemma_trim_end_step(c@, i as int, j as int);
        }
        j = j - 1;
    }
    assert(trim_end(c@.subrange(i as int, j as int)) == c@.subrange(i as int, j as int));
    (i, j)
}

proof fn lemma_char_index_at(s: Seq<char>, x: char, i: int)
    requires
        0 <= i <= s.len(),
        forall|k: int| 0 <= k < i ==> s[k] != x,
        i < s.len() ==> s[i] == x,
    ensures
        char_index(s, x) == if i < s.len() { Some(i) } else { None::<int> },
    decreases i,
{
    if i > 0 && s.len() > 0 {
        assert forall|k: int| 0 <= k < i - 1 implies s.drop_first()[k] != x by {
            assert(s.drop_first()[k] == s[k + 1]);
        }
        lemma_char_index_at(s.drop_first(), x, i - 1);
    }
}

/// Position (absolute) of the first `x` in `c[lo..hi]`.
fn find_char(c: &Vec<char>, lo: usize, hi: usize, x: char) -> (r: Option<usize>)
    requires
        lo <= hi <= c@.len(),
    ensures
        match char_index(c@.subrange(lo as int, hi as int), x) {
            Some(d) => r == Some((lo + d) as usize) && 0 <= d < hi - lo,
            None => r is None,
        },
{
    let ghost s = c@.subrange(lo as int, hi as int);
    let mut i = lo;
    while i < hi
        invariant
            lo <= i <= hi <= c@.len(),
            s == c@.subrange(lo as int, hi as int),
            forall|k: int| 0 <= k < i - lo ==> s[k] != x,
        decreases hi - i,
    {
        if c[i] == x {
            proof {
                lemma_char_index_at(s, x, i - lo);
            }
            return Some(i);
        }
        i = i + 1;
    }
    proof {
        lemma_char_index_at(s, x, i - lo);
    }
    None
}

/// The texts of the given ranges of `c`.
pub open spec fn range_texts(c: Seq<char>, rs: Seq<(usize, usize)>) -> Seq<Seq<char>> {
    rs.map_values(|r: (usize, usize)| c.subrange(r.0 as int, r.1 as int))
}

/// The ranges of the comma-separated segments of `c`.
fn split_commas(c: &Vec<char>) -> (r: Vec<(usize, usize)>)
    ensures
        range_texts(c@, r@) == split_on(c@, ','),
        forall|k: int| 0 <= k < r@.len() ==> (#[trigger] r@[k]).0 <= r@[k].1 <= c@.len(),
{
    let mut out: Vec<(usize, usize)> = Vec::new();
    let mut start: usize = 0;
    let mut i: usize = 0;
    assert(c@.subrange(0, 0) =~= Seq::<char>::empty());
    assert(range_texts(c@, out@).push(c@.subrange(0, 0)) =~= split_on(c@.subrange(0, 0), ','));
    while i < c.len()
        invariant
            start <= i <= c@.len(),
            forall|k: int| 0 <= k < out@.len() ==> (#[trigger] out@[k]).0 <= out@[k].1 <= c@.len(),
            split_on(c@.subrange(0, i as int), ',') == range_texts(c@, out@).push(
                c@.subrange(start as int, i as int),
            ),
        decreases c@.len() - i,
    {
        let ghost before = range_texts(c@, out@);
        assert(c@.subrange(0, i + 1).drop_last() =~= c@.subrange(0, i as int));
        if c[i] == ',' {
            out.push((start, i));
            start = i + 1;
            assert(range_texts(c@, out@) =~= before.push(c@.subrange(out@.last().0 as int, i as int)));
            assert(c@.subrange(start as int, i + 1) =~= Seq::<char>::empty());
        } else {
            assert(c@.subrange(start as int, i + 1) =~= c@.subrange(start as int, i as int).push(c@[i as int]));
            assert(before.push(c@.subrange(start as int, i as int)).update(
                before.len() as int,
                c@.subrange(start as int, i + 1),
            ) =~= before.push(c@.subrange(start as int, i + 1)));
        }
        i = i + 1;
    }
    out.push((start, i));
    assert(c@.subrange(0, c@.len() as int) =~= c@);
    assert(range_texts(c@, out@) =~= split_on(c@, ','));
    out
}

/// If segment `j` is reached (every segment before it is well formed) and
/// consults the bias parser, the parser gave `res[j]` for its bias text.
pub open spec fn consulted<B, F: Fn(&str) -> Option<B>>(f: F, segs: Seq<Seq<char>>, res: Seq<Option<B>>, j: int) -> bool {
    parse_outcome(segs, res, j as nat) is Ok && asks_bias(segs[j]) ==> exists|x: &str|
        x@ == bias_text(segs[j]) && #[trigger] f.ensures((x,), res[j])
}

/// The bias parser gave `res[j]` for every segment `j` it is consulted for
/// before the outcome is settled.
pub open spec fn bias_calls<B, F: Fn(&str) -> Option<B>>(f: F, segs: Seq<Seq<char>>, res: Seq<Option<B>>) -> bool {
    &&& res.len() == segs.len()
    &&& forall|j: int| 0 <= j < segs.len() ==> #[trigger] consulted(f, segs, res, j)
}

/// The outcome after `k` segments depends on what the parser gave for those
/// segments only.
proof fn lemma_outcome_prefix<B>(segs: Seq<Seq<char>>, r1: Seq<Option<B>>, r2: Seq<Option<B>>, k: nat)
    requires
        k <= r1.len(),
        k <= r2.len(),
        forall|j: int| 0 <= j < k ==> r1[j] == r2[j],
    ensures
        parse_outcome(segs, r1, k) == parse_outcome(segs, r2, k),
    decreases k,
{
    if k > 0 {
        lemma_outcome_prefix(segs, r1, r2, (k - 1) as nat);
    }
}

/// Once a segment is malformed, later segments change nothing.
proof fn lemma_outcome_err_persists<B>(segs: Seq<Seq<char>>, res: Seq<Option<B>>, k: nat, m: nat)
    requires
        k <= m,
        parse_outcome(segs, res, k) is Err,
    ensures
        parse_outcome(segs, res, m) == parse_outcome(segs, res, k),
    decreases m - k,
{
    if k < m {
        lemma_outcome_err_persists(segs, res, k, (m - 1) as nat);
    }
}

/// Tokens occur at most once among the entries.
pub open spec fn tokens_unique<B>(es: Seq<(i32, B)>) -> bool {
    forall|i: int, j: int| 0 <= i < j < es.len() ==> (#[trigger] es[i]).0 != (#[trigger] es[j]).0
}

/// Sets the entry for `tok` to `b`: in place when the token is already
/// there, else appended.
fn upsert_entry<B: Copy>(entries: &mut Vec<Entry<B>>, tok: i32, b: B)
    requires
        tokens_unique(entries_view(old(entries)@)),
    ensures
        entries_view(final(entries)@) == upsert(entries_view(old(entries)@), tok, b),
        tokens_unique(entries_view(final(entries)@)),
{
    let ghost es = entries_view(entries@);
    let mut p: usize = 0;
    while p < entries.len() && entries[p].token != tok
        invariant
            p <= entries@.len(),
            es == entries_view(entries@),
            forall|q: int| 0 <= q < p ==> es[q].0 != tok,
        decreases entries@.len() - p,
    {
        p = p + 1;
    }
    if p < entries.len() {
        entries.set(p, Entry { token: tok, bias: b });
        proof {
            assert(es[p as int].0 == tok);
            let i = choose|i: int| 0 <= i < es.len() && es[i].0 == tok;
            assert(i == p);
            assert(entries_view(entries@) =~= es.update(p as int, (tok, b)));
        }
    } else {
        entries.push(Entry { token: tok, bias: b });
        proof {
            assert(!(exists|i: int| 0 <= i < es.len() && es[i].0 == tok));
            assert(entries_view(entries@) =~= es.push((tok, b)));
        }
    }
}

/// What one segment contributes.
pub enum SegmentResult<B> {
    /// The segment is empty after trimming.
    Skip,
    /// The segment is a pair: its token and the bias parsed from it.
    Pair(i32, B),
    /// The segment is malformed.
    Fail(LogitBiasError),
}

/// The effect of a segment's result on the entries so far.
pub open spec fn segment_effect<B>(r: SegmentResult<B>, es: Seq<(i32, B)>) -> Result<Seq<(i32, B)>, LogitBiasErrorView> {
    match r {
        SegmentResult::Skip => Ok(es),
        SegmentResult::Pair(k, b) => Ok(upsert(es, k, b)),
        SegmentResult::Fail(e) => Err(e@),
    }
}

/// Reads the segment `c[lo..hi]` of `s` (whose characters are `c`): skipped
/// when blank, else split at its first `:` into a token and a bias, the
/// bias read with `parse_bias`. Also gives, as ghost, what the bias parser
/// returned (`None` when it was not consulted).
fn read_segment<B: Copy, F: Fn(&str) -> Option<B>>(
    s: &str,
    c: &Vec<char>,
    lo: usize,
    hi: usize,
    parse_bias: &F,
) -> (r: (SegmentResult<B>, Ghost<Option<B>>))
    requires
        c@ == s@,
        lo <= hi <= c@.len(),
        forall|x: &str| #[trigger] parse_bias.requires((x,)),
    ensures
        ({
            let seg = c@.subrange(lo as int, hi as int);
            &&& forall|es: Seq<(i32, B)>| #[trigger] segment_step(es, seg, r.1@) == segment_effect(r.0, es)
            &&& asks_bias(seg) ==> exists|x: &str| x@ == bias_text(seg) && #[trigger] parse_bias.ensures((x,), r.1@)
        }),
{
    let ghost seg = c@.subrange(lo as int, hi as int);
    let (a, b) = trim_range(c, lo, hi);
    let ghost t = trim(seg);
    assert(t == c@.subrange(a as int, b as int));
    if a == b {
        return (SegmentResult::Skip, Ghost(None));
    }
    let p = match find_char(c, a, b, ':') {
        Some(p) => p,
        None => {
            let text = s.substring_char(a, b).to_owned();
            return (SegmentResult::Fail(LogitBiasError::NotAPair(text)), Ghost(None));
        },
    };
    assert(t.subrange(0, p - a) =~= c@.subrange(a as int, p as int));
    assert(t.subrange(p - a + 1, t.len() as int) =~= c@.subrange(p + 1, b as int));
    let (ta, tb) = trim_range(c, a, p);
    let (ba, bb) = trim_range(c, p + 1, b);
    let tok_text = s.substring_char(ta, tb);
    let tok: i32 = match parse_i64(tok_text.as_bytes()) {
        Some(v) => {
            if v < -0x8000_0000 || v > 0x7fff_ffff {
                let text = s.substring_char(a, b).to_owned();
                return (SegmentResult::Fail(LogitBiasError::BadToken(text)), Ghost(None));
            }
            v as i32
        },
        None => {
            let text = s.substring_char(a, b).to_owned();
            return (SegmentResult::Fail(LogitBiasError::BadToken(text)), Ghost(None));
        },
    };
    let bias_str = s.substring_char(ba, bb);
    let rb = parse_bias(bias_str);
    assert(bias_text(seg) == bias_str@);
    match rb {
        None => {
            let text = s.substring_char(a, b).to_owned();
            (SegmentResult::Fail(LogitBiasError::BadBias(text)), Ghost(rb))
        },
        Some(bv) => (SegmentResult::Pair(tok, bv), Ghost(rb)),
    }
}

/// A malformed segment settles the outcome: padding what the parser gave
/// for the segments never read gives a record of every consultation.
proof fn lemma_settled<B, F: Fn(&str) -> Option<B>>(
    f: F,
    segs: Seq<Seq<char>>,
    res: Seq<Option<B>>,
    k: nat,
) -> (full: Seq<Option<B>>)
    requires
        k <= segs.len(),
        res.len() == k,
        k == segs.len() || parse_outcome(segs, res, k) is Err,
        forall|j: int| 0 <= j < k ==> #[trigger] consulted(f, segs, res, j),
    ensures
        bias_calls(f, segs, full),
        parse_outcome(segs, full, segs.len()) == parse_outcome(segs, res, k),
{
    let full = res + Seq::new((segs.len() - k) as nat, |i: int| None::<B>);
    assert forall|j: int| 0 <= j < segs.len() implies #[trigger] consulted(f, segs, full, j) by {
        if j < k {
            lemma_outcome_prefix(segs, full, res, j as nat);
            assert(full[j] == res[j]);
            assert(consulted(f, segs, res, j));
        } else {
            lemma_outcome_prefix(segs, full, res, k);
            lemma_outcome_err_persists(segs, full, k, j as nat);
        }
    }
    lemma_outcome_prefix(segs, full, res, k);
    if k < segs.len() {
        lemma_outcome_err_persists(segs, full, k, segs.len());
    }
    full
}

/// Converts "id:bias,id:bias" into entries, reading each bias with
/// `parse_bias`. Whitespace around ids and biases is tolerated and empty
/// segments (e.g. a trailing comma) are skipped, so empty or
/// whitespace-only input yields no entries. The first malformed segment is
/// the error. When the same token appears more than once the later value
/// wins, at the position where the token first appeared.
pub fn parse<B: Copy, F: Fn(&str) -> Option<B>>(s: &str, parse_bias: F) -> (r: Result<Vec<Entry<B>>, LogitBiasError>)
    requires
        forall|x: &str| #[trigger] parse_bias.requires((x,)),
    ensures
        exists|res: Seq<Option<B>>|
            bias_calls(parse_bias, split_on(s@, ','), res) && outcome_is(
                r,
                parse_outcome(split_on(s@, ','), res, split_on(s@, ',').len()),
            ),
{
    let c = chars_of(s);
    let segs = split_commas(&c);
    let ghost segs_v = split_on(s@, ',');
    let mut entries: Vec<Entry<B>> = Vec::new();
    let ghost mut res: Seq<Option<B>> = Seq::empty();
    assert(entries_view(entries@) =~= Seq::<(i32, B)>::empty());
    let mut k: usize = 0;
    while k < segs.len()
        invariant
            c@ == s@,
            segs_v == split_on(s@, ','),
            range_texts(c@, segs@) == segs_v,
            forall|q: int| 0 <= q < segs@.len() ==> (#[trigger] segs@[q]).0 <= segs@[q].1 <= c@.len(),
            k <= segs@.len(),
            res.len() == k,
            parse_outcome(segs_v, res, k as nat) == Ok::<Seq<(i32, B)>, LogitBiasErrorView>(entries_view(entries@)),
            tokens_unique(entries_view(entries@)),
            forall|j: int| 0 <= j < k ==> #[trigger] consulted(parse_bias, segs_v, res, j),
            forall|x: &str| #[trigger] parse_bias.requires((x,)),
        decreases segs@.len() - k,
    {
        let (lo, hi) = segs[k];
        assert(segs_v[k as int] == c@.subrange(lo as int, hi as int));
        let ghost prev = res;
        let (step, Ghost(rb)) = read_segment(s, &c, lo, hi, &parse_bias);
        proof {
            res = res.push(rb);
            lemma_outcome_prefix(segs_v, prev, res, k as nat);
            assert(parse_outcome(segs_v, res, (k + 1) as nat) == segment_effect(step, entries_view(entries@)));
            assert(res[k as int] == rb);
            assert forall|j: int| 0 <= j < k + 1 implies #[trigger] consulted(parse_bias, segs_v, res, j) by {
                if j < k {
                    lemma_outcome_prefix(segs_v, prev, res, j as nat);
                    assert(res[j] == prev[j]);
                    assert(consulted(parse_bias, segs_v, prev, j));
                }
            }
        }
        match step {
            SegmentResult::Skip => {},
            SegmentResult::Pair(tok, bv) => {
                upsert_entry(&mut entries, tok, bv);
            },
            SegmentResult::Fail(e) => {
                proof {
                    let full = lemma_settled(parse_bias, segs_v, res, (k + 1) as nat);
                }
                return Err(e);
            },
        }
        k = k + 1;
    }
    proof {
        let full = lemma_settled(parse_bias, segs_v, res, k as nat);
    }
    Ok(entries)
}

/// Setting a token's entry keeps tokens unique.
proof fn lemma_upsert_unique<B>(es: Seq<(i32, B)>, tok: i32, b: B)
    requires
        tokens_unique(es),
    ensures
        tokens_unique(upsert(es, tok, b)),
{
    if exists|i: int| 0 <= i < es.len() && es[i].0 == tok {
        let i = choose|i: int| 0 <= i < es.len() && es[i].0 == tok;
        let r = es.update(i, (tok, b));
        assert forall|p: int, q: int| 0 <= p < q < r.len() implies (#[trigger] r[p]).0 != (#[trigger] r[q]).0 by {
            assert(es[p].0 != es[q].0);
        }
    } else {
        let r = es.push((tok, b));
        assert forall|p: int, q: int| 0 <= p < q < r.len() implies (#[trigger] r[p]).0 != (#[trigger] r[q]).0 by {
            if q < es.len() {
                assert(es[p].0 != es[q].0);
            }
        }
    }
}

/// Law: a parsed specification lists each token at most once (a repeated
/// token keeps one entry, with the later bias).
pub proof fn lemma_parse_tokens_unique<B>(segs: Seq<Seq<char>>, res: Seq<Option<B>>, k: nat)
    ensures
        parse_outcome(segs, res, k) matches Ok(es) ==> tokens_unique(es),
    decreases k,
{
    if k > 0 {
        lemma_parse_tokens_unique(segs, res, (k - 1) as nat);
        if let Ok(es) = parse_outcome(segs, res, (k - 1) as nat) {
            let t = trim(segs[k - 1]);
            if t.len() > 0 && pair_of(t) is Some && token_of(pair_of(t).unwrap().0) is Some && res[k - 1] is Some {
                lemma_upsert_unique(es, token_of(pair_of(t).unwrap().0).unwrap(), res[k - 1].unwrap());
            }
        }
    }
}

} // verus!
