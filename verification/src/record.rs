//! The record model: a game record, its derived detail fields, and the
//! best-effort parsers that construct a record from one raw entry.

use vstd::prelude::*;

use crate::stem::create_stem;
use crate::stem::stem_spec;
use crate::text::contains_exec;
use crate::text::contains_seq;
use crate::text::lower_all;
use crate::text::lower_char_exec;
use crate::text::to_chars;

verus! {

/// Classification of a critic or user score label.
#[derive(Clone, Copy, Debug, PartialEq, Eq, Structural)]
pub enum ScoreDetail {
    Positive,
    Mixed,
    Negative,
    Unknown,
}

/// One raw entry handed in by the page-extraction boundary. All text
/// fields arrive as extracted (already trimmed of surrounding space).
/// The user score is pre-decoded to its IEEE-754 bit pattern outside the
/// core, since the verified core does not compute on floating point.
#[derive(Clone, Debug)]
pub struct RawEntry {
    pub name: String,
    pub href: String,
    pub score_text: String,
    pub score_label: String,
    pub user_score_bits: Option<u64>,
    pub user_score_label: String,
}

/// Mathematical model of a raw entry.
#[verifier::ext_equal]
pub ghost struct RawEntryView {
    pub name: Seq<char>,
    pub href: Seq<char>,
    pub score_text: Seq<char>,
    pub score_label: Seq<char>,
    pub user_score_bits: Option<u64>,
    pub user_score_label: Seq<char>,
}

impl View for RawEntry {
    type V = RawEntryView;

    open spec fn view(&self) -> RawEntryView {
        RawEntryView {
            name: self.name@,
            href: self.href@,
            score_text: self.score_text@,
            score_label: self.score_label@,
            user_score_bits: self.user_score_bits,
            user_score_label: self.user_score_label@,
        }
    }
}

/// A game record, immutable once constructed. `stem` is the canonical
/// normalized form of `name` and is the storage and lookup key. The user
/// score is held as the bit pattern of its floating-point value.
#[derive(Clone, Debug)]
pub struct MetacriticGame {
    pub name: String,
    pub href: String,
    pub score: Option<u32>,
    pub score_detail: ScoreDetail,
    pub user_score_bits: Option<u64>,
    pub user_score_detail: ScoreDetail,
    pub stem: String,
}

/// Mathematical model of a game record.
#[verifier::ext_equal]
pub ghost struct GameView {
    pub name: Seq<char>,
    pub href: Seq<char>,
    pub score: Option<u32>,
    pub score_detail: ScoreDetail,
    pub user_score_bits: Option<u64>,
    pub user_score_detail: ScoreDetail,
    pub stem: Seq<char>,
}

impl View for MetacriticGame {
    type V = GameView;

    open spec fn view(&self) -> GameView {
        GameView {
            name: self.name@,
            href: self.href@,
            score: self.score,
            score_detail: self.score_detail,
            user_score_bits: self.user_score_bits,
            user_score_detail: self.user_score_detail,
            stem: self.stem@,
        }
    }
}

impl GameView {
    /// A record is well formed when its stem is the stem of its name.
    pub open spec fn wf(self) -> bool {
        self.stem == stem_spec(self.name)
    }
}

impl MetacriticGame {
    /// An identical copy of the record.
    pub fn duplicate(&self) -> (r: Self)
        ensures
            r@ == self@,
    {
        MetacriticGame {
            name: self.name.clone(),
            href: self.href.clone(),
            score: self.score,
            score_detail: self.score_detail,
            user_score_bits: self.user_score_bits,
            user_score_detail: self.user_score_detail,
            stem: self.stem.clone(),
        }
    }
}

/// Critic score classification of a (lowercased) label.
pub open spec fn score_detail_spec(s: Seq<char>) -> ScoreDetail {
    if contains_seq(s, "positive"@) {
        ScoreDetail::Positive
    } else if contains_seq(s, "mixed"@) {
        ScoreDetail::Mixed
    } else if contains_seq(s, "negative"@) {
        ScoreDetail::Negative
    } else {
        ScoreDetail::Unknown
    }
}

/// User score classification of a (lowercased) label.
pub open spec fn user_score_detail_spec(s: Seq<char>) -> ScoreDetail {
    if contains_seq(s, "textscore_favorable"@) {
        ScoreDetail::Positive
    } else if contains_seq(s, "textscore_mixed"@) {
        ScoreDetail::Mixed
    } else if contains_seq(s, "textscore_unfavorable"@) {
        ScoreDetail::Negative
    } else {
        ScoreDetail::Unknown
    }
}

/// Scan a raw critic-score label for the first recognized keyword;
/// an unrecognized label degrades to `Unknown`, never to a failure.
pub fn parse_score_detail(value: String) -> (r: ScoreDetail)
    ensures
        r == score_detail_spec(value@),
{
    let v = to_chars(value.as_str());
    if contains_exec(&v, &to_chars("positive")) {
        ScoreDetail::Positive
    } else if contains_exec(&v, &to_chars("mixed")) {
        ScoreDetail::Mixed
    } else if contains_exec(&v, &to_chars("negative")) {
        ScoreDetail::Negative
    } else {
        ScoreDetail::Unknown
    }
}

/// Scan a raw user-score label for the first recognized keyword;
/// an unrecognized label degrades to `Unknown`, never to a failure.
pub fn parse_user_score_detail(value: String) -> (r: ScoreDetail)
    ensures
        r == user_score_detail_spec(value@),
{
    let v = to_chars(value.as_str());
    if contains_exec(&v, &to_chars("textscore_favorable")) {
        ScoreDetail::Positive
    } else if contains_exec(&v, &to_chars("textscore_mixed")) {
        ScoreDetail::Mixed
    } else if contains_exec(&v, &to_chars("textscore_unfavorable")) {
        ScoreDetail::Negative
    } else {
        ScoreDetail::Unknown
    }
}

/// An ASCII decimal digit.
pub open spec fn is_digit_char(c: char) -> bool {
    48 <= c as u32 && c as u32 <= 57
}

/// Numeric value of a digit string (most significant digit first).
pub open spec fn digits_val(s: Seq<char>) -> int
    decreases s.len(),
{
    if s.len() == 0 {
        0
    } else {
        digits_val(s.drop_last()) * 10 + (s.last() as u32 - 48)
    }
}

/// Parse of a non-signed digit string: one or more ASCII digits whose
/// value fits in a `u32`.
pub open spec fn parse_digits_spec(body: Seq<char>) -> Option<u32> {
    if body.len() == 0 {
        None
    } else if !(forall|i: int| 0 <= i < body.len() ==> is_digit_char(#[trigger] body[i])) {
        None
    } else if digits_val(body) > u32::MAX {
        None
    } else {
        Some(digits_val(body) as u32)
    }
}

/// Best-effort parse of a `u32`, as `str::parse::<u32>` accepts it: an
/// optional leading `+`, then one or more ASCII digits, and a value that
/// fits; anything else is an absent result, not a failure.
pub open spec fn parse_u32_spec(s: Seq<char>) -> Option<u32> {
    parse_digits_spec(
        if s.len() > 0 && s[0] == '+' {
            s.subrange(1, s.len() as int)
        } else {
            s
        },
    )
}

proof fn lemma_digits_val_nonneg(s: Seq<char>)
    requires
        forall|i: int| 0 <= i < s.len() ==> is_digit_char(#[trigger] s[i]),
    ensures
        digits_val(s) >= 0,
    decreases s.len(),
{
    if s.len() > 0 {
        assert(forall|i: int|
            0 <= i < s.drop_last().len() ==> is_digit_char(#[trigger] s.drop_last()[i]));
        lemma_digits_val_nonneg(s.drop_last());
    }
}

/// The value of a digit string never shrinks as digits are appended.
proof fn lemma_digits_val_prefix(s: Seq<char>, j: int)
    requires
        0 <= j <= s.len(),
        forall|i: int| 0 <= i < s.len() ==> is_digit_char(#[trigger] s[i]),
    ensures
        digits_val(s.take(j)) <= digits_val(s),
    decreases s.len() - j,
{
    if j == s.len() {
        assert(s.take(j) =~= s);
    } else {
        lemma_digits_val_prefix(s, j + 1);
        assert(s.take(j + 1).drop_last() =~= s.take(j));
        assert(s.take(j + 1).last() == s[j]);
        assert(forall|i: int|
            0 <= i < s.take(j).len() ==> is_digit_char(#[trigger] s.take(j)[i]));
        lemma_digits_val_nonneg(s.take(j));
        assert(digits_val(s.take(j + 1)) == digits_val(s.take(j)) * 10 + (s[j] as u32 - 48));
        assert(digits_val(s.take(j)) <= digits_val(s.take(j)) * 10);
    }
}

/// Best-effort parse of a critic score (executable mirror of
/// [`parse_u32_spec`]).
pub fn parse_u32(s: &str) -> (r: Option<u32>)
    ensures
        r == parse_u32_spec(s@),
{
    let cv = to_chars(s);
    let n: usize = cv.len();
    let start: usize = if n > 0 && cv[0] == '+' {
        1
    } else {
        0
    };
    let ghost body: Seq<char> = if s@.len() > 0 && s@[0] == '+' {
        s@.subrange(1, s@.len() as int)
    } else {
        s@
    };
    proof {
        assert(body =~= cv@.subrange(start as int, n as int));
    }
    if start == n {
        proof {
            assert(parse_u32_spec(s@) == parse_digits_spec(body));
        }
        return None;
    }
    let mut acc: u64 = 0;
    let mut i: usize = start;
    while i < n
        invariant
            cv@ == s@,
            n == cv@.len(),
            start <= i <= n,
            start == 1 <==> s@.len() > 0 && s@[0] == '+',
            start <= 1,
            body == cv@.subrange(start as int, n as int),
            body == (if s@.len() > 0 && s@[0] == '+' {
                s@.subrange(1, s@.len() as int)
            } else {
                s@
            }),
            body.len() == n - start,
            forall|m: int| 0 <= m < i - start ==> is_digit_char(#[trigger] body[m]),
            acc == digits_val(body.take(i - start)),
            acc <= u32::MAX,
        decreases n - i,
    {
        let c = cv[i];
        let u = c as u32;
        if !(48 <= u && u <= 57) {
            proof {
                assert(body[i - start] == cv@[i as int]);
                assert(!is_digit_char(body[i - start]));
                assert(parse_digits_spec(body) is None);
                assert(parse_u32_spec(s@) == parse_digits_spec(body));
            }
            return None;
        }
        let acc2: u64 = acc * 10 + ((u - 48) as u64);
        proof {
            assert(body.take(i + 1 - start).drop_last() =~= body.take(i - start));
            assert(body.take(i + 1 - start).last() == body[i - start]);
            assert(body[i - start] == cv@[i as int]);
            assert(acc2 == digits_val(body.take(i + 1 - start)));
        }
        if acc2 > 0xFFFF_FFFF {
            proof {
                if forall|m: int| 0 <= m < body.len() ==> is_digit_char(#[trigger] body[m]) {
                    lemma_digits_val_prefix(body, i + 1 - start);
                    assert(digits_val(body) > u32::MAX);
                }
                assert(parse_digits_spec(body) is None);
                assert(parse_u32_spec(s@) == parse_digits_spec(body));
            }
            return None;
        }
        acc = acc2;
        i = i + 1;
    }
    proof {
        assert(body.take(n - start) =~= body);
        assert(digits_val(body) == acc);
        assert(parse_digits_spec(body) == Some(acc as u32));
        assert(parse_u32_spec(s@) == parse_digits_spec(body));
    }
    Some(acc as u32)
}

/// The record a raw entry constructs.
pub open spec fn game_of_raw(e: RawEntryView) -> GameView {
    GameView {
        name: e.name,
        href: e.href,
        score: parse_u32_spec(e.score_text),
        score_detail: score_detail_spec(lower_all(e.score_label)),
        user_score_bits: e.user_score_bits,
        user_score_detail: user_score_detail_spec(lower_all(e.user_score_label)),
        stem: stem_spec(e.name),
    }
}

/// Lowercase every character of a string.
fn lower_ascii(s: &str) -> (r: Vec<char>)
    ensures
        r@ == lower_all(s@),
{
    let cv = to_chars(s);
    let mut r: Vec<char> = Vec::new();
    let mut i: usize = 0;
    while i < cv.len()
        invariant
            cv@ == s@,
            i <= cv@.len(),
            r@ == lower_all(s@.take(i as int)),
        decreases cv@.len() - i,
    {
        let c = lower_char_exec(cv[i]);
        r.push(c);
        proof {
            assert(s@.take(i + 1 as int).drop_last() =~= s@.take(i as int));
            assert(s@.take(i + 1 as int).last() == s@[i as int]);
        }
        i = i + 1;
    }
    proof {
        assert(s@.take(s@.len() as int) =~= s@);
    }
    r
}

/// Construct one record from one raw entry. Construction never fails:
/// an unparsable score is absent and an unrecognized label is `Unknown`.
pub fn game_from_raw(e: &RawEntry) -> (g: MetacriticGame)
    ensures
        g@ == game_of_raw(e@),
        g@.wf(),
{
    let score_label_lower = lower_ascii(e.score_label.as_str());
    let user_label_lower = lower_ascii(e.user_score_label.as_str());
    let score_detail = if contains_exec(&score_label_lower, &to_chars("positive")) {
        ScoreDetail::Positive
    } else if contains_exec(&score_label_lower, &to_chars("mixed")) {
        ScoreDetail::Mixed
    } else if contains_exec(&score_label_lower, &to_chars("negative")) {
        ScoreDetail::Negative
    } else {
        ScoreDetail::Unknown
    };
    let user_score_detail = if contains_exec(&user_label_lower, &to_chars("textscore_favorable")) {
        ScoreDetail::Positive
    } else if contains_exec(&user_label_lower, &to_chars("textscore_mixed")) {
        ScoreDetail::Mixed
    } else if contains_exec(&user_label_lower, &to_chars("textscore_unfavorable")) {
        ScoreDetail::Negative
    } else {
        ScoreDetail::Unknown
    };
    MetacriticGame {
        name: e.name.clone(),
        href: e.href.clone(),
        score: parse_u32(e.score_text.as_str()),
        score_detail,
        user_score_bits: e.user_score_bits,
        user_score_detail,
        stem: create_stem(e.name.as_str()),
    }
}

} // verus!
