//! Day 5: numbers and ranges of numbers carried through a chain of
//! tables of piecewise rules.
use crate::text::{
    after_prefix, all_usize, chars_of, lemma_split_nonempty, lines, lines_of, parse_all_usize,
    split, split_on, strip_prefix, views, words, words_of,
};
use std::ops::Range;
use vstd::prelude::*;

verus! {

/// Whether `x` lies in the half-open range `r`.
pub open spec fn within(r: Range<usize>, x: usize) -> bool {
    r.start <= x < r.end
}

/// The length of a range: how many numbers it holds. A range that ends at
/// or before its start holds none.
pub open spec fn span(r: Range<usize>) -> nat {
    if r.start < r.end {
        (r.end - r.start) as nat
    } else {
        0
    }
}

/// The sum of the lengths of `ranges`.
pub open spec fn total_span(ranges: Seq<Range<usize>>) -> nat
    decreases ranges.len(),
{
    if ranges.len() == 0 {
        0
    } else {
        total_span(ranges.drop_last()) + span(ranges.last())
    }
}

/// The greater of two numbers.
pub open spec fn later(a: usize, b: usize) -> usize {
    if a >= b {
        a
    } else {
        b
    }
}

/// The lesser of two numbers.
pub open spec fn earlier(a: usize, b: usize) -> usize {
    if a <= b {
        a
    } else {
        b
    }
}

/// The part of `inner` that `bounding` covers: the overlap of the two
/// ranges, from the later start to the earlier end. `None` where the
/// ranges have no number in common.
pub open spec fn covered(inner: Range<usize>, bounding: Range<usize>) -> Option<Range<usize>> {
    let lo = later(inner.start, bounding.start);
    let hi = earlier(inner.end, bounding.end);
    if lo < hi {
        Some(Range { start: lo, end: hi })
    } else {
        None
    }
}

/// The parts of `inner` that `bounding` does not cover, in order: what lies
/// before the start of `bounding`, and what lies at or after its end. A
/// part that would hold no number is left out, and so is an `inner` that
/// holds none. Where nothing is covered, `inner` is left over whole.
pub open spec fn uncovered(inner: Range<usize>, bounding: Range<usize>) -> Seq<Range<usize>> {
    if covered(inner, bounding) is Some {
        (if inner.start < bounding.start {
            seq![Range { start: inner.start, end: bounding.start }]
        } else {
            seq![]
        }) + (if bounding.end < inner.end {
            seq![Range { start: bounding.end, end: inner.end }]
        } else {
            seq![]
        })
    } else if inner.start < inner.end {
        seq![inner]
    } else {
        seq![]
    }
}

/// The length of an optional range, 0 for none.
pub open spec fn span_of(r: Option<Range<usize>>) -> nat {
    match r {
        Some(r) => span(r),
        None => 0,
    }
}

/// Whether the pieces are proper parts of `inner` outside `bounding`: each
/// holds a number, lies within `inner`, and holds no number of `bounding`.
pub open spec fn left_over(
    pieces: Seq<Range<usize>>,
    inner: Range<usize>,
    bounding: Range<usize>,
) -> bool {
    forall|i: int|
        0 <= i < pieces.len() ==> {
            let q = #[trigger] pieces[i];
            &&& inner.start <= q.start < q.end <= inner.end
            &&& q.end <= bounding.start || bounding.end <= q.start || bounding.end
                <= bounding.start
        }
}

/// Splits `inner` against `bounding` into the part that `bounding` covers
/// and the parts left over. The covered part is the overlap of the two
/// ranges, the parts left over are proper parts of `inner` outside
/// `bounding`, and all pieces together are as long as `inner`.
pub fn containment(inner: &Range<usize>, bounding: &Range<usize>) -> (r: (
    Option<Range<usize>>,
    Vec<Range<usize>>,
))
    ensures
        r.0 == covered(*inner, *bounding),
        r.1@ == uncovered(*inner, *bounding),
        span_of(r.0) + total_span(r.1@) == span(*inner),
        left_over(r.1@, *inner, *bounding),
        forall|x: usize|
            (r.0 matches Some(c) && within(c, x)) <==> within(*inner, x) && within(*bounding, x),
{
    proof {
        lemma_split_keeps_span(*inner, *bounding);
    }
    let lo = if inner.start >= bounding.start {
        inner.start
    } else {
        bounding.start
    };
    let hi = if inner.end <= bounding.end {
        inner.end
    } else {
        bounding.end
    };
    let mut out: Vec<Range<usize>> = Vec::new();
    if lo < hi {
        if inner.start < bounding.start {
            out.push(Range { start: inner.start, end: bounding.start });
        }
        if bounding.end < inner.end {
            out.push(Range { start: bounding.end, end: inner.end });
        }
        assert(out@ =~= uncovered(*inner, *bounding));
        (Some(Range { start: lo, end: hi }), out)
    } else {
        if inner.start < inner.end {
            out.push(Range { start: inner.start, end: inner.end });
        }
        assert(out@ =~= uncovered(*inner, *bounding));
        (None, out)
    }
}

/// The sum of the lengths of a concatenation is the sum of the sums.
pub proof fn lemma_total_span_concat(a: Seq<Range<usize>>, b: Seq<Range<usize>>)
    ensures
        total_span(a + b) == total_span(a) + total_span(b),
    decreases b.len(),
{
    if b.len() == 0 {
        assert(a + b =~= a);
    } else {
        lemma_total_span_concat(a, b.drop_last());
        assert((a + b).drop_last() =~= a + b.drop_last());
    }
}

/// Splitting a range against another loses and gains nothing: the covered
/// part and the parts left over are together exactly as long as the range.
/// The covered part holds exactly the numbers that both ranges hold, and
/// the parts left over are proper parts of the range outside the other.
pub proof fn lemma_split_keeps_span(inner: Range<usize>, bounding: Range<usize>)
    ensures
        span_of(covered(inner, bounding)) + total_span(uncovered(inner, bounding)) == span(inner),
        left_over(uncovered(inner, bounding), inner, bounding),
        forall|x: usize|
            (covered(inner, bounding) matches Some(c) && within(c, x)) <==> within(inner, x)
                && within(bounding, x),
{
    let out = uncovered(inner, bounding);
    reveal_with_fuel(total_span, 3);
    if out.len() == 2 {
        assert(out.drop_last().drop_last() =~= Seq::<Range<usize>>::empty());
        assert(out.drop_last().last() == out[0]);
    } else if out.len() == 1 {
        assert(out.drop_last() =~= Seq::<Range<usize>>::empty());
    }
}

/// A table of rules `(from, to)`, each carrying the range `from`
/// onto the range `to` of the same length. Earlier rules come first.
#[derive(Debug, PartialEq, Clone)]
pub struct Mapping {
    pub ranges: Vec<(Range<usize>, Range<usize>)>,
}

/// Whether a rule can be applied within `usize`: the image of the end of
/// its source range does not leave `usize`. A rule whose source holds no
/// number always fits.
pub open spec fn rule_fits(rule: (Range<usize>, Range<usize>)) -> bool {
    rule.0.start < rule.0.end ==> rule.1.start + (rule.0.end - rule.0.start) <= usize::MAX
}

/// Whether every rule of `rules` fits.
pub open spec fn rules_fit(rules: Seq<(Range<usize>, Range<usize>)>) -> bool {
    forall|i: int| 0 <= i < rules.len() ==> rule_fits(#[trigger] rules[i])
}

/// Where the first rule whose source holds `num` carries it; `num` itself if
/// no rule does.
pub open spec fn image_of(rules: Seq<(Range<usize>, Range<usize>)>, num: usize) -> int
    decreases rules.len(),
{
    if rules.len() == 0 {
        num as int
    } else if within(rules[0].0, num) {
        rules[0].1.start + num - rules[0].0.start
    } else {
        image_of(rules.drop_first(), num)
    }
}

/// The image under `rule` of a range `piece` that lies in the rule's source.
pub open spec fn shifted(rule: (Range<usize>, Range<usize>), piece: Range<usize>) -> Range<usize> {
    Range {
        start: (rule.1.start + piece.start - rule.0.start) as usize,
        end: (rule.1.start + piece.end - rule.0.start) as usize,
    }
}

/// The first `k` of `ranges` split against `rule`: the images of the covered
/// parts, and the parts left over, each in order.
pub open spec fn split_by(
    rule: (Range<usize>, Range<usize>),
    ranges: Seq<Range<usize>>,
    k: int,
) -> (Seq<Range<usize>>, Seq<Range<usize>>)
    decreases k,
{
    if k <= 0 {
        (Seq::empty(), Seq::empty())
    } else {
        let (images, rest) = split_by(rule, ranges, k - 1);
        (
            match covered(ranges[k - 1], rule.0) {
                Some(c) => images.push(shifted(rule, c)),
                None => images,
            },
            rest + uncovered(ranges[k - 1], rule.0),
        )
    }
}

/// `ranges` after the first `j` of `rules`: the images found so far, and the
/// ranges that no rule has covered yet. Each rule is applied to what the
/// rules before it left over.
pub open spec fn apply_rules(
    rules: Seq<(Range<usize>, Range<usize>)>,
    ranges: Seq<Range<usize>>,
    j: int,
) -> (Seq<Range<usize>>, Seq<Range<usize>>)
    decreases j,
{
    if j <= 0 {
        (Seq::empty(), ranges)
    } else {
        let (images, rest) = apply_rules(rules, ranges, j - 1);
        let (more, left) = split_by(rules[j - 1], rest, rest.len() as int);
        (images + more, left)
    }
}

/// The ranges onto which `rules` carry `ranges`: the images under the rules,
/// then what no rule covered.
pub open spec fn mapped_ranges(
    rules: Seq<(Range<usize>, Range<usize>)>,
    ranges: Seq<Range<usize>>,
) -> Seq<Range<usize>> {
    let (images, rest) = apply_rules(rules, ranges, rules.len() as int);
    images + rest
}

/// The image of a covered part is as long as the part, and working it out
/// stays within `usize`.
pub proof fn lemma_shifted_span(rule: (Range<usize>, Range<usize>), inner: Range<usize>)
    requires
        rule_fits(rule),
    ensures
        covered(inner, rule.0) matches Some(c) ==> span(shifted(rule, c)) == span(c) && shifted(
            rule,
            c,
        ).start == rule.1.start + c.start - rule.0.start && shifted(rule, c).end == rule.1.start
            + c.end - rule.0.start && rule.0.start <= c.start < c.end <= rule.0.end,
{
}

/// The images and the leftovers of the first `k` ranges are together as long
/// as those ranges.
pub proof fn lemma_split_by_span(
    rule: (Range<usize>, Range<usize>),
    ranges: Seq<Range<usize>>,
    k: int,
)
    requires
        rule_fits(rule),
        0 <= k <= ranges.len(),
    ensures
        total_span(split_by(rule, ranges, k).0) + total_span(split_by(rule, ranges, k).1)
            == total_span(ranges.take(k)),
    decreases k,
{
    if k > 0 {
        lemma_split_by_span(rule, ranges, k - 1);
        let (images, rest) = split_by(rule, ranges, k - 1);
        let r = ranges[k - 1];
        lemma_split_keeps_span(r, rule.0);
        lemma_shifted_span(rule, r);
        lemma_total_span_concat(rest, uncovered(r, rule.0));
        assert(ranges.take(k).drop_last() =~= ranges.take(k - 1));
        match covered(r, rule.0) {
            Some(c) => {
                assert(images.push(shifted(rule, c)).drop_last() =~= images);
            },
            None => {},
        }
    }
}

/// After any number of rules, the images and what is left are together as
/// long as the ranges were.
pub proof fn lemma_apply_rules_span(
    rules: Seq<(Range<usize>, Range<usize>)>,
    ranges: Seq<Range<usize>>,
    j: int,
)
    requires
        rules_fit(rules),
        0 <= j <= rules.len(),
    ensures
        total_span(apply_rules(rules, ranges, j).0) + total_span(apply_rules(rules, ranges, j).1)
            == total_span(ranges),
    decreases j,
{
    if j > 0 {
        lemma_apply_rules_span(rules, ranges, j - 1);
        let (images, rest) = apply_rules(rules, ranges, j - 1);
        let (more, left) = split_by(rules[j - 1], rest, rest.len() as int);
        lemma_split_by_span(rules[j - 1], rest, rest.len() as int);
        assert(rest.take(rest.len() as int) =~= rest);
        lemma_total_span_concat(images, more);
    }
}

/// Carrying ranges through a table loses and gains nothing: the images and
/// the uncovered pieces are together exactly as long as the ranges were.
pub proof fn lemma_mapping_keeps_span(
    rules: Seq<(Range<usize>, Range<usize>)>,
    ranges: Seq<Range<usize>>,
)
    requires
        rules_fit(rules),
    ensures
        total_span(mapped_ranges(rules, ranges)) == total_span(ranges),
{
    lemma_apply_rules_span(rules, ranges, rules.len() as int);
    let (images, rest) = apply_rules(rules, ranges, rules.len() as int);
    lemma_total_span_concat(images, rest);
}

impl Mapping {
    /// Carries `num` through the table.
    pub fn map(&self, num: usize) -> (r: usize)
        requires
            rules_fit(self.ranges@),
        ensures
            r == image_of(self.ranges@, num),
    {
        let mut i: usize = 0;
        assert(self.ranges@.skip(0) =~= self.ranges@);
        while i < self.ranges.len()
            invariant
                i <= self.ranges.len(),
                rules_fit(self.ranges@),
                image_of(self.ranges@, num) == image_of(self.ranges@.skip(i as int), num),
            decreases self.ranges.len() - i,
        {
            let rule = &self.ranges[i];
            proof {
                assert(self.ranges@.skip(i as int)[0] == *rule);
                assert(self.ranges@.skip(i as int).drop_first() =~= self.ranges@.skip(i + 1));
                assert(rule_fits(self.ranges@[i as int]));
            }
            if rule.0.start <= num && num < rule.0.end {
                return rule.1.start + (num - rule.0.start);
            }
            i += 1;
        }
        num
    }

    /// Carries `ranges` through the table: each rule in turn takes the part it
    /// covers out of every range that the rules before it left over.
    pub fn map_ranges(&self, ranges: Vec<Range<usize>>) -> (out: Vec<Range<usize>>)
        requires
            rules_fit(self.ranges@),
        ensures
            out@ == mapped_ranges(self.ranges@, ranges@),
            total_span(out@) == total_span(ranges@),
    {
        let mut mapped: Vec<Range<usize>> = Vec::new();
        let mut unmapped: Vec<Range<usize>> = ranges;
        let mut j: usize = 0;
        while j < self.ranges.len()
            invariant
                j <= self.ranges.len(),
                rules_fit(self.ranges@),
                (mapped@, unmapped@) == apply_rules(self.ranges@, ranges@, j as int),
            decreases self.ranges.len() - j,
        {
            let rule = &self.ranges[j];
            let ghost images = mapped@;
            let mut left: Vec<Range<usize>> = Vec::new();
            let mut k: usize = 0;
            while k < unmapped.len()
                invariant
                    k <= unmapped.len(),
                    j < self.ranges.len(),
                    *rule == self.ranges@[j as int],
                    rule_fits(*rule),
                    mapped@ == images + split_by(*rule, unmapped@, k as int).0,
                    left@ == split_by(*rule, unmapped@, k as int).1,
                decreases unmapped.len() - k,
            {
                let (inner, mut out) = containment(&unmapped[k], &rule.0);
                proof {
                    lemma_shifted_span(*rule, unmapped@[k as int]);
                }
                left.append(&mut out);
                if let Some(c) = inner {
                    mapped.push(
                        Range {
                            start: rule.1.start + (c.start - rule.0.start),
                            end: rule.1.start + (c.end - rule.0.start),
                        },
                    );
                }
                proof {
                    assert(mapped@ =~= images + split_by(*rule, unmapped@, k + 1).0);
                }
                k += 1;
            }
            unmapped = left;
            j += 1;
        }
        proof {
            lemma_mapping_keeps_span(self.ranges@, ranges@);
        }
        mapped.append(&mut unmapped);
        mapped
    }
}

/// Why a puzzle text could not be read.
#[derive(Debug, Clone, Copy, PartialEq, Eq)]
pub enum ParseError {
    /// The text does not start with `seeds: `.
    NoSeeds,
    /// A seed is not a number that fits `usize`.
    Number,
    /// A line of a table does not hold three numbers that fit `usize`, or a
    /// range of it would end beyond `usize`.
    Rule,
}

impl ParseError {
    /// The description of the error.
    pub open spec fn description(&self) -> Seq<char> {
        match self {
            ParseError::NoSeeds => "Does not start with seed"@,
            ParseError::Number => "invalid digit found in string"@,
            ParseError::Rule => "Not a valid mapping rule"@,
        }
    }

    /// A description of the error.
    pub fn message(&self) -> (s: &'static str)
        ensures
            s@ == self.description(),
    {
        match self {
            ParseError::NoSeeds => "Does not start with seed",
            ParseError::Number => "invalid digit found in string",
            ParseError::Rule => "Not a valid mapping rule",
        }
    }
}

/// The rule that a line of a table writes: of its first three numbers, the
/// start of the target range, the start of the source range, and the length
/// of both.
pub open spec fn rule_of(line: Seq<char>) -> Option<(Range<usize>, Range<usize>)> {
    match all_usize(words_of(line)) {
        Some(n) => if n.len() >= 3 && n[1] + n[2] <= usize::MAX && n[0] + n[2] <= usize::MAX {
            Some(
                (
                    Range { start: n[1], end: (n[1] + n[2]) as usize },
                    Range { start: n[0], end: (n[0] + n[2]) as usize },
                ),
            )
        } else {
            None
        },
        None => None,
    }
}

/// The table that a segment of the text writes: a heading line, which is
/// not read, then one rule per line.
pub open spec fn mapping_of(segment: Seq<char>) -> Option<Seq<(Range<usize>, Range<usize>)>> {
    let ls = lines_of(segment);
    if forall|i: int| 1 <= i < ls.len() ==> rule_of(#[trigger] ls[i]) is Some {
        Some(
            Seq::new(
                if ls.len() > 0 {
                    (ls.len() - 1) as nat
                } else {
                    0
                },
                |i: int| rule_of(ls[i + 1])->0,
            ),
        )
    } else {
        None
    }
}

/// The seeds and the chain of tables of a puzzle.
#[derive(Debug, PartialEq, Clone)]
pub struct Game {
    pub seeds: Vec<usize>,
    pub mappings: Vec<Mapping>,
}

/// The mathematical content of a [`Game`].
pub struct GameView {
    pub seeds: Seq<usize>,
    pub mappings: Seq<Seq<(Range<usize>, Range<usize>)>>,
}

impl View for Game {
    type V = GameView;

    open spec fn view(&self) -> GameView {
        GameView {
            seeds: self.seeds@,
            mappings: self.mappings@.map_values(|m: Mapping| m.ranges@),
        }
    }
}

/// The puzzle that a text writes. Its segments are separated by empty lines:
/// the first holds the seeds after `seeds: `, each further one a table.
pub open spec fn game_of(s: Seq<char>) -> Result<GameView, ParseError> {
    let segments = split(s, "\n\n"@);
    match after_prefix(segments[0], "seeds: "@) {
        None => Err(ParseError::NoSeeds),
        Some(rest) => match all_usize(words_of(rest)) {
            None => Err(ParseError::Number),
            Some(seeds) => if forall|i: int|
                1 <= i < segments.len() ==> mapping_of(#[trigger] segments[i]) is Some {
                Ok(
                    GameView {
                        seeds,
                        mappings: Seq::new(
                            (segments.len() - 1) as nat,
                            |i: int| mapping_of(segments[i + 1])->0,
                        ),
                    },
                )
            } else {
                Err(ParseError::Rule)
            },
        },
    }
}

fn rule_from(line: &Vec<char>) -> (r: Option<(Range<usize>, Range<usize>)>)
    ensures
        r == rule_of(line@),
{
    match parse_all_usize(&words(line)) {
        Some(n) => {
            if n.len() < 3 {
                return None;
            }
            match (n[1].checked_add(n[2]), n[0].checked_add(n[2])) {
                (Some(from_end), Some(to_end)) => Some(
                    (Range { start: n[1], end: from_end }, Range { start: n[0], end: to_end }),
                ),
                _ => None,
            }
        },
        None => None,
    }
}

fn mapping_from(segment: &Vec<char>) -> (r: Option<Mapping>)
    ensures
        match r {
            Some(m) => mapping_of(segment@) == Some(m.ranges@),
            None => mapping_of(segment@) is None,
        },
{
    let ls = lines(segment);
    let mut ranges: Vec<(Range<usize>, Range<usize>)> = Vec::new();
    let mut i: usize = 1;
    while i < ls.len()
        invariant
            1 <= i,
            i <= ls.len() || (ls.len() == 0 && i == 1),
            views(ls@) == lines_of(segment@),
            ranges.len() == i - 1,
            forall|j: int| 1 <= j < i ==> rule_of(#[trigger] views(ls@)[j]) == Some(ranges@[j - 1]),
        decreases ls.len() - i,
    {
        assert(views(ls@)[i as int] == ls@[i as int]@);
        match rule_from(&ls[i]) {
            Some(rule) => {
                ranges.push(rule);
            },
            None => {
                return None;
            },
        }
        i += 1;
    }
    proof {
        let all = lines_of(segment@);
        assert forall|j: int| 1 <= j < all.len() implies rule_of(#[trigger] all[j]) is Some by {
            assert(rule_of(views(ls@)[j]) is Some);
        }
        assert forall|k: int| 0 <= k < ranges@.len() implies ranges@[k] == rule_of(
            all[k + 1],
        )->0 by {
            assert(rule_of(views(ls@)[k + 1]) == Some(ranges@[k]));
        }
        assert(ranges@ =~= mapping_of(segment@)->0);
    }
    Some(Mapping { ranges })
}

impl Mapping {
    /// Reads a table: a heading line, then one rule per line. The error is
    /// always [`ParseError::Rule`].
    pub fn from_str(s: &str) -> (r: Result<Mapping, ParseError>)
        ensures
            match r {
                Ok(m) => mapping_of(s@) == Some(m.ranges@),
                Err(e) => mapping_of(s@) is None && e == ParseError::Rule,
            },
    {
        match mapping_from(&chars_of(s)) {
            Some(m) => Ok(m),
            None => Err(ParseError::Rule),
        }
    }
}

impl Game {
    /// Reads a puzzle text.
    #[verifier::loop_isolation(false)]
    pub fn from_str(s: &str) -> (r: Result<Game, ParseError>)
        ensures
            match r {
                Ok(g) => game_of(s@) == Ok::<GameView, ParseError>(g@),
                Err(e) => game_of(s@) == Err::<GameView, ParseError>(e),
            },
    {
        proof {
            reveal_strlit("\n\n");
            lemma_split_nonempty(s@, "\n\n"@);
        }
        let segments = split_on(&chars_of(s), &chars_of("\n\n"));
        assert(views(segments@)[0] == segments@[0]@);
        let rest = match strip_prefix(&segments[0], &chars_of("seeds: ")) {
            Some(rest) => rest,
            None => {
                return Err(ParseError::NoSeeds);
            },
        };
        let seeds = match parse_all_usize(&words(&rest)) {
            Some(seeds) => seeds,
            None => {
                return Err(ParseError::Number);
            },
        };
        let mut mappings: Vec<Mapping> = Vec::new();
        let mut i: usize = 1;
        while i < segments.len()
            invariant
                1 <= i <= segments.len(),
                views(segments@) == split(s@, "\n\n"@),
                mappings.len() == i - 1,
                forall|j: int|
                    1 <= j < i ==> mapping_of(#[trigger] views(segments@)[j]) == Some(
                        mappings@[j - 1].ranges@,
                    ),
            decreases segments.len() - i,
        {
            assert(views(segments@)[i as int] == segments@[i as int]@);
            match mapping_from(&segments[i]) {
                Some(m) => {
                    mappings.push(m);
                },
                None => {
                    assert(mapping_of(split(s@, "\n\n"@)[i as int]) is None);
                    return Err(ParseError::Rule);
                },
            }
            i += 1;
        }
        let game = Game { seeds, mappings };
        proof {
            let all = split(s@, "\n\n"@);
            assert forall|j: int| 1 <= j < all.len() implies mapping_of(#[trigger] all[j]) is Some by {
                assert(mapping_of(views(segments@)[j]) is Some);
            }
            assert forall|k: int| 0 <= k < game@.mappings.len() implies game@.mappings[k]
                == mapping_of(all[k + 1])->0 by {
                assert(mapping_of(views(segments@)[k + 1]) == Some(game.mappings@[k].ranges@));
            }
            assert(game@.mappings =~= Seq::new(
                (all.len() - 1) as nat,
                |i: int| mapping_of(all[i + 1])->0,
            ));
        }
        Ok(game)
    }
}

/// Whether every rule of every table of `g` fits.
pub open spec fn game_fits(g: GameView) -> bool {
    forall|m: int| 0 <= m < g.mappings.len() ==> rules_fit(#[trigger] g.mappings[m])
}

/// Where the first `j` tables carry `seed`.
pub open spec fn location(
    mappings: Seq<Seq<(Range<usize>, Range<usize>)>>,
    seed: usize,
    j: int,
) -> usize
    decreases j,
{
    if j <= 0 {
        seed
    } else {
        image_of(mappings[j - 1], location(mappings, seed, j - 1)) as usize
    }
}

/// Where all tables of `g` carry its seed of index `i`.
pub open spec fn seed_location(g: GameView, i: int) -> usize {
    location(g.mappings, g.seeds[i], g.mappings.len() as int)
}

/// The least of the numbers onto which the tables carry the seeds.
pub fn part_one(game: &Game) -> (n: usize)
    requires
        game.seeds.len() > 0,
        game_fits(game@),
    ensures
        exists|i: int| 0 <= i < game.seeds.len() && n == #[trigger] seed_location(game@, i),
        forall|i: int| 0 <= i < game.seeds.len() ==> n <= #[trigger] seed_location(game@, i),
{
    let mut best: usize = 0;
    let mut i: usize = 0;
    while i < game.seeds.len()
        invariant
            i <= game.seeds.len(),
            game_fits(game@),
            i > 0 ==> exists|k: int| 0 <= k < i && best == #[trigger] seed_location(game@, k),
            forall|k: int| 0 <= k < i ==> best <= #[trigger] seed_location(game@, k),
        decreases game.seeds.len() - i,
    {
        let mut acc: usize = game.seeds[i];
        let mut j: usize = 0;
        while j < game.mappings.len()
            invariant
                j <= game.mappings.len(),
                i < game.seeds.len(),
                game_fits(game@),
                acc == location(game@.mappings, game.seeds@[i as int], j as int),
            decreases game.mappings.len() - j,
        {
            proof {
                assert(game@.mappings[j as int] == game.mappings@[j as int].ranges@);
                assert(rules_fit(game@.mappings[j as int]));
            }
            acc = game.mappings[j].map(acc);
            j += 1;
        }
        assert(acc == seed_location(game@, i as int));
        if i == 0 || acc < best {
            best = acc;
        }
        i += 1;
    }
    best
}

/// The range of seeds that the pair of index `p` of `seeds` writes: it starts
/// at the pair's first number and has its second number as length.
pub open spec fn seed_range(seeds: Seq<usize>, p: int) -> Range<usize> {
    Range { start: seeds[2 * p], end: (seeds[2 * p] + seeds[2 * p + 1]) as usize }
}

/// Whether every range of seeds ends within `usize`.
pub open spec fn pairs_fit(seeds: Seq<usize>) -> bool {
    forall|p: int|
        0 <= p < seeds.len() / 2 ==> (#[trigger] seeds[2 * p]) + seeds[2 * p + 1] <= usize::MAX
}

/// Whether some range of seeds holds a seed.
pub open spec fn has_seeds(seeds: Seq<usize>) -> bool {
    exists|p: int| 0 <= p < seeds.len() / 2 && #[trigger] seeds[2 * p + 1] > 0
}

/// `ranges` carried through the first `j` tables.
pub open spec fn carried(
    mappings: Seq<Seq<(Range<usize>, Range<usize>)>>,
    ranges: Seq<Range<usize>>,
    j: int,
) -> Seq<Range<usize>>
    decreases j,
{
    if j <= 0 {
        ranges
    } else {
        mapped_ranges(mappings[j - 1], carried(mappings, ranges, j - 1))
    }
}

/// The ranges onto which the tables of `g` carry its range of seeds of
/// index `p`; none for a range without seeds.
pub open spec fn carried_seeds(g: GameView, p: int) -> Seq<Range<usize>> {
    if g.seeds[2 * p + 1] > 0 {
        carried(g.mappings, seq![seed_range(g.seeds, p)], g.mappings.len() as int)
    } else {
        seq![]
    }
}

/// The start of the range of index `q` among those onto which the tables of
/// `g` carry its range of seeds of index `p`.
pub open spec fn carried_start(g: GameView, p: int, q: int) -> usize {
    carried_seeds(g, p)[q].start
}

/// How many ranges the tables of `g` make of its range of seeds of index `p`.
pub open spec fn carried_count(g: GameView, p: int) -> nat {
    carried_seeds(g, p).len()
}

/// Carrying ranges through a chain of tables loses and gains nothing.
pub proof fn lemma_carried_keeps_span(
    mappings: Seq<Seq<(Range<usize>, Range<usize>)>>,
    ranges: Seq<Range<usize>>,
    j: int,
)
    requires
        0 <= j <= mappings.len(),
        forall|m: int| 0 <= m < mappings.len() ==> rules_fit(#[trigger] mappings[m]),
    ensures
        total_span(carried(mappings, ranges, j)) == total_span(ranges),
    decreases j,
{
    if j > 0 {
        lemma_carried_keeps_span(mappings, ranges, j - 1);
        lemma_mapping_keeps_span(mappings[j - 1], carried(mappings, ranges, j - 1));
    }
}

/// A range of seeds that holds a seed is carried onto at least one range.
pub proof fn lemma_seeds_arrive(g: GameView, p: int)
    requires
        game_fits(g),
        0 <= p < g.seeds.len() / 2,
        g.seeds[2 * p] + g.seeds[2 * p + 1] <= usize::MAX,
        g.seeds[2 * p + 1] > 0,
    ensures
        carried_count(g, p) > 0,
{
    let first = seq![seed_range(g.seeds, p)];
    reveal_with_fuel(total_span, 2);
    assert(first.drop_last() =~= Seq::<Range<usize>>::empty());
    lemma_carried_keeps_span(g.mappings, first, g.mappings.len() as int);
}

/// The least start of the ranges onto which the tables carry the ranges of
/// seeds. The seeds are read in pairs; a last seed without a partner is not
/// read, and a range of length 0 holds no seed.
pub fn part_two(game: &Game) -> (n: usize)
    requires
        has_seeds(game.seeds@),
        game_fits(game@),
        pairs_fit(game.seeds@),
    ensures
        exists|p: int, q: int|
            0 <= p < game.seeds.len() / 2 && 0 <= q < carried_count(game@, p) && n
                == #[trigger] carried_start(game@, p, q),
        forall|p: int, q: int|
            0 <= p < game.seeds.len() / 2 && 0 <= q < carried_count(game@, p) ==> n
                <= #[trigger] carried_start(game@, p, q),
{
    let pairs = game.seeds.len() / 2;
    let mut best: usize = 0;
    let mut seen = false;
    let mut p: usize = 0;
    while p < pairs
        invariant
            p <= pairs,
            pairs == game.seeds.len() / 2,
            game_fits(game@),
            pairs_fit(game.seeds@),
            forall|a: int| 0 <= a < p && #[trigger] carried_count(game@, a) > 0 ==> seen,
            seen ==> exists|a: int, b: int|
                0 <= a < p && 0 <= b < carried_count(game@, a) && best == #[trigger] carried_start(
                    game@,
                    a,
                    b,
                ),
            forall|a: int, b: int|
                0 <= a < p && 0 <= b < carried_count(game@, a) ==> best <= #[trigger] carried_start(
                    game@,
                    a,
                    b,
                ),
        decreases pairs - p,
    {
        let start = game.seeds[2 * p];
        let len = game.seeds[2 * p + 1];
        assert(game.seeds@[2 * p] + game.seeds@[2 * p + 1] <= usize::MAX);
        let mut ranges: Vec<Range<usize>> = Vec::new();
        if len > 0 {
            ranges.push(Range { start, end: start + len });
            let ghost first = seq![seed_range(game@.seeds, p as int)];
            assert(ranges@ =~= first);
            let mut j: usize = 0;
            while j < game.mappings.len()
                invariant
                    j <= game.mappings.len(),
                    game_fits(game@),
                    ranges@ == carried(game@.mappings, first, j as int),
                decreases game.mappings.len() - j,
            {
                proof {
                    assert(game@.mappings[j as int] == game.mappings@[j as int].ranges@);
                    assert(rules_fit(game@.mappings[j as int]));
                }
                ranges = game.mappings[j].map_ranges(ranges);
                j += 1;
            }
        }
        assert(ranges@ == carried_seeds(game@, p as int));
        let ghost before = best;
        let ghost had = seen;
        let mut q: usize = 0;
        while q < ranges.len()
            invariant
                q <= ranges.len(),
                p < pairs,
                ranges@ == carried_seeds(game@, p as int),
                seen == (had || q > 0),
                best <= before || !had,
                seen ==> (had && best == before) || exists|b: int|
                    0 <= b < q && best == #[trigger] carried_start(game@, p as int, b),
                forall|b: int| 0 <= b < q ==> best <= #[trigger] carried_start(game@, p as int, b),
            decreases ranges.len() - q,
        {
            assert(ranges@[q as int].start == carried_start(game@, p as int, q as int));
            if !seen || ranges[q].start < best {
                best = ranges[q].start;
            }
            seen = true;
            q += 1;
        }
        assert(ranges@.len() == carried_count(game@, p as int));
        p += 1;
    }
    proof {
        let p0 = choose|p: int| 0 <= p < game.seeds@.len() / 2 && #[trigger] game.seeds@[2 * p + 1] > 0;
        assert(game.seeds@[2 * p0] + game.seeds@[2 * p0 + 1] <= usize::MAX);
        lemma_seeds_arrive(game@, p0);
    }
    best
}

impl Mapping {
    /// Whether every rule of the table fits.
    pub fn fits(&self) -> (r: bool)
        ensures
            r == rules_fit(self.ranges@),
    {
        let mut i: usize = 0;
        while i < self.ranges.len()
            invariant
                i <= self.ranges.len(),
                forall|j: int| 0 <= j < i ==> rule_fits(#[trigger] self.ranges@[j]),
            decreases self.ranges.len() - i,
        {
            let rule = &self.ranges[i];
            if rule.0.start < rule.0.end && rule.1.start.checked_add(
                rule.0.end - rule.0.start,
            ).is_none() {
                assert(!rule_fits(self.ranges@[i as int]));
                return false;
            }
            i += 1;
        }
        true
    }
}

impl Game {
    /// Whether every rule of every table fits.
    pub fn fits(&self) -> (r: bool)
        ensures
            r == game_fits(self@),
    {
        let mut m: usize = 0;
        while m < self.mappings.len()
            invariant
                m <= self.mappings.len(),
                forall|j: int| 0 <= j < m ==> rules_fit(#[trigger] self@.mappings[j]),
            decreases self.mappings.len() - m,
        {
            assert(self@.mappings[m as int] == self.mappings@[m as int].ranges@);
            if !self.mappings[m].fits() {
                return false;
            }
            m += 1;
        }
        true
    }

    /// Whether every range of seeds ends within `usize`.
    pub fn pairs_fit(&self) -> (r: bool)
        ensures
            r == pairs_fit(self.seeds@),
    {
        let pairs = self.seeds.len() / 2;
        let mut p: usize = 0;
        while p < pairs
            invariant
                p <= pairs,
                pairs == self.seeds.len() / 2,
                forall|q: int|
                    0 <= q < p ==> (#[trigger] self.seeds@[2 * q]) + self.seeds@[2 * q + 1]
                        <= usize::MAX,
            decreases pairs - p,
        {
            if self.seeds[2 * p].checked_add(self.seeds[2 * p + 1]).is_none() {
                assert(self.seeds@[2 * p] + self.seeds@[2 * p + 1] > usize::MAX);
                return false;
            }
            p += 1;
        }
        true
    }
}

/// The least of the numbers onto which the tables carry the seeds: `None`
/// where there is no seed or a rule does not fit.
pub fn checked_part_one(game: &Game) -> (r: Option<usize>)
    ensures
        r is Some <==> game.seeds.len() > 0 && game_fits(game@),
        r matches Some(n) ==> call_ensures(part_one, (game,), n),
{
    if game.seeds.len() > 0 && game.fits() {
        Some(part_one(game))
    } else {
        None
    }
}

impl Game {
    /// Whether some range of seeds holds a seed.
    pub fn has_seeds(&self) -> (r: bool)
        ensures
            r == has_seeds(self.seeds@),
    {
        let pairs = self.seeds.len() / 2;
        let mut p: usize = 0;
        while p < pairs
            invariant
                p <= pairs,
                pairs == self.seeds.len() / 2,
                forall|q: int| 0 <= q < p ==> #[trigger] self.seeds@[2 * q + 1] == 0,
            decreases pairs - p,
        {
            if self.seeds[2 * p + 1] > 0 {
                return true;
            }
            p += 1;
        }
        false
    }
}

/// The least start of the ranges onto which the tables carry the ranges of
/// seeds: `None` where no range of seeds holds a seed, a range of seeds
/// ends beyond `usize`, or a rule does not fit.
pub fn checked_part_two(game: &Game) -> (r: Option<usize>)
    ensures
        r is Some <==> has_seeds(game.seeds@) && game_fits(game@) && pairs_fit(game.seeds@),
        r matches Some(n) ==> call_ensures(part_two, (game,), n),
{
    if game.has_seeds() && game.fits() && game.pairs_fit() {
        Some(part_two(game))
    } else {
        None
    }
}

} // verus!
