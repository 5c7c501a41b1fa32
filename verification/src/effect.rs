//! The effect descriptor parser: from an ability text such as
//! `"Heal: 999, Status: None"` to its ordered name/value pairs.

use vstd::prelude::*;
use crate::error::{GameError, GameErrorView};
use crate::text::{lemma_split_without_separator, pieces, split, split_ranges, to_chars, trim, trim_range};

verus! {

/// One effect of an item: what it does and by how much or to what.
#[derive(Debug, PartialEq, Eq)]
pub struct EffectPair {
    pub name: String,
    pub value: String,
}

impl View for EffectPair {
    type V = (Seq<char>, Seq<char>);

    open spec fn view(&self) -> (Seq<char>, Seq<char>) {
        (self.name@, self.value@)
    }
}

/// The views of a list of effect pairs.
pub open spec fn pair_views(pairs: Seq<EffectPair>) -> Seq<(Seq<char>, Seq<char>)> {
    Seq::new(pairs.len(), |i: int| pairs[i]@)
}

/// Whether a comma-delimited segment is kept: its trimmed length exceeds two.
pub open spec fn retained(segment: Seq<char>) -> bool {
    trim(segment).len() > 2
}

/// The pair that one segment stands for. Its colon-delimited tokens alternate
/// between name and value, starting with a name, and the last name and value
/// make the pair, each trimmed. A segment that ends on a name has no pair:
/// the result is then `MissingValue` with that dangling name, trimmed.
pub open spec fn segment_pair(segment: Seq<char>) -> Result<
    (Seq<char>, Seq<char>),
    GameErrorView,
> {
    let tokens = split(segment, ':');
    let n = tokens.len() as int;
    if n % 2 == 1 {
        Err(GameErrorView::MissingValue(trim(tokens[n - 1])))
    } else {
        Ok((trim(tokens[n - 2]), trim(tokens[n - 1])))
    }
}

/// The pairs of the retained segments among `segments`, in order, or the
/// error of the first retained segment that has no pair.
pub open spec fn segment_pairs(segments: Seq<Seq<char>>) -> Result<
    Seq<(Seq<char>, Seq<char>)>,
    GameErrorView,
>
    decreases segments.len(),
{
    if segments.len() == 0 {
        Ok(Seq::empty())
    } else {
        match segment_pairs(segments.drop_last()) {
            Err(e) => Err(e),
            Ok(pairs) => if !retained(segments.last()) {
                Ok(pairs)
            } else {
                match segment_pair(segments.last()) {
                    Err(e) => Err(e),
                    Ok(pair) => Ok(pairs.push(pair)),
                }
            },
        }
    }
}

/// The effect pairs that an ability text stands for: the text, closed by a
/// comma, is cut at its commas, and each retained segment gives one pair.
pub open spec fn effects_of(text: Seq<char>) -> Result<
    Seq<(Seq<char>, Seq<char>)>,
    GameErrorView,
> {
    segment_pairs(split(text.push(','), ','))
}

/// The closing comma adds one empty segment, which is never retained.
pub proof fn lemma_closing_comma(text: Seq<char>)
    ensures
        split(text.push(','), ',') == split(text, ',').push(Seq::empty()),
        effects_of(text) == segment_pairs(split(text, ',')),
{
    let closed = text.push(',');
    assert(closed.drop_last() == text);
    let segments = split(closed, ',');
    assert(segments.drop_last() == split(text, ','));
    assert(trim(Seq::<char>::empty()).len() == 0);
}

/// A text of more than two characters, once trimmed, that holds neither a
/// comma nor a colon is a name without a value: it does not parse, and the
/// error names the trimmed text.
pub proof fn lemma_dangling_key(text: Seq<char>)
    requires
        trim(text).len() > 2,
        forall|i: int| 0 <= i < text.len() ==> text[i] != ',' && text[i] != ':',
    ensures
        effects_of(text) == Err::<Seq<(Seq<char>, Seq<char>)>, GameErrorView>(
            GameErrorView::MissingValue(trim(text)),
        ),
{
    lemma_closing_comma(text);
    lemma_split_without_separator(text, ',');
    lemma_split_without_separator(text, ':');
    let segments = seq![text];
    assert(segments.drop_last() == Seq::<Seq<char>>::empty());
    assert(segments.last() == text);
    assert(segment_pairs(segments.drop_last()) is Ok);
    assert(retained(text));
    assert(segment_pair(text) == Err::<(Seq<char>, Seq<char>), GameErrorView>(
        GameErrorView::MissingValue(trim(text)),
    ));
}

fn slice_of(text: &str, from: usize, to: usize) -> (r: String)
    requires
        from <= to <= text@.len(),
    ensures
        r@ == text@.subrange(from as int, to as int),
{
    text.substring_char(from, to).to_owned()
}

/// Reads one segment as a name/value pair; `MissingValue` carries the name
/// that the segment ends on when no value follows it.
pub fn tuple_name_value_format(base: &str) -> (r: Result<EffectPair, GameError>)
    ensures
        match segment_pair(base@) {
            Ok(pair) => r matches Ok(e) && e@ == pair,
            Err(e) => r matches Err(err) && err@ == e,
        },
{
    let chars = to_chars(base);
    let tokens = split_ranges(&chars, ':');
    let n = tokens.len();
    let ghost spec_tokens = split(base@, ':');
    assert(spec_tokens == pieces(chars@, tokens@));
    let (va, vb) = tokens[n - 1];
    let (ta, tb) = trim_range(&chars, va, vb);
    assert(chars@.subrange(ta as int, tb as int) == trim(spec_tokens[n - 1]));
    if n % 2 == 1 {
        Err(GameError::MissingValue(slice_of(base, ta, tb)))
    } else {
        let (ka, kb) = tokens[n - 2];
        let (sa, sb) = trim_range(&chars, ka, kb);
        assert(chars@.subrange(sa as int, sb as int) == trim(spec_tokens[n - 2]));
        Ok(EffectPair { name: slice_of(base, sa, sb), value: slice_of(base, ta, tb) })
    }
}

/// Parses an ability text into its ordered effect pairs. Fails with
/// `MissingValue` exactly when a retained segment ends on a name, and then
/// names the first such segment's dangling name.
pub fn parse_effects(text: &str) -> (r: Result<Vec<EffectPair>, GameError>)
    ensures
        match effects_of(text@) {
            Ok(pairs) => r matches Ok(v) && pair_views(v@) == pairs,
            Err(e) => r matches Err(err) && err@ == e,
        },
{
    let chars = to_chars(text);
    let segments = split_ranges(&chars, ',');
    let ghost spec_segments = split(text@, ',');
    let mut effects: Vec<EffectPair> = Vec::new();
    let mut i: usize = 0;
    proof {
        lemma_closing_comma(text@);
        assert(spec_segments.take(0) == Seq::<Seq<char>>::empty());
        assert(pair_views(effects@) == Seq::<(Seq<char>, Seq<char>)>::empty());
    }
    while i < segments.len()
        invariant
            i <= segments.len(),
            chars@ == text@,
            spec_segments == split(text@, ','),
            spec_segments == pieces(chars@, segments@),
            forall|k: int|
                0 <= k < segments@.len() ==> (#[trigger] segments@[k]).0 <= segments@[k].1
                    <= chars.len(),
            segment_pairs(spec_segments.take(i as int)) == Ok::<
                Seq<(Seq<char>, Seq<char>)>,
                GameErrorView,
            >(pair_views(effects@)),
        decreases segments.len() - i,
    {
        let (a, b) = segments[i];
        let ghost segment = spec_segments[i as int];
        proof {
            assert(spec_segments.take(i + 1).drop_last() == spec_segments.take(i as int));
            assert(spec_segments.take(i + 1).last() == segment);
            assert(segment == chars@.subrange(a as int, b as int));
        }
        let (ta, tb) = trim_range(&chars, a, b);
        if tb - ta > 2 {
            let piece = slice_of(text, a, b);
            let ghost before = pair_views(effects@);
            match tuple_name_value_format(piece.as_str()) {
                Err(e) => {
                    proof {
                        assert(piece@ == segment);
                        assert(retained(segment));
                        assert(segment_pairs(spec_segments.take(i + 1)) is Err);
                        lemma_first_failure(spec_segments, i as int);
                        lemma_closing_comma(text@);
                    }
                    return Err(e);
                },
                Ok(pair) => {
                    effects.push(pair);
                    assert(pair_views(effects@) == before.push(pair@));
                },
            }
        }
        i += 1;
    }
    proof {
        assert(spec_segments.take(i as int) == spec_segments);
    }
    Ok(effects)
}

/// Once a prefix of the segments fails, every longer prefix fails alike.
proof fn lemma_first_failure(segments: Seq<Seq<char>>, i: int)
    requires
        0 <= i < segments.len(),
        segment_pairs(segments.take(i + 1)) is Err,
    ensures
        segment_pairs(segments) == segment_pairs(segments.take(i + 1)),
    decreases segments.len() - i,
{
    if i + 1 == segments.len() {
        assert(segments.take(i + 1) == segments);
    } else {
        assert(segments.take(i + 2).drop_last() == segments.take(i + 1));
        lemma_first_failure(segments, i + 1);
    }
}

} // verus!
